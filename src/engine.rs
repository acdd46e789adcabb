//! The lifecycle engine: the registry of live windows and the decisions taken
//! for each command and each native close.
//!
//! The engine never touches a native window itself. It decides what is to be
//! done (an [`Action`]); the caller does it, reports back what it made, and
//! emits the events that the engine names.
use vstd::prelude::*;
use crate::protocol::{Command, Event, WindowOptions};

verus! {

broadcast use vstd::std_specs::hash::group_hash_axioms;

/// What the caller must do next for a command.
#[derive(Debug, Clone, PartialEq, Eq)]
pub enum Action {
    /// Make a native window and its view, then report them to [`Engine::created`].
    CreateWindow { id: u32, options: WindowOptions },
    /// Load `url` into the view of window `id`.
    LoadUrl { id: u32, url: String },
    /// Load `html` into the view of window `id`.
    LoadHtml { id: u32, html: String },
    /// Run the delivery script for `payload` on `channel` in the view of window `id`.
    EmitToView { id: u32, channel: String, payload: String },
    /// Stop the process.
    Exit,
    /// Nothing: the command names no live window, or the engine has exited.
    Ignore,
}

/// The action the engine takes for `cmd`, where `live` maps each live
/// logical id to its native window identity.
pub open spec fn action_for(live: Map<u32, u64>, exited: bool, cmd: Command) -> Action {
    if exited {
        Action::Ignore
    } else {
        match cmd {
            Command::CreateWindow { id, options } => Action::CreateWindow { id, options },
            Command::LoadUrl { id, url } => if live.contains_key(id) {
                Action::LoadUrl { id, url }
            } else {
                Action::Ignore
            },
            Command::LoadHtml { id, html } => if live.contains_key(id) {
                Action::LoadHtml { id, html }
            } else {
                Action::Ignore
            },
            Command::EmitToWebview { id, channel, payload } => if live.contains_key(id) {
                Action::EmitToView { id, channel, payload }
            } else {
                Action::Ignore
            },
            Command::Exit => Action::Exit,
        }
    }
}

/// The events emitted once `action` has been carried out.
pub open spec fn events_for(action: Action) -> Seq<Event> {
    match action {
        Action::CreateWindow { id, .. } => seq![Event::WindowCreated { id }, Event::ResponseOk { id }],
        Action::LoadUrl { id, .. } => seq![Event::ResponseOk { id }],
        Action::LoadHtml { id, .. } => seq![Event::ResponseOk { id }],
        _ => Seq::empty(),
    }
}

/// The forward map (logical id to native identity) and the reverse map
/// (native identity to logical id) name the same windows, each once.
pub open spec fn consistent(live: Map<u32, u64>, reverse: Map<u64, u32>) -> bool {
    &&& forall|id: u32| #[trigger]
        live.contains_key(id) ==> reverse.contains_key(live[id]) && reverse[live[id]] == id
    &&& forall|os: u64| #[trigger]
        reverse.contains_key(os) ==> live.contains_key(reverse[os]) && live[reverse[os]] == os
}

/// The native resources of one live window and the identity the window
/// system gave it.
struct Entry<H> {
    os_id: u64,
    handle: H,
}

/// The registry of live windows, owned by the thread that owns the native
/// windows, and the state machine around it. `H` is the caller's handle to a
/// native window and its view.
pub struct Engine<H> {
    windows: std::collections::HashMap<u32, Entry<H>>,
    by_os: std::collections::HashMap<u64, u32>,
    exited: bool,
}

impl<H> Engine<H> {
    /// Each live logical id, with the native identity of its window.
    pub closed spec fn live(&self) -> Map<u32, u64> {
        self.windows@.map_values(|e: Entry<H>| e.os_id)
    }

    /// The native handle held for each live logical id.
    pub closed spec fn handles(&self) -> Map<u32, H> {
        self.windows@.map_values(|e: Entry<H>| e.handle)
    }

    /// The logical id that each live native identity resolves to.
    pub closed spec fn reverse(&self) -> Map<u64, u32> {
        self.by_os@
    }

    /// `Exit` has been processed: no command is acted on any more.
    pub closed spec fn exited(&self) -> bool {
        self.exited
    }

    pub open spec fn wf(&self) -> bool {
        &&& consistent(self.live(), self.reverse())
        &&& self.handles().dom() == self.live().dom()
    }

    /// An engine with no windows.
    pub fn new() -> (r: Engine<H>)
        ensures
            r.wf(),
            r.live() == Map::<u32, u64>::empty(),
            r.reverse() == Map::<u64, u32>::empty(),
            !r.exited(),
    {
        let r = Engine {
            windows: std::collections::HashMap::new(),
            by_os: std::collections::HashMap::new(),
            exited: false,
        };
        assert(r.live() =~= Map::<u32, u64>::empty());
        assert(r.handles().dom() =~= r.live().dom());
        r
    }

    /// Decides what to do for `cmd`. Commands for windows that are not live
    /// are ignored, as is every command once `Exit` has been processed. The
    /// registry is left as it is.
    pub fn step(&mut self, cmd: Command) -> (r: Action)
        requires
            old(self).wf(),
        ensures
            final(self).wf(),
            r == action_for(old(self).live(), old(self).exited(), cmd),
            final(self).live() == old(self).live(),
            final(self).reverse() == old(self).reverse(),
            final(self).handles() == old(self).handles(),
            final(self).exited() == (old(self).exited() || cmd is Exit),
    {
        if self.exited {
            return Action::Ignore;
        }
        match cmd {
            Command::CreateWindow { id, options } => Action::CreateWindow { id, options },
            Command::LoadUrl { id, url } => {
                if self.windows.contains_key(&id) {
                    Action::LoadUrl { id, url }
                } else {
                    Action::Ignore
                }
            },
            Command::LoadHtml { id, html } => {
                if self.windows.contains_key(&id) {
                    Action::LoadHtml { id, html }
                } else {
                    Action::Ignore
                }
            },
            Command::EmitToWebview { id, channel, payload } => {
                if self.windows.contains_key(&id) {
                    Action::EmitToView { id, channel, payload }
                } else {
                    Action::Ignore
                }
            },
            Command::Exit => {
                self.exited = true;
                Action::Exit
            },
        }
    }

    /// The logical id that the native identity `os_id` resolves to.
    pub fn id_of(&self, os_id: u64) -> (r: Option<u32>)
        ensures
            r == (if self.reverse().contains_key(os_id) {
                Some(self.reverse()[os_id])
            } else {
                None
            }),
    {
        match self.by_os.get(&os_id) {
            Some(id) => Some(*id),
            None => None,
        }
    }

    /// The native handle of live window `id`.
    pub fn handle(&self, id: u32) -> (r: Option<&H>)
        ensures
            match r {
                Some(h) => self.handles().contains_key(id) && *h == self.handles()[id],
                None => !self.handles().contains_key(id),
            },
    {
        match self.windows.get(&id) {
            Some(e) => Some(&e.handle),
            None => None,
        }
    }

    /// Registers the window made for `CreateWindow { id, .. }`, under the
    /// native identity `os_id`, which no live window holds. A window already
    /// live under `id` is replaced: its entry leaves both maps, and its
    /// handle is given back for the caller to release.
    pub fn created(&mut self, id: u32, os_id: u64, handle: H) -> (r: Option<H>)
        requires
            old(self).wf(),
            !old(self).reverse().contains_key(os_id),
        ensures
            final(self).wf(),
            final(self).live() == old(self).live().insert(id, os_id),
            final(self).handles() == old(self).handles().insert(id, handle),
            final(self).reverse() == (if old(self).live().contains_key(id) {
                old(self).reverse().remove(old(self).live()[id])
            } else {
                old(self).reverse()
            }).insert(os_id, id),
            final(self).exited() == old(self).exited(),
            r == (if old(self).live().contains_key(id) {
                Some(old(self).handles()[id])
            } else {
                None
            }),
    {
        let ghost live0 = self.live();
        let ghost rev0 = self.reverse();
        let old_entry = self.windows.insert(id, Entry { os_id, handle });
        let r = match old_entry {
            Some(e) => {
                assert(live0.contains_key(id) && live0[id] == e.os_id);
                self.by_os.remove(&e.os_id);
                Some(e.handle)
            },
            None => None,
        };
        self.by_os.insert(os_id, id);
        let ghost rev1 = if live0.contains_key(id) {
            rev0.remove(live0[id])
        } else {
            rev0
        };
        assert(self.live() =~= live0.insert(id, os_id));
        assert(self.reverse() =~= rev1.insert(os_id, id));
        assert(self.handles() =~= old(self).handles().insert(id, handle));
        assert(self.handles().dom() =~= self.live().dom());
        r
    }

    /// Closes window `id` on the caller's behalf: where it is live, its entry
    /// leaves both maps and its handle is given back. No event is emitted.
    pub fn remove_window(&mut self, id: u32) -> (r: Option<H>)
        requires
            old(self).wf(),
        ensures
            final(self).wf(),
            final(self).exited() == old(self).exited(),
            final(self).live() == old(self).live().remove(id),
            final(self).handles() == old(self).handles().remove(id),
            final(self).reverse() == (if old(self).live().contains_key(id) {
                old(self).reverse().remove(old(self).live()[id])
            } else {
                old(self).reverse()
            }),
            r == (if old(self).live().contains_key(id) {
                Some(old(self).handles()[id])
            } else {
                None
            }),
    {
        let ghost live0 = self.live();
        let ghost handles0 = self.handles();
        match self.windows.remove(&id) {
            Some(e) => {
                self.by_os.remove(&e.os_id);
                let ghost rev0 = old(self).reverse();
                assert(self.live() =~= live0.remove(id));
                assert(self.handles() =~= handles0.remove(id));
                assert(self.handles().dom() =~= self.live().dom());
                assert forall|o: u64| #[trigger]
                    self.reverse().contains_key(o) implies self.live().contains_key(
                    self.reverse()[o],
                ) && self.live()[self.reverse()[o]] == o by {
                    assert(rev0.contains_key(o) && live0[rev0[o]] == o);
                }
                assert forall|x: u32| #[trigger]
                    self.live().contains_key(x) implies self.reverse().contains_key(self.live()[x])
                    && self.reverse()[self.live()[x]] == x by {
                    assert(live0.contains_key(x) && rev0[live0[x]] == x);
                    assert(live0[x] != e.os_id);
                }
                Some(e.handle)
            },
            None => {
                assert(self.live() =~= live0.remove(id));
                assert(self.handles() =~= handles0.remove(id));
                None
            },
        }
    }

    /// Handles the native layer's report that the window with identity
    /// `os_id` was closed: where it is live, its entry leaves both maps, its
    /// handle is given back, and `WindowClosed` is emitted for its logical id.
    /// An identity that no live window holds changes nothing.
    pub fn close_requested(&mut self, os_id: u64) -> (r: (Vec<Event>, Option<H>))
        requires
            old(self).wf(),
        ensures
            final(self).wf(),
            final(self).exited() == old(self).exited(),
            old(self).reverse().contains_key(os_id) ==> {
                let id = old(self).reverse()[os_id];
                &&& final(self).live() == old(self).live().remove(id)
                &&& final(self).handles() == old(self).handles().remove(id)
                &&& final(self).reverse() == old(self).reverse().remove(os_id)
                &&& r.0@ == seq![Event::WindowClosed { id }]
                &&& r.1 == Some(old(self).handles()[id])
            },
            !old(self).reverse().contains_key(os_id) ==> {
                &&& final(self).live() == old(self).live()
                &&& final(self).handles() == old(self).handles()
                &&& final(self).reverse() == old(self).reverse()
                &&& r.0@.len() == 0
                &&& r.1.is_none()
            },
    {
        let mut events: Vec<Event> = Vec::new();
        match self.by_os.remove(&os_id) {
            Some(id) => {
                let ghost live0 = old(self).live();
                let ghost handles0 = old(self).handles();
                let removed = self.windows.remove(&id);
                let handle = match removed {
                    Some(e) => e.handle,
                    None => {
                        assert(false);
                        return (events, None);
                    },
                };
                events.push(Event::WindowClosed { id });
                assert(self.live() =~= live0.remove(id));
                assert(self.handles() =~= handles0.remove(id));
                assert(self.handles().dom() =~= self.live().dom());
                (events, Some(handle))
            },
            None => (events, None),
        }
    }
}

/// The events to emit once `action` has been carried out: `WindowCreated`
/// then `ResponseOk` for a window made, `ResponseOk` for a page loaded, and
/// none otherwise.
pub fn events_after(action: &Action) -> (r: Vec<Event>)
    ensures
        r@ == events_for(*action),
{
    let mut r: Vec<Event> = Vec::new();
    match action {
        Action::CreateWindow { id, .. } => {
            r.push(Event::WindowCreated { id: *id });
            r.push(Event::ResponseOk { id: *id });
        },
        Action::LoadUrl { id, .. } => r.push(Event::ResponseOk { id: *id }),
        Action::LoadHtml { id, .. } => r.push(Event::ResponseOk { id: *id }),
        _ => {},
    }
    assert(r@ =~= events_for(*action));
    r
}

/// A command for a window that is not live (never made, or already closed)
/// leads to no action and to no event; `step` leaves the registry as it is.
pub proof fn lemma_unknown_target_ignored(
    live: Map<u32, u64>,
    exited: bool,
    id: u32,
    text: String,
    channel: String,
)
    requires
        !live.contains_key(id),
    ensures
        action_for(live, exited, Command::LoadUrl { id, url: text }) == Action::Ignore,
        action_for(live, exited, Command::LoadHtml { id, html: text }) == Action::Ignore,
        action_for(live, exited, Command::EmitToWebview { id, channel, payload: text })
            == Action::Ignore,
        events_for(Action::Ignore).len() == 0,
{
}

/// Making a window is reported by exactly `WindowCreated` then `ResponseOk`,
/// for its id.
pub proof fn lemma_create_reported(live: Map<u32, u64>, id: u32, options: WindowOptions)
    ensures
        action_for(live, false, Command::CreateWindow { id, options }) == (Action::CreateWindow {
            id,
            options,
        }),
        events_for(action_for(live, false, Command::CreateWindow { id, options })) == seq![
            Event::WindowCreated { id },
            Event::ResponseOk { id },
        ],
{
}

/// Once `Exit` has been processed no command leads to an action or an event.
pub proof fn lemma_exit_final(live: Map<u32, u64>, cmd: Command)
    ensures
        action_for(live, true, cmd) == Action::Ignore,
        events_for(action_for(live, true, cmd)).len() == 0,
{
}

/// A logical id is bound to at most one native identity in the reverse map,
/// however many times a window was made for it.
pub proof fn lemma_one_identity_per_id<H>(e: &Engine<H>, a: u64, b: u64)
    requires
        e.wf(),
        e.reverse().contains_key(a),
        e.reverse().contains_key(b),
        e.reverse()[a] == e.reverse()[b],
    ensures
        a == b,
{
    assert(e.live()[e.reverse()[a]] == a);
    assert(e.live()[e.reverse()[b]] == b);
}

} // verus!
