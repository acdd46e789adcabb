use webview_bridge::{events_after, Action, Command, Engine, Event, WindowOptions};

fn options(title: &str) -> WindowOptions {
    WindowOptions {
        width: 800,
        height: 600,
        resizable: true,
        maximized: false,
        title: title.to_string(),
        preload: None,
    }
}

/// Carries out `cmd` as a host would, with `os_id` for a window it makes,
/// and returns the events emitted.
fn run(engine: &mut Engine<String>, cmd: Command, os_id: u64) -> Vec<Event> {
    let action = engine.step(cmd);
    if let Action::CreateWindow { id, options } = &action {
        assert_eq!(engine.id_of(os_id), None);
        engine.created(*id, os_id, options.title.clone());
    }
    events_after(&action)
}

#[test]
fn load_url_for_unknown_id_is_ignored() {
    let mut engine: Engine<String> = Engine::new();
    let action = engine.step(Command::LoadUrl { id: 3, url: "https://example.test".to_string() });
    assert_eq!(action, Action::Ignore);
    assert!(events_after(&action).is_empty());
    assert!(engine.handle(3).is_none());
}

#[test]
fn commands_for_closed_window_are_ignored() {
    let mut engine: Engine<String> = Engine::new();
    run(&mut engine, Command::CreateWindow { id: 4, options: options("w") }, 40);
    engine.close_requested(40);
    assert_eq!(engine.step(Command::LoadUrl { id: 4, url: "u".to_string() }), Action::Ignore);
    assert_eq!(engine.step(Command::LoadHtml { id: 4, html: "<p>".to_string() }), Action::Ignore);
    let emit = Command::EmitToWebview { id: 4, channel: "c".to_string(), payload: "p".to_string() };
    assert_eq!(engine.step(emit), Action::Ignore);
    assert!(engine.handle(4).is_none());
}

#[test]
fn create_window_makes_id_live_and_reports_twice() {
    let mut engine: Engine<String> = Engine::new();
    let events = run(&mut engine, Command::CreateWindow { id: 7, options: options("seven") }, 70);
    assert_eq!(events, vec![Event::WindowCreated { id: 7 }, Event::ResponseOk { id: 7 }]);
    assert_eq!(engine.handle(7), Some(&"seven".to_string()));
    assert_eq!(engine.id_of(70), Some(7));
}

#[test]
fn live_window_accepts_loads_and_messages() {
    let mut engine: Engine<String> = Engine::new();
    run(&mut engine, Command::CreateWindow { id: 2, options: options("w") }, 20);
    let a = engine.step(Command::LoadHtml { id: 2, html: "<b>".to_string() });
    assert_eq!(a, Action::LoadHtml { id: 2, html: "<b>".to_string() });
    assert_eq!(events_after(&a), vec![Event::ResponseOk { id: 2 }]);
    let a = engine.step(Command::EmitToWebview {
        id: 2,
        channel: "ch".to_string(),
        payload: "{}".to_string(),
    });
    assert_eq!(
        a,
        Action::EmitToView { id: 2, channel: "ch".to_string(), payload: "{}".to_string() }
    );
    assert!(events_after(&a).is_empty());
}

#[test]
fn native_close_removes_window_and_reports_once() {
    let mut engine: Engine<String> = Engine::new();
    run(&mut engine, Command::CreateWindow { id: 7, options: options("seven") }, 70);
    let (events, handle) = engine.close_requested(70);
    assert_eq!(events, vec![Event::WindowClosed { id: 7 }]);
    assert_eq!(handle, Some("seven".to_string()));
    assert!(engine.handle(7).is_none());
    assert_eq!(engine.id_of(70), None);
    let (again, none) = engine.close_requested(70);
    assert!(again.is_empty());
    assert!(none.is_none());
}

#[test]
fn close_of_unknown_identity_changes_nothing() {
    let mut engine: Engine<String> = Engine::new();
    run(&mut engine, Command::CreateWindow { id: 1, options: options("one") }, 10);
    let (events, handle) = engine.close_requested(99);
    assert!(events.is_empty());
    assert!(handle.is_none());
    assert_eq!(engine.id_of(10), Some(1));
}

#[test]
fn second_create_for_same_id_replaces_first() {
    let mut engine: Engine<String> = Engine::new();
    run(&mut engine, Command::CreateWindow { id: 5, options: options("old") }, 50);
    let action = engine.step(Command::CreateWindow { id: 5, options: options("new") });
    let replaced = engine.created(5, 51, "new".to_string());
    assert_eq!(replaced, Some("old".to_string()));
    assert_eq!(events_after(&action), vec![Event::WindowCreated { id: 5 }, Event::ResponseOk { id: 5 }]);
    assert_eq!(engine.id_of(50), None);
    assert_eq!(engine.id_of(51), Some(5));
    assert_eq!(engine.handle(5), Some(&"new".to_string()));
    let (events, _) = engine.close_requested(50);
    assert!(events.is_empty());
    let (events, _) = engine.close_requested(51);
    assert_eq!(events, vec![Event::WindowClosed { id: 5 }]);
}

#[test]
fn create_load_exit_scenario() {
    let mut engine: Engine<String> = Engine::new();
    let mut out = vec![Event::Init];
    let cmds = vec![
        Command::CreateWindow {
            id: 1,
            options: WindowOptions {
                width: 800,
                height: 600,
                resizable: true,
                maximized: false,
                title: "T".to_string(),
                preload: None,
            },
        },
        Command::LoadUrl { id: 1, url: "https://example.test".to_string() },
        Command::Exit,
        Command::LoadUrl { id: 1, url: "https://after.test".to_string() },
        Command::CreateWindow { id: 2, options: options("late") },
    ];
    for cmd in cmds {
        out.extend(run(&mut engine, cmd, 1000));
    }
    assert_eq!(
        out,
        vec![
            Event::Init,
            Event::WindowCreated { id: 1 },
            Event::ResponseOk { id: 1 },
            Event::ResponseOk { id: 1 },
        ]
    );
    assert!(engine.handle(2).is_none());
}

#[test]
fn exit_yields_exit_action() {
    let mut engine: Engine<String> = Engine::new();
    assert_eq!(engine.step(Command::Exit), Action::Exit);
    assert_eq!(engine.step(Command::Exit), Action::Ignore);
}

#[test]
fn boundary_ids_are_ordinary() {
    let mut engine: Engine<String> = Engine::new();
    run(&mut engine, Command::CreateWindow { id: 0, options: options("zero") }, 0);
    run(&mut engine, Command::CreateWindow { id: u32::MAX, options: options("max") }, u64::MAX);
    assert_eq!(engine.id_of(0), Some(0));
    assert_eq!(engine.id_of(u64::MAX), Some(u32::MAX));
    let a = engine.step(Command::LoadUrl { id: u32::MAX, url: String::new() });
    assert_eq!(events_after(&a), vec![Event::ResponseOk { id: u32::MAX }]);
}

#[test]
fn remove_window_clears_both_maps_silently() {
    let mut engine: Engine<String> = Engine::new();
    run(&mut engine, Command::CreateWindow { id: 8, options: options("eight") }, 80);
    assert_eq!(engine.remove_window(8), Some("eight".to_string()));
    assert_eq!(engine.id_of(80), None);
    assert!(engine.handle(8).is_none());
    assert_eq!(engine.remove_window(8), None);
    let (events, _) = engine.close_requested(80);
    assert!(events.is_empty());
}
