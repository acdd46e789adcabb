//! The command and event vocabulary of the wire protocol, and the scripts
//! that the engine hands to a view.
use vstd::prelude::*;

verus! {

/// How a window is to be made.
#[derive(Debug, Clone, PartialEq, Eq)]
pub struct WindowOptions {
    pub width: u32,
    pub height: u32,
    pub resizable: bool,
    pub maximized: bool,
    pub title: String,
    /// Path of a script that the view runs before any page script.
    pub preload: Option<String>,
}

/// An instruction from the parent process; the wire tag is the variant's name.
#[derive(Debug, Clone, PartialEq, Eq)]
pub enum Command {
    CreateWindow { id: u32, options: WindowOptions },
    LoadUrl { id: u32, url: String },
    LoadHtml { id: u32, html: String },
    EmitToWebview { id: u32, channel: String, payload: String },
    Exit,
}

/// A notification to the parent process; the wire tag is the variant's name.
#[derive(Debug, Clone, PartialEq, Eq)]
pub enum Event {
    Init,
    WindowCreated { id: u32 },
    WindowClosed { id: u32 },
    ResponseOk { id: u32 },
    IPCMessage { id: u32, body: String },
}

/// What `{:?}` writes for a string: the string quoted, with quotes,
/// backslashes and control characters escaped.
pub uninterp spec fn debug_quoted_of(s: Seq<char>) -> Seq<char>;

/// Relies on std's `Debug` for `str` (through `format!("{:?}")`): the quoted,
/// escaped form of `s`, which depends on its characters alone.
#[verifier::external_body]
fn debug_quoted(s: &str) -> (r: String)
    ensures
        r@ == debug_quoted_of(s@),
{
    format!("{:?}", s)
}

/// The script that delivers a message on a channel to the view's receiving
/// function, built from the already quoted channel and payload.
pub open spec fn emit_script_of(quoted_channel: Seq<char>, quoted_payload: Seq<char>) -> Seq<
    char,
> {
    "window.__denoEmit({ channel: "@ + quoted_channel + ", payload: "@ + quoted_payload
        + " });"@
}

/// The script that delivers a message to the view, given the quoted forms
/// of its channel and payload.
pub fn emit_script_quoted(quoted_channel: &str, quoted_payload: &str) -> (r: String)
    ensures
        r@ == emit_script_of(quoted_channel@, quoted_payload@),
{
    let mut r = String::from_str("window.__denoEmit({ channel: ");
    r.append(quoted_channel);
    r.append(", payload: ");
    r.append(quoted_payload);
    r.append(" });");
    r
}

/// The script that delivers `payload` on `channel` to the view's receiving
/// function; both travel as quoted, escaped string literals.
pub fn emit_script(channel: &str, payload: &str) -> (r: String)
    ensures
        r@ == emit_script_of(debug_quoted_of(channel@), debug_quoted_of(payload@)),
{
    let c = debug_quoted(channel);
    let p = debug_quoted(payload);
    emit_script_quoted(c.as_str(), p.as_str())
}

/// The script a view runs first: the built-in part, a line break, then the
/// user's preload script.
pub fn init_script(builtin: &str, user: &str) -> (r: String)
    ensures
        r@ == builtin@ + "\n"@ + user@,
{
    let mut r = String::from_str(builtin);
    r.append("\n");
    r.append(user);
    r
}

} // verus!
