//! Protocol and lifecycle engine of a window/browser-view host process.
//!
//! Commands arrive as length-prefixed frames on an input stream, are decoded
//! and handed to a single-threaded lifecycle engine, which tracks windows and
//! their views and produces events that are framed back onto an output stream.
mod content;
mod engine;
mod frame;
mod protocol;

pub use content::{ContentReply, content_reply, drive_path, extension, mime_type};
pub use engine::{Action, Engine, events_after};
pub use frame::{FrameDecoder, FrameError, decode_frame, encode_frame};
pub use protocol::{Command, Event, WindowOptions, emit_script, emit_script_quoted, init_script};
