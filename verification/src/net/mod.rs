//! The transport: HTTP facts that the sources share, and the probe that shows
//! what the network of a device can do. No music service is known here.

pub mod http;
pub mod probe;
pub mod probe_laws;

use vstd::prelude::*;
use crate::text;

verus! {

/// How far the network layer is, as the screen tells it.
#[derive(Clone, Copy, Debug, PartialEq, Eq, Structural)]
pub enum NetState {
    Absent,
    /// Bytes can be had.
    Transport,
    /// Songs can be resolved too.
    Ready,
}

pub fn state() -> (r: NetState)
    ensures
        r == NetState::Absent,
{
    NetState::Absent
}

/// What the transport's own log says in one message, without trailing white
/// space; an empty message says nothing.
pub fn net_line(message: &[u8]) -> (r: Option<String>)
    ensures
        match r {
            Some(s) => message@.len() > 0 && s@ == text::trim_end(text::lossy_text(message@)),
            None => message@.len() == 0,
        },
{
    if message.len() == 0 {
        return None;
    }
    let line = text::from_utf8_lossy(message);
    Some(text::trim_right(line.as_str()))
}

/// The same line, as the player's log has it.
pub fn net_log_line(line: &str) -> (r: String)
    ensures
        r@ == "[net] "@ + line@,
{
    let mut s = "[net] ".to_owned();
    s.append(line);
    s
}

} // verus!
