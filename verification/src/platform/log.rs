//! The log: off unless the card asks for it.

use vstd::prelude::*;
use crate::text;

verus! {

pub const LOG_FLAG: &'static str = "ux0:data/yunyin/debug";

pub const LOG_PATH: &'static str = "ux0:data/yunyin.log";

/// The port on which the log can be fetched.
pub const LOG_SERVE_PORT: u16 = 1337;

/// Whether the log is on.
pub struct Log {
    on: bool,
}

impl Log {
    pub closed spec fn is_on(&self) -> bool {
        self.on
    }

    pub fn new() -> (r: Self)
        ensures
            !r.is_on(),
    {
        Log { on: false }
    }

    /// Turns the log on where the flag file is there; it is never turned off.
    pub fn init(&mut self, flag_there: bool)
        ensures
            final(self).is_on() == (old(self).is_on() || flag_there),
    {
        if flag_there {
            self.on = true;
        }
    }

    pub fn enabled(&self) -> (r: bool)
        ensures
            r == self.is_on(),
    {
        self.on
    }

    /// The text that is added to the file for a line; nothing while the log is
    /// off.
    pub fn append(&self, s: &str) -> (r: Option<String>)
        ensures
            match r {
                Some(t) => self.is_on() && t@ == s@ + "\n"@,
                None => !self.is_on(),
            },
    {
        if !self.on {
            return None;
        }
        let mut t = s.to_owned();
        t.append("\n");
        Some(t)
    }

    /// The same for a message in bytes, without trailing white space; an empty
    /// message adds nothing.
    pub fn log_line(&self, message: &[u8]) -> (r: Option<String>)
        ensures
            match r {
                Some(t) => self.is_on() && message@.len() > 0 && t@ == text::trim_end(
                    text::lossy_text(message@),
                ) + "\n"@,
                None => !self.is_on() || message@.len() == 0,
            },
    {
        if message.len() == 0 {
            return None;
        }
        let line = text::from_utf8_lossy(message);
        let line = text::trim_right(line.as_str());
        self.append(line.as_str())
    }
}

} // verus!
