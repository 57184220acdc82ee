//! The lock of the PS button while music plays.

use vstd::prelude::*;
use crate::text;

verus! {

/// Whether the button is locked.
pub struct PsLock {
    locked: bool,
}

impl PsLock {
    pub closed spec fn is_locked(&self) -> bool {
        self.locked
    }

    pub fn new() -> (r: Self)
        ensures
            !r.is_locked(),
    {
        PsLock { locked: false }
    }

    /// Locks or unlocks; the answer says whether the system has to be told. The
    /// same state twice is nothing new.
    pub fn set_locked(&mut self, on: bool) -> (r: bool)
        ensures
            r == (old(self).is_locked() != on),
            final(self).is_locked() == on,
    {
        let changed = self.locked != on;
        self.locked = on;
        changed
    }
}

/// What the log says of the system's answer.
pub fn lock_line(on: bool, ret: u32) -> (r: String)
    ensures
        r@ == "ps btn lock: "@ + (if on {
            "1"@
        } else {
            "0"@
        }) + " -> 0x"@ + text::hex_text(ret as nat, 8, true),
{
    let mut s = "ps btn lock: ".to_owned();
    if on {
        s.append("1");
    } else {
        s.append("0");
    }
    s.append(" -> 0x");
    s.append(text::hex_fixed(ret as u64, 8, true).as_str());
    s
}

} // verus!
