//! What is kept on the card, listed from it, and told in the log.

use vstd::prelude::*;
use crate::platform::fs;
use crate::platform::log;
use crate::platform::log::Log;
use crate::platform::ps_lock;
use crate::platform::ps_lock::PsLock;
use crate::platform::store;
use crate::text;

verus! {

/// A key of letters, digits, dashes and underscores names its own file.
pub proof fn law_plain_key_names_its_file(key: Seq<char>)
    requires
        forall|i: int|
            0 <= i < key.len() ==> {
                let c = #[trigger] key[i];
                48 <= c <= 57 || 65 <= c <= 90 || 97 <= c <= 122 || c == 45 || c == 95
            },
    ensures
        store::safe_key(key) == key,
        store::file_of(key) == "ux0:/data/yunyin/store/"@ + key,
    decreases key.len(),
{
    reveal(Seq::filter);
    if key.len() > 0 {
        assert(key[key.len() - 1] == key.last());
        law_plain_key_names_its_file(key.drop_last());
        assert(key.drop_last().push(key.last()) =~= key);
    } else {
        assert(store::safe_key(key) =~= key);
    }
}

/// Any other character is left out of a key, and changes nothing else of it.
pub proof fn law_other_characters_are_left_out(front: Seq<char>, c: char)
    ensures
        ({
            let kept = 48 <= c <= 57 || 65 <= c <= 90 || 97 <= c <= 122 || c == 45 || c == 95;
            store::safe_key(front.push(c)) == (if kept {
                store::safe_key(front).push(c)
            } else {
                store::safe_key(front)
            })
        }),
{
    reveal(Seq::filter);
    assert(front.push(c).drop_last() =~= front);
}

/// What is written for a value is the value in UTF-8, and it reads back.
pub proof fn law_value_reads_back(val: &str, bytes: Vec<u8>, data: Option<&[u8]>, r: String)
    requires
        call_ensures(store::set_bytes, (val,), bytes),
        call_ensures(store::get, (data,), r),
    ensures
        bytes@ == vstd::utf8::encode_utf8(val@),
        data matches Some(d) && d@ == bytes@ ==> r@ == val@,
        data is None ==> r@.len() == 0,
{
    reveal_strlit("");
    store::law_written_is_read(val@);
}

/// A listing is the text that the lister wrote, as much as it says; none is an
/// empty list.
pub proof fn law_listing_is_what_was_written(path: Seq<char>, written: Seq<u8>, spare: Seq<u8>)
    requires
        forall|i: int| 0 <= i < path.len() ==> #[trigger] path[i] != '\0',
    ensures
        written.len() > 0 ==> fs::listing(path, written + spare, written.len() as int)
            == text::lossy_text(written),
        fs::listing(path, written + spare, 0) == "[]"@,
        fs::listing(path, written + spare, -1) == "[]"@,
        fs::listing(path + seq!['\0'], written, written.len() as int) == "[]"@,
{
    let zero = seq!['\0'];
    if text::has_zero(path) {
        let at = choose|at: int| #[trigger] text::occurs_at(path, zero, at);
        assert(path.subrange(at, at + 1)[0] == path[at]);
    }
    assert((written + spare).take(written.len() as int) =~= written);
    let bad = path + zero;
    let n = path.len() as int;
    assert(bad.subrange(n, n + 1) =~= zero);
    assert(text::occurs_at(bad, zero, n));
}

/// The log is off at first; the flag turns it on for good. While it is off nothing
/// is written; while it is on every line is, with its end.
pub proof fn law_log_is_asked_for(l: &mut Log, there: bool, fresh: Log, s: &str, r: Option<String>)
    requires
        call_ensures(Log::new, (), fresh),
        call_ensures(Log::init, (l, there), ()),
        call_ensures(Log::append, (&*l, s), r),
    ensures
        !fresh.is_on(),
        there ==> final(l).is_on(),
        !there ==> final(l).is_on() == old(l).is_on(),
        r is Some <==> old(l).is_on(),
        r matches Some(t) ==> t@ == s@.push('\n'),
{
    reveal_strlit("\n");
    assert(s@ + "\n"@ =~= s@.push('\n'));
}

/// A message is written without the white space at its end; an empty one is not.
pub proof fn law_messages_are_written_as_lines(l: &Log, message: &[u8], r: Option<String>)
    requires
        call_ensures(Log::log_line, (l, message), r),
    ensures
        r is Some <==> l.is_on() && message@.len() > 0,
        r matches Some(t) ==> t@ == text::trim_end(text::lossy_text(message@)).push('\n'),
{
    reveal_strlit("\n");
    assert(text::trim_end(text::lossy_text(message@)) + "\n"@ =~= text::trim_end(
        text::lossy_text(message@),
    ).push('\n'));
}

/// The system is told of the button's lock when it changes, and only then.
pub proof fn law_lock_is_told_once(l: &mut PsLock, on: bool, told: bool, fresh: PsLock)
    requires
        call_ensures(PsLock::new, (), fresh),
        call_ensures(PsLock::set_locked, (l, on), told),
    ensures
        !fresh.is_locked(),
        final(l).is_locked() == on,
        told <==> old(l).is_locked() != on,
{
}

/// The log shows what the system answered, in eight digits.
pub proof fn law_lock_line(on: bool, ret: u32, r: String)
    requires
        call_ensures(ps_lock::lock_line, (on, ret), r),
    ensures
        on ==> r@ == "ps btn lock: "@ + "1"@ + " -> 0x"@ + text::hex_text(ret as nat, 8, true),
        !on ==> r@ == "ps btn lock: "@ + "0"@ + " -> 0x"@ + text::hex_text(ret as nat, 8, true),
{
}

/// Where the log and its flag lie, and the port on which it is served.
pub proof fn law_log_places()
    ensures
        log::LOG_FLAG@ == "ux0:data/yunyin/debug"@,
        log::LOG_PATH@ == "ux0:data/yunyin.log"@,
        log::LOG_SERVE_PORT == 1337,
        fs::LIST_BYTES == 256 * 1024,
        store::STORE_DIR@ == "ux0:/data/yunyin/store"@,
{
}

} // verus!
