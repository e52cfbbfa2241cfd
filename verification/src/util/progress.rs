//! Helpers for progress display: shortened file names and the shared
//! byte counter.

use std::sync::atomic::AtomicU64;
use std::sync::Arc;
use vstd::prelude::*;

use crate::util::text::{chars_of, push_str_chars, string_of};

verus! {

/// Bytes a character takes in UTF-8.
pub open spec fn utf8_len(c: char) -> nat {
    if (c as u32) < 0x80 {
        1
    } else if (c as u32) < 0x800 {
        2
    } else if (c as u32) < 0x10000 {
        3
    } else {
        4
    }
}

/// Bytes a text takes in UTF-8, as `str::len` counts them.
pub open spec fn utf8_size(s: Seq<char>) -> nat
    decreases s.len(),
{
    if s.len() == 0 {
        0
    } else {
        utf8_size(s.drop_last()) + utf8_len(s.last())
    }
}

/// `s` has a character boundary `k` bytes in.
pub open spec fn is_boundary(s: Seq<char>, k: nat) -> bool {
    exists|j: int| 0 <= j <= s.len() && utf8_size(#[trigger] s.take(j)) == k
}

/// `name` shortened to `max_len` bytes: the name itself when it fits, else
/// its first `max_len - 3` bytes and `...`.
pub open spec fn truncated(name: Seq<char>, max_len: nat, keep: int) -> Seq<char> {
    if utf8_size(name) <= max_len {
        name
    } else {
        name.take(keep) + "..."@
    }
}

fn char_utf8_len(c: char) -> (r: usize)
    ensures
        r == utf8_len(c),
{
    if (c as u32) < 0x80 {
        1
    } else if (c as u32) < 0x800 {
        2
    } else if (c as u32) < 0x10000 {
        3
    } else {
        4
    }
}

/// Shortens a file name for display to at most `max_len` bytes, ending it
/// with `...` when it is cut.
pub fn truncate_filename(name: &str, max_len: usize) -> (r: String)
    requires
        utf8_size(name@) > max_len ==> max_len >= 3 && is_boundary(name@, (max_len - 3) as nat),
    ensures
        exists|keep: int|
            0 <= keep <= name@.len() && (utf8_size(name@) > max_len ==> utf8_size(#[trigger] name@.take(keep))
                == max_len - 3) && r@ == truncated(name@, max_len as nat, keep),
{
    let cs = chars_of(name);
    let mut size: u128 = 0;
    let mut i: usize = 0;
    let mut cut: usize = 0;
    let mut cut_found = false;
    while i < cs.len()
        invariant
            i <= cs@.len(),
            cs@ == name@,
            size as nat == utf8_size(cs@.take(i as int)),
            size <= 4 * i,
            cut_found ==> cut <= i && 3 <= max_len && utf8_size(cs@.take(cut as int)) == max_len - 3,
            !cut_found ==> forall|j: int|
                0 <= j < i ==> (3 > max_len || #[trigger] utf8_size(cs@.take(j)) != max_len - 3),
        decreases cs@.len() - i,
    {
        if !cut_found && max_len >= 3 && size == (max_len - 3) as u128 {
            cut = i;
            cut_found = true;
        }
        let w = char_utf8_len(cs[i]);
        assert(cs@.take(i + 1).drop_last() =~= cs@.take(i as int));
        size = size + w as u128;
        i = i + 1;
    }
    assert(cs@.take(i as int) =~= cs@);
    if !cut_found && max_len >= 3 && size == (max_len - 3) as u128 {
        cut = i;
        cut_found = true;
    }
    if size <= max_len as u128 {
        return string_of(cs.as_slice());
    }
    assert(cut_found) by {
        if !cut_found {
            let j = choose|j: int|
                0 <= j <= name@.len() && utf8_size(#[trigger] name@.take(j)) == (max_len - 3) as nat;
            assert(utf8_size(cs@.take(j)) != max_len - 3);
        }
    }
    let mut v = crate::util::text::slice_chars(cs.as_slice(), 0, cut);
    push_str_chars(&mut v, "...");
    assert(v@ =~= truncated(name@, max_len as nat, cut as int));
    string_of(v.as_slice())
}

/// A shared counter of downloaded bytes, starting from zero.
pub fn create_byte_counter() -> (r: Arc<AtomicU64>) {
    Arc::new(AtomicU64::new(0))
}

} // verus!
