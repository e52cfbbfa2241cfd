//! Checks on the file a download produced.

use vstd::prelude::*;

use crate::util::text::{decimal_seq, push_decimal, push_str_chars, string_of};

verus! {

/// The finished file does not have the size the server announced.
#[derive(Debug, Clone, Copy, PartialEq, Eq, Structural)]
pub struct SizeMismatch {
    pub expected: u64,
    pub actual: u64,
    /// Whether the file was put together from several segment files.
    pub merged: bool,
}

/// The message a size mismatch is reported with.
pub open spec fn mismatch_text(e: SizeMismatch) -> Seq<char> {
    (if e.merged {
        "size mismatch after merge: expected "@
    } else {
        "size mismatch: expected "@
    }) + decimal_seq(e.expected as nat) + " bytes, got "@ + decimal_seq(e.actual as nat)
}

impl SizeMismatch {
    pub fn message(&self) -> (r: String)
        ensures
            r@ == mismatch_text(*self),
    {
        let mut v: Vec<char> = Vec::new();
        if self.merged {
            push_str_chars(&mut v, "size mismatch after merge: expected ");
        } else {
            push_str_chars(&mut v, "size mismatch: expected ");
        }
        push_decimal(&mut v, self.expected);
        push_str_chars(&mut v, " bytes, got ");
        push_decimal(&mut v, self.actual);
        string_of(v.as_slice())
    }
}

/// Checks the size of a finished file (`actual` bytes, put together from
/// segment files when `merged`) against the size announced, if any.
pub fn check_size(expected: Option<u64>, actual: u64, merged: bool) -> (r: Result<(), SizeMismatch>)
    ensures
        match expected {
            Some(e) => if e == actual {
                r is Ok
            } else {
                r == Err::<(), SizeMismatch>(SizeMismatch { expected: e, actual, merged })
            },
            None => r is Ok,
        },
{
    match expected {
        Some(e) => {
            if e != actual {
                return Err(SizeMismatch { expected: e, actual, merged });
            }
            Ok(())
        },
        None => Ok(()),
    }
}

} // verus!
