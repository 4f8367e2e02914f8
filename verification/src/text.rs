//! Text handling: fixed-width field decoding and substring search.
//!
//! A name, label or unit field in the shared-memory image is a fixed-width
//! byte array, NUL-padded at the end, holding UTF-8 text.  Decoding strips
//! the padding and converts the remaining bytes; bytes that are not valid
//! UTF-8 are a decode error, never a crash.

use vstd::prelude::*;
use vstd::utf8::decode_utf8;
use vstd::utf8::valid_utf8;

use crate::bytes::read_trimmed_field;
use crate::bytes::trim_trailing_nuls;
use crate::error::HwinfoError;

verus! {

/// The text a fixed-width field holds: the field's bytes with trailing NUL
/// padding stripped, decoded as UTF-8; `None` when they are not valid UTF-8.
pub open spec fn decoded_field(b: Seq<u8>, off: int, len: int) -> Option<Seq<char>> {
    let t = trim_trailing_nuls(b.subrange(off, off + len));
    if valid_utf8(t) {
        Some(decode_utf8(t))
    } else {
        None
    }
}

/// Relies on `String::from_utf8`: it succeeds exactly when the bytes are
/// valid UTF-8, and then returns the character sequence they encode.
#[verifier::external_body]
fn string_from_utf8(v: Vec<u8>) -> (r: Option<String>)
    ensures
        r is Some <==> valid_utf8(v@),
        r matches Some(s) ==> s@ == decode_utf8(v@),
{
    String::from_utf8(v).ok()
}

/// Decodes the fixed-width text field of `len` bytes at `off`.
pub fn read_text_field(b: &[u8], off: usize, len: usize) -> (r: Result<String, HwinfoError>)
    requires
        off + len <= b@.len(),
    ensures
        r matches Ok(s) ==> decoded_field(b@, off as int, len as int) == Some(s@),
        r is Err <==> decoded_field(b@, off as int, len as int) is None,
        r matches Err(e) ==> e == HwinfoError::DecodeError,
{
    let t = read_trimmed_field(b, off, len);
    match string_from_utf8(t) {
        Some(s) => Ok(s),
        None => Err(HwinfoError::DecodeError),
    }
}

/// `p` occurs in `t` starting at position `i`.
pub open spec fn is_match_at(t: Seq<char>, p: Seq<char>, i: int) -> bool {
    0 <= i && i + p.len() <= t.len() && t.subrange(i, i + p.len()) == p
}

/// `p` occurs somewhere in `t` as a contiguous run of characters.
pub open spec fn contains_seq(t: Seq<char>, p: Seq<char>) -> bool {
    exists|i: int| is_match_at(t, p, i)
}

/// The characters of `s`, in order, as a vector.
pub fn chars_of(s: &str) -> (v: Vec<char>)
    ensures
        v@ == s@,
{
    let n = s.unicode_len();
    let mut v: Vec<char> = Vec::new();
    let mut i: usize = 0;
    while i < n
        invariant
            0 <= i <= n,
            n == s@.len(),
            v@ == s@.subrange(0, i as int),
        decreases n - i,
    {
        v.push(s.get_char(i));
        assert(v@ =~= s@.subrange(0, i + 1));
        i = i + 1;
    }
    assert(v@ =~= s@);
    v
}

/// Whether `p` occurs in `t` starting exactly at `i`.
fn match_at(t: &Vec<char>, p: &Vec<char>, i: usize) -> (r: bool)
    requires
        i + p@.len() <= t@.len(),
    ensures
        r == is_match_at(t@, p@, i as int),
{
    let pl = p.len();
    let tl = t.len();
    let mut j: usize = 0;
    while j < pl
        invariant
            pl == p@.len(),
            tl == t@.len(),
            i + pl <= tl,
            0 <= j <= pl,
            forall|k: int| 0 <= k < j ==> t@[i + k] == p@[k],
        decreases pl - j,
    {
        if t[i + j] != p[j] {
            assert(t@.subrange(i as int, i + p@.len()) == p@ ==> t@.subrange(
                i as int,
                i + p@.len(),
            )[j as int] == p@[j as int]);
            return false;
        }
        j = j + 1;
    }
    assert(t@.subrange(i as int, i + p@.len()) =~= p@);
    true
}

/// Whether the characters `p` occur contiguously anywhere in `t`.
pub fn contains_chars(t: &Vec<char>, p: &Vec<char>) -> (r: bool)
    ensures
        r == contains_seq(t@, p@),
{
    if p.len() > t.len() {
        assert(forall|k: int| !is_match_at(t@, p@, k));
        return false;
    }
    let pl = p.len();
    let tl = t.len();
    let bound = tl - pl;
    let mut i: usize = 0;
    while i <= bound
        invariant
            pl == p@.len(),
            tl == t@.len(),
            pl <= tl,
            bound == tl - pl,
            0 <= i <= bound + 1,
            forall|k: int| 0 <= k < i ==> !is_match_at(t@, p@, k),
        decreases bound + 1 - i,
    {
        if match_at(t, p, i) {
            return true;
        }
        assert(p@.len() > 0) by {
            if p@.len() == 0 {
                assert(t@.subrange(i as int, i as int) =~= p@);
            }
        }
        i = i + 1;
    }
    assert(forall|k: int| is_match_at(t@, p@, k) ==> 0 <= k <= bound);
    false
}

} // verus!
