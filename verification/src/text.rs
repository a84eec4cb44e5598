//! Plain byte-string text: the alphabet that identifiers, tokens and opaque
//! payloads are drawn from, and small executable helpers over it.

use vstd::prelude::*;

verus! {

/// A byte string is plain text when it holds no control bytes.  The
/// identifier shapes require it; other fields may hold any bytes, since
/// the snapshot encoding escapes what cannot stand for itself.
pub open spec fn valid_text(s: Seq<u8>) -> bool {
    forall|i: int| 0 <= i < s.len() ==> s[i] >= 32
}

/// Does `b` occur in `s` at some position in `[from, to)`?
pub open spec fn has_byte_between(s: Seq<u8>, from: int, to: int, b: u8) -> bool {
    exists|i: int| from <= i < to && i < s.len() && s[i] == b
}

/// Executable check for `valid_text`.
pub fn is_valid_text(s: &Vec<u8>) -> (r: bool)
    ensures
        r == valid_text(s@),
{
    let n = s.len();
    let mut i: usize = 0;
    while i < n
        invariant
            n == s@.len(),
            0 <= i <= n,
            forall|j: int| 0 <= j < i ==> s@[j] >= 32,
        decreases n - i,
    {
        if s[i] < 32 {
            return false;
        }
        i += 1;
    }
    true
}

/// Executable search for a byte in an index range.
pub fn find_byte_between(s: &Vec<u8>, from: usize, to: usize, b: u8) -> (r: bool)
    requires
        to <= s@.len(),
    ensures
        r == has_byte_between(s@, from as int, to as int, b),
{
    let mut i: usize = from;
    while i < to
        invariant
            to <= s@.len(),
            from <= i,
            forall|j: int| from <= j < i ==> s@[j] != b,
        decreases to - i,
    {
        if s[i] == b {
            assert(has_byte_between(s@, from as int, to as int, b));
            return true;
        }
        i += 1;
    }
    false
}

/// Byte-for-byte copy of a byte string; the library's own clone so that the
/// result is known to equal the source.
pub fn copy_bytes(s: &Vec<u8>) -> (r: Vec<u8>)
    ensures
        r@ == s@,
{
    let n = s.len();
    let mut out: Vec<u8> = Vec::new();
    let mut i: usize = 0;
    while i < n
        invariant
            n == s@.len(),
            0 <= i <= n,
            out@ == s@.take(i as int),
        decreases n - i,
    {
        out.push(s[i]);
        assert(out@ =~= s@.take(i + 1 as int));
        i += 1;
    }
    assert(out@ =~= s@);
    out
}

/// Byte-for-byte equality of two byte strings.
pub fn bytes_eq(a: &Vec<u8>, b: &Vec<u8>) -> (r: bool)
    ensures
        r == (a@ == b@),
{
    if a.len() != b.len() {
        assert(a@ != b@);
        return false;
    }
    let n = a.len();
    let mut i: usize = 0;
    while i < n
        invariant
            n == a@.len(),
            a@.len() == b@.len(),
            0 <= i <= n,
            forall|j: int| 0 <= j < i ==> a@[j] == b@[j],
        decreases n - i,
    {
        if a[i] != b[i] {
            assert(a@ != b@);
            return false;
        }
        i += 1;
    }
    assert(a@ =~= b@);
    true
}

/// Appends all of `src` to `out`.
pub fn push_all(out: &mut Vec<u8>, src: &Vec<u8>)
    ensures
        final(out)@ == old(out)@ + src@,
{
    let n = src.len();
    let mut i: usize = 0;
    while i < n
        invariant
            n == src@.len(),
            0 <= i <= n,
            out@ == old(out)@ + src@.take(i as int),
        decreases n - i,
    {
        out.push(src[i]);
        assert(out@ =~= old(out)@ + src@.take(i + 1 as int));
        i += 1;
    }
    assert(out@ =~= old(out)@ + src@);
}

} // verus!
