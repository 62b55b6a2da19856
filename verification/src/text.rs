//! Text in byte strings.

use vstd::prelude::*;

verus! {

/// Calls [`core::str::from_utf8`]. The claim: it succeeds exactly on valid UTF-8,
/// and then returns the same bytes as a string.
#[verifier::external_body]
pub(crate) fn utf8(bytes: &[u8]) -> (text: Option<&str>)
    ensures
        text is Some <==> vstd::utf8::valid_utf8(bytes@),
        text matches Some(s) ==> vstd::utf8::encode_utf8(s@) == bytes@,
{
    core::str::from_utf8(bytes).ok()
}

/// Compares two byte strings.
pub fn same_bytes(a: &[u8], b: &[u8]) -> (same: bool)
    ensures
        same == (a@ == b@),
{
    if a.len() != b.len() {
        return false;
    }
    let mut i: usize = 0;
    while i < a.len()
        invariant
            i <= a.len(),
            a.len() == b.len(),
            a@.len() == a.len(),
            b@.len() == b.len(),
            forall|k: int| 0 <= k < i ==> a@[k] == b@[k],
        decreases a.len() - i,
    {
        if a[i] != b[i] {
            return false;
        }
        i += 1;
    }
    assert(a@ =~= b@);
    true
}

/// Whether `b` starts with `a`.
pub open spec fn starts_with(b: Seq<u8>, a: Seq<u8>) -> bool {
    a.len() <= b.len() && b.take(a.len() as int) == a
}

/// Whether `b` ends with `a`.
pub open spec fn ends_with(b: Seq<u8>, a: Seq<u8>) -> bool {
    a.len() <= b.len() && b.skip(b.len() - a.len()) == a
}

/// Whether `a` occurs in `b`.
pub open spec fn occurs_in(a: Seq<u8>, b: Seq<u8>) -> bool {
    exists|i: int| 0 <= i && i + a.len() <= b.len() && #[trigger] b.subrange(i, i + a.len()) == a
}

pub fn has_prefix(b: &[u8], a: &[u8]) -> (yes: bool)
    ensures
        yes == starts_with(b@, a@),
{
    if a.len() > b.len() {
        return false;
    }
    assert(b@.subrange(0, a@.len() as int) =~= b@.take(a@.len() as int));
    same_bytes(vstd::slice::slice_subrange(b, 0, a.len()), a)
}

pub fn has_suffix(b: &[u8], a: &[u8]) -> (yes: bool)
    ensures
        yes == ends_with(b@, a@),
{
    if a.len() > b.len() {
        return false;
    }
    assert(b@.subrange(b@.len() - a@.len(), b@.len() as int) =~= b@.skip(b@.len() - a@.len()));
    same_bytes(vstd::slice::slice_subrange(b, b.len() - a.len(), b.len()), a)
}

pub fn has_infix(b: &[u8], a: &[u8]) -> (yes: bool)
    ensures
        yes == occurs_in(a@, b@),
{
    if a.len() > b.len() {
        return false;
    }
    let mut i: usize = 0;
    while i < b.len() - a.len()
        invariant
            a.len() <= b.len(),
            a@.len() == a.len(),
            b@.len() == b.len(),
            i <= b.len() - a.len(),
            forall|k: int| 0 <= k < i ==> #[trigger] b@.subrange(k, k + a@.len()) != a@,
        decreases b.len() - a.len() - i,
    {
        if same_bytes(vstd::slice::slice_subrange(b, i, i + a.len()), a) {
            return true;
        }
        i += 1;
    }
    let yes: bool = same_bytes(vstd::slice::slice_subrange(b, i, b.len()), a);
    assert(yes == (b@.subrange(i as int, i + a@.len()) == a@));
    yes
}

/// The bytes before the first NUL, or all of them.
pub open spec fn until_nul(bytes: Seq<u8>) -> Seq<u8>
    decreases bytes.len(),
{
    if bytes.len() == 0 || bytes[0] == 0 {
        Seq::empty()
    } else {
        seq![bytes[0]] + until_nul(bytes.skip(1))
    }
}

pub proof fn lemma_until_nul(bytes: Seq<u8>, n: int)
    requires
        0 <= n <= bytes.len(),
        forall|k: int| 0 <= k < n ==> bytes[k] != 0,
        n < bytes.len() ==> bytes[n] == 0,
    ensures
        until_nul(bytes) == bytes.take(n),
    decreases n,
{
    if n == 0 {
        assert(bytes.take(0) =~= Seq::<u8>::empty());
    } else {
        let rest = bytes.skip(1);
        assert forall|k: int| 0 <= k < n - 1 implies rest[k] != 0 by {
            assert(rest[k] == bytes[k + 1]);
        }
        lemma_until_nul(rest, n - 1);
        assert(bytes.take(n) =~= seq![bytes[0]] + rest.take(n - 1));
    }
}

/// Cuts a byte string off at its first NUL.
pub fn cut_at_nul<'a>(bytes: &'a [u8]) -> (cut: &'a [u8])
    ensures
        cut@ == until_nul(bytes@),
{
    let mut n: usize = 0;
    while n < bytes.len() && bytes[n] != 0
        invariant
            n <= bytes.len(),
            bytes@.len() == bytes.len(),
            forall|k: int| 0 <= k < n ==> bytes@[k] != 0,
        decreases bytes.len() - n,
    {
        n += 1;
    }
    proof {
        lemma_until_nul(bytes@, n as int);
        assert(bytes@.subrange(0, n as int) =~= bytes@.take(n as int));
    }
    vstd::slice::slice_subrange(bytes, 0, n)
}

} // verus!
