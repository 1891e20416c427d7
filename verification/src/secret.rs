use vstd::prelude::*;

use zeroize::Zeroizing;

verus! {

/// A byte buffer held with scrub-on-drop discipline: the bytes are
/// zeroed when the value is dropped, on every exit path.  The buffer
/// lives inside zeroize's `Zeroizing`, whose declaration Verus refuses
/// (its generic carries an outside trait bound), so the whole struct is
/// opaque and its contents are reached through `guarded_bytes`.
#[verifier::external_body]
#[derive(PartialEq, Eq, Debug)]
pub struct GuardedBytes {
    inner: Zeroizing<Vec<u8>>,
}

/// The bytes a scrub-on-drop buffer holds.
pub uninterp spec fn guarded_bytes(z: GuardedBytes) -> Seq<u8>;

/// A string held with scrub-on-drop discipline, as [`GuardedBytes`] is.
#[verifier::external_body]
#[derive(PartialEq, Eq, Debug)]
pub struct GuardedText {
    inner: Zeroizing<String>,
}

/// The text a scrub-on-drop string holds.
pub uninterp spec fn guarded_text(z: GuardedText) -> Seq<char>;

/// Relies on zeroize's Zeroizing::new: wraps the buffer so that it is
/// zeroed when dropped; the contents are unchanged.
#[verifier::external_body]
pub fn guard_bytes(v: Vec<u8>) -> (z: GuardedBytes)
    ensures
        guarded_bytes(z) == v@,
{
    GuardedBytes { inner: Zeroizing::new(v) }
}

/// Relies on zeroize's Zeroizing (Deref): a view of the guarded bytes.
#[verifier::external_body]
pub fn bytes_of(z: &GuardedBytes) -> (r: &[u8])
    ensures
        r@ == guarded_bytes(*z),
{
    z.inner.as_slice()
}

/// Relies on zeroize's Zeroizing::new: wraps the text so that it is
/// zeroed when dropped; the contents are unchanged.
#[verifier::external_body]
pub fn guard_text(s: String) -> (z: GuardedText)
    ensures
        guarded_text(z) == s@,
{
    GuardedText { inner: Zeroizing::new(s) }
}

/// Relies on zeroize's Zeroizing (Deref): a view of the guarded text.
#[verifier::external_body]
pub fn text_of(z: &GuardedText) -> (r: &str)
    ensures
        r@ == guarded_text(*z),
{
    z.inner.as_str()
}

} // verus!
