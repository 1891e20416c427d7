use vstd::prelude::*;

use aead::{Aead, KeyInit};
use aes_gcm::{Aes128Gcm, Aes256Gcm};
use chacha20poly1305::{
    ChaCha12Poly1305, ChaCha20Poly1305, ChaCha8Poly1305, XChaCha12Poly1305, XChaCha20Poly1305,
    XChaCha8Poly1305,
};

use crate::cli::Cipher;
use crate::error::Error;
use crate::io::{ByteSink, ByteSource, Input, Output};
use vstd::slice::{slice_subrange, slice_to_vec};

verus! {

/// The fixed plaintext chunk size of the stream.
pub const BUFFER_LEN_ENC: usize = 500;

/// The ciphertext chunk size: a full plaintext chunk plus the 16-byte tag.
pub const BUFFER_LEN_DEC: usize = BUFFER_LEN_ENC + 16;

/// `s` brought to exactly `n` bytes: truncated or zero-padded.  The sealed
/// chunks below always have their stated length, so the padding never
/// shows; it only makes the length of a sealed chunk a matter of
/// definition rather than of trust.
pub open spec fn spec_fit(s: Seq<u8>, n: nat) -> Seq<u8> {
    Seq::new(n, |i: int| if i < s.len() { s[i] } else { 0u8 })
}

/// What XChaCha20-Poly1305 sealing returns for a key, nonce and plaintext.
pub uninterp spec fn xchacha20_sealed(key: Seq<u8>, nonce: Seq<u8>, pt: Seq<u8>) -> Seq<u8>;

/// What XChaCha12-Poly1305 sealing returns for a key, nonce and plaintext.
pub uninterp spec fn xchacha12_sealed(key: Seq<u8>, nonce: Seq<u8>, pt: Seq<u8>) -> Seq<u8>;

/// What XChaCha8-Poly1305 sealing returns for a key, nonce and plaintext.
pub uninterp spec fn xchacha8_sealed(key: Seq<u8>, nonce: Seq<u8>, pt: Seq<u8>) -> Seq<u8>;

/// What ChaCha20-Poly1305 sealing returns for a key, nonce and plaintext.
pub uninterp spec fn chacha20_sealed(key: Seq<u8>, nonce: Seq<u8>, pt: Seq<u8>) -> Seq<u8>;

/// What ChaCha12-Poly1305 sealing returns for a key, nonce and plaintext.
pub uninterp spec fn chacha12_sealed(key: Seq<u8>, nonce: Seq<u8>, pt: Seq<u8>) -> Seq<u8>;

/// What ChaCha8-Poly1305 sealing returns for a key, nonce and plaintext.
pub uninterp spec fn chacha8_sealed(key: Seq<u8>, nonce: Seq<u8>, pt: Seq<u8>) -> Seq<u8>;

/// What AES-256-GCM sealing returns for a key, nonce and plaintext.
pub uninterp spec fn aes256_sealed(key: Seq<u8>, nonce: Seq<u8>, pt: Seq<u8>) -> Seq<u8>;

/// What AES-128-GCM sealing returns for a key, nonce and plaintext.
pub uninterp spec fn aes128_sealed(key: Seq<u8>, nonce: Seq<u8>, pt: Seq<u8>) -> Seq<u8>;

/// One sealed chunk: the `pt.len() + 16` bytes (ciphertext and tag) that
/// the suite's one-shot authenticated encryption yields.
pub open spec fn spec_seal(c: Cipher, key: Seq<u8>, nonce: Seq<u8>, pt: Seq<u8>) -> Seq<u8> {
    spec_fit(
        match c {
            Cipher::XChacha20Poly1305 => xchacha20_sealed(key, nonce, pt),
            Cipher::XChacha12Poly1305 => xchacha12_sealed(key, nonce, pt),
            Cipher::XChacha8Poly1305 => xchacha8_sealed(key, nonce, pt),
            Cipher::Chacha20Poly1305 => chacha20_sealed(key, nonce, pt),
            Cipher::Chacha12Poly1305 => chacha12_sealed(key, nonce, pt),
            Cipher::Chacha8Poly1305 => chacha8_sealed(key, nonce, pt),
            Cipher::Aes256Gcm => aes256_sealed(key, nonce, pt),
            Cipher::Aes128Gcm => aes128_sealed(key, nonce, pt),
        },
        pt.len() + 16,
    )
}

/// Relies on chacha20poly1305's XChaCha20Poly1305 (KeyInit, Aead::encrypt):
/// sealing a chunk of at most `BUFFER_LEN_ENC` bytes always succeeds and is
/// a pure function of key, nonce and plaintext, of plaintext length plus 16.
#[verifier::external_body]
fn xchacha20_encrypt(key: &[u8], nonce: &[u8], pt: &[u8]) -> (r: Vec<u8>)
    requires
        key@.len() == 32,
        nonce@.len() == 24,
        pt@.len() <= 500,
    ensures
        r@ == spec_fit(xchacha20_sealed(key@, nonce@, pt@), pt@.len() + 16),
{
    let aead = XChaCha20Poly1305::new_from_slice(key).expect("key length is 32");
    let nonce: &chacha20poly1305::XNonce = nonce.try_into().expect("nonce length is 24");
    aead.encrypt(nonce, pt).expect("a chunk is far below the cipher limit")
}

/// Relies on chacha20poly1305's XChaCha12Poly1305; see `xchacha20_encrypt`.
#[verifier::external_body]
fn xchacha12_encrypt(key: &[u8], nonce: &[u8], pt: &[u8]) -> (r: Vec<u8>)
    requires
        key@.len() == 32,
        nonce@.len() == 24,
        pt@.len() <= 500,
    ensures
        r@ == spec_fit(xchacha12_sealed(key@, nonce@, pt@), pt@.len() + 16),
{
    let aead = XChaCha12Poly1305::new_from_slice(key).expect("key length is 32");
    let nonce: &chacha20poly1305::XNonce = nonce.try_into().expect("nonce length is 24");
    aead.encrypt(nonce, pt).expect("a chunk is far below the cipher limit")
}

/// Relies on chacha20poly1305's XChaCha8Poly1305; see `xchacha20_encrypt`.
#[verifier::external_body]
fn xchacha8_encrypt(key: &[u8], nonce: &[u8], pt: &[u8]) -> (r: Vec<u8>)
    requires
        key@.len() == 32,
        nonce@.len() == 24,
        pt@.len() <= 500,
    ensures
        r@ == spec_fit(xchacha8_sealed(key@, nonce@, pt@), pt@.len() + 16),
{
    let aead = XChaCha8Poly1305::new_from_slice(key).expect("key length is 32");
    let nonce: &chacha20poly1305::XNonce = nonce.try_into().expect("nonce length is 24");
    aead.encrypt(nonce, pt).expect("a chunk is far below the cipher limit")
}

/// Relies on chacha20poly1305's ChaCha20Poly1305; see `xchacha20_encrypt`.
#[verifier::external_body]
fn chacha20_encrypt(key: &[u8], nonce: &[u8], pt: &[u8]) -> (r: Vec<u8>)
    requires
        key@.len() == 32,
        nonce@.len() == 12,
        pt@.len() <= 500,
    ensures
        r@ == spec_fit(chacha20_sealed(key@, nonce@, pt@), pt@.len() + 16),
{
    let aead = ChaCha20Poly1305::new_from_slice(key).expect("key length is 32");
    let nonce: &chacha20poly1305::Nonce = nonce.try_into().expect("nonce length is 12");
    aead.encrypt(nonce, pt).expect("a chunk is far below the cipher limit")
}

/// Relies on chacha20poly1305's ChaCha12Poly1305; see `xchacha20_encrypt`.
#[verifier::external_body]
fn chacha12_encrypt(key: &[u8], nonce: &[u8], pt: &[u8]) -> (r: Vec<u8>)
    requires
        key@.len() == 32,
        nonce@.len() == 12,
        pt@.len() <= 500,
    ensures
        r@ == spec_fit(chacha12_sealed(key@, nonce@, pt@), pt@.len() + 16),
{
    let aead = ChaCha12Poly1305::new_from_slice(key).expect("key length is 32");
    let nonce: &chacha20poly1305::Nonce = nonce.try_into().expect("nonce length is 12");
    aead.encrypt(nonce, pt).expect("a chunk is far below the cipher limit")
}

/// Relies on chacha20poly1305's ChaCha8Poly1305; see `xchacha20_encrypt`.
#[verifier::external_body]
fn chacha8_encrypt(key: &[u8], nonce: &[u8], pt: &[u8]) -> (r: Vec<u8>)
    requires
        key@.len() == 32,
        nonce@.len() == 12,
        pt@.len() <= 500,
    ensures
        r@ == spec_fit(chacha8_sealed(key@, nonce@, pt@), pt@.len() + 16),
{
    let aead = ChaCha8Poly1305::new_from_slice(key).expect("key length is 32");
    let nonce: &chacha20poly1305::Nonce = nonce.try_into().expect("nonce length is 12");
    aead.encrypt(nonce, pt).expect("a chunk is far below the cipher limit")
}

/// Relies on aes-gcm's Aes256Gcm; see `xchacha20_encrypt`.
#[verifier::external_body]
fn aes256_encrypt(key: &[u8], nonce: &[u8], pt: &[u8]) -> (r: Vec<u8>)
    requires
        key@.len() == 32,
        nonce@.len() == 12,
        pt@.len() <= 500,
    ensures
        r@ == spec_fit(aes256_sealed(key@, nonce@, pt@), pt@.len() + 16),
{
    let aead = Aes256Gcm::new_from_slice(key).expect("key length is 32");
    let nonce: &chacha20poly1305::Nonce = nonce.try_into().expect("nonce length is 12");
    aead.encrypt(nonce, pt).expect("a chunk is far below the cipher limit")
}

/// Relies on aes-gcm's Aes128Gcm; see `xchacha20_encrypt`.
#[verifier::external_body]
fn aes128_encrypt(key: &[u8], nonce: &[u8], pt: &[u8]) -> (r: Vec<u8>)
    requires
        key@.len() == 16,
        nonce@.len() == 12,
        pt@.len() <= 500,
    ensures
        r@ == spec_fit(aes128_sealed(key@, nonce@, pt@), pt@.len() + 16),
{
    let aead = Aes128Gcm::new_from_slice(key).expect("key length is 16");
    let nonce: &chacha20poly1305::Nonce = nonce.try_into().expect("nonce length is 12");
    aead.encrypt(nonce, pt).expect("a chunk is far below the cipher limit")
}

/// Relies on chacha20poly1305's XChaCha20Poly1305 (Aead::decrypt): opening
/// succeeds exactly on the chunks this key and nonce seal, yields the
/// plaintext that was sealed, and rejects every other byte string.
#[verifier::external_body]
fn xchacha20_decrypt(key: &[u8], nonce: &[u8], ct: &[u8]) -> (r: Result<Vec<u8>, Error>)
    requires
        key@.len() == 32,
        nonce@.len() == 24,
        ct@.len() <= 516,
    ensures
        r is Ok ==> r->Ok_0@.len() + 16 == ct@.len() && ct@ == spec_fit(
            xchacha20_sealed(key@, nonce@, r->Ok_0@),
            r->Ok_0@.len() + 16,
        ),
        forall|pt: Seq<u8>|
            pt.len() <= 500 && ct@ == spec_fit(
                #[trigger] xchacha20_sealed(key@, nonce@, pt),
                pt.len() + 16,
            ) ==> r is Ok && r->Ok_0@ == pt,
        r is Err ==> r->Err_0 == Error::Aead,
{
    let aead = XChaCha20Poly1305::new_from_slice(key).expect("key length is 32");
    let nonce: &chacha20poly1305::XNonce = nonce.try_into().expect("nonce length is 24");
    aead.decrypt(nonce, ct).map_err(|_| Error::Aead)
}

/// Relies on chacha20poly1305's XChaCha12Poly1305; see `xchacha20_decrypt`.
#[verifier::external_body]
fn xchacha12_decrypt(key: &[u8], nonce: &[u8], ct: &[u8]) -> (r: Result<Vec<u8>, Error>)
    requires
        key@.len() == 32,
        nonce@.len() == 24,
        ct@.len() <= 516,
    ensures
        r is Ok ==> r->Ok_0@.len() + 16 == ct@.len() && ct@ == spec_fit(
            xchacha12_sealed(key@, nonce@, r->Ok_0@),
            r->Ok_0@.len() + 16,
        ),
        forall|pt: Seq<u8>|
            pt.len() <= 500 && ct@ == spec_fit(
                #[trigger] xchacha12_sealed(key@, nonce@, pt),
                pt.len() + 16,
            ) ==> r is Ok && r->Ok_0@ == pt,
        r is Err ==> r->Err_0 == Error::Aead,
{
    let aead = XChaCha12Poly1305::new_from_slice(key).expect("key length is 32");
    let nonce: &chacha20poly1305::XNonce = nonce.try_into().expect("nonce length is 24");
    aead.decrypt(nonce, ct).map_err(|_| Error::Aead)
}

/// Relies on chacha20poly1305's XChaCha8Poly1305; see `xchacha20_decrypt`.
#[verifier::external_body]
fn xchacha8_decrypt(key: &[u8], nonce: &[u8], ct: &[u8]) -> (r: Result<Vec<u8>, Error>)
    requires
        key@.len() == 32,
        nonce@.len() == 24,
        ct@.len() <= 516,
    ensures
        r is Ok ==> r->Ok_0@.len() + 16 == ct@.len() && ct@ == spec_fit(
            xchacha8_sealed(key@, nonce@, r->Ok_0@),
            r->Ok_0@.len() + 16,
        ),
        forall|pt: Seq<u8>|
            pt.len() <= 500 && ct@ == spec_fit(
                #[trigger] xchacha8_sealed(key@, nonce@, pt),
                pt.len() + 16,
            ) ==> r is Ok && r->Ok_0@ == pt,
        r is Err ==> r->Err_0 == Error::Aead,
{
    let aead = XChaCha8Poly1305::new_from_slice(key).expect("key length is 32");
    let nonce: &chacha20poly1305::XNonce = nonce.try_into().expect("nonce length is 24");
    aead.decrypt(nonce, ct).map_err(|_| Error::Aead)
}

/// Relies on chacha20poly1305's ChaCha20Poly1305; see `xchacha20_decrypt`.
#[verifier::external_body]
fn chacha20_decrypt(key: &[u8], nonce: &[u8], ct: &[u8]) -> (r: Result<Vec<u8>, Error>)
    requires
        key@.len() == 32,
        nonce@.len() == 12,
        ct@.len() <= 516,
    ensures
        r is Ok ==> r->Ok_0@.len() + 16 == ct@.len() && ct@ == spec_fit(
            chacha20_sealed(key@, nonce@, r->Ok_0@),
            r->Ok_0@.len() + 16,
        ),
        forall|pt: Seq<u8>|
            pt.len() <= 500 && ct@ == spec_fit(
                #[trigger] chacha20_sealed(key@, nonce@, pt),
                pt.len() + 16,
            ) ==> r is Ok && r->Ok_0@ == pt,
        r is Err ==> r->Err_0 == Error::Aead,
{
    let aead = ChaCha20Poly1305::new_from_slice(key).expect("key length is 32");
    let nonce: &chacha20poly1305::Nonce = nonce.try_into().expect("nonce length is 12");
    aead.decrypt(nonce, ct).map_err(|_| Error::Aead)
}

/// Relies on chacha20poly1305's ChaCha12Poly1305; see `xchacha20_decrypt`.
#[verifier::external_body]
fn chacha12_decrypt(key: &[u8], nonce: &[u8], ct: &[u8]) -> (r: Result<Vec<u8>, Error>)
    requires
        key@.len() == 32,
        nonce@.len() == 12,
        ct@.len() <= 516,
    ensures
        r is Ok ==> r->Ok_0@.len() + 16 == ct@.len() && ct@ == spec_fit(
            chacha12_sealed(key@, nonce@, r->Ok_0@),
            r->Ok_0@.len() + 16,
        ),
        forall|pt: Seq<u8>|
            pt.len() <= 500 && ct@ == spec_fit(
                #[trigger] chacha12_sealed(key@, nonce@, pt),
                pt.len() + 16,
            ) ==> r is Ok && r->Ok_0@ == pt,
        r is Err ==> r->Err_0 == Error::Aead,
{
    let aead = ChaCha12Poly1305::new_from_slice(key).expect("key length is 32");
    let nonce: &chacha20poly1305::Nonce = nonce.try_into().expect("nonce length is 12");
    aead.decrypt(nonce, ct).map_err(|_| Error::Aead)
}

/// Relies on chacha20poly1305's ChaCha8Poly1305; see `xchacha20_decrypt`.
#[verifier::external_body]
fn chacha8_decrypt(key: &[u8], nonce: &[u8], ct: &[u8]) -> (r: Result<Vec<u8>, Error>)
    requires
        key@.len() == 32,
        nonce@.len() == 12,
        ct@.len() <= 516,
    ensures
        r is Ok ==> r->Ok_0@.len() + 16 == ct@.len() && ct@ == spec_fit(
            chacha8_sealed(key@, nonce@, r->Ok_0@),
            r->Ok_0@.len() + 16,
        ),
        forall|pt: Seq<u8>|
            pt.len() <= 500 && ct@ == spec_fit(
                #[trigger] chacha8_sealed(key@, nonce@, pt),
                pt.len() + 16,
            ) ==> r is Ok && r->Ok_0@ == pt,
        r is Err ==> r->Err_0 == Error::Aead,
{
    let aead = ChaCha8Poly1305::new_from_slice(key).expect("key length is 32");
    let nonce: &chacha20poly1305::Nonce = nonce.try_into().expect("nonce length is 12");
    aead.decrypt(nonce, ct).map_err(|_| Error::Aead)
}

/// Relies on aes-gcm's Aes256Gcm; see `xchacha20_decrypt`.
#[verifier::external_body]
fn aes256_decrypt(key: &[u8], nonce: &[u8], ct: &[u8]) -> (r: Result<Vec<u8>, Error>)
    requires
        key@.len() == 32,
        nonce@.len() == 12,
        ct@.len() <= 516,
    ensures
        r is Ok ==> r->Ok_0@.len() + 16 == ct@.len() && ct@ == spec_fit(
            aes256_sealed(key@, nonce@, r->Ok_0@),
            r->Ok_0@.len() + 16,
        ),
        forall|pt: Seq<u8>|
            pt.len() <= 500 && ct@ == spec_fit(
                #[trigger] aes256_sealed(key@, nonce@, pt),
                pt.len() + 16,
            ) ==> r is Ok && r->Ok_0@ == pt,
        r is Err ==> r->Err_0 == Error::Aead,
{
    let aead = Aes256Gcm::new_from_slice(key).expect("key length is 32");
    let nonce: &chacha20poly1305::Nonce = nonce.try_into().expect("nonce length is 12");
    aead.decrypt(nonce, ct).map_err(|_| Error::Aead)
}

/// Relies on aes-gcm's Aes128Gcm; see `xchacha20_decrypt`.
#[verifier::external_body]
fn aes128_decrypt(key: &[u8], nonce: &[u8], ct: &[u8]) -> (r: Result<Vec<u8>, Error>)
    requires
        key@.len() == 16,
        nonce@.len() == 12,
        ct@.len() <= 516,
    ensures
        r is Ok ==> r->Ok_0@.len() + 16 == ct@.len() && ct@ == spec_fit(
            aes128_sealed(key@, nonce@, r->Ok_0@),
            r->Ok_0@.len() + 16,
        ),
        forall|pt: Seq<u8>|
            pt.len() <= 500 && ct@ == spec_fit(
                #[trigger] aes128_sealed(key@, nonce@, pt),
                pt.len() + 16,
            ) ==> r is Ok && r->Ok_0@ == pt,
        r is Err ==> r->Err_0 == Error::Aead,
{
    let aead = Aes128Gcm::new_from_slice(key).expect("key length is 16");
    let nonce: &chacha20poly1305::Nonce = nonce.try_into().expect("nonce length is 12");
    aead.decrypt(nonce, ct).map_err(|_| Error::Aead)
}

/// The full per-chunk nonce: the usable base nonce, the chunk counter in
/// four big-endian bytes, and the final-chunk flag byte.
pub open spec fn spec_chunk_nonce(base: Seq<u8>, counter: u32, last: bool) -> Seq<u8> {
    base + crate::bytes::spec_u32_to_be_bytes(counter) + seq![
        if last {
            1u8
        } else {
            0u8
        },
    ]
}

fn make_chunk_nonce(base: &[u8], counter: u32, last: bool) -> (r: Vec<u8>)
    ensures
        r@ == spec_chunk_nonce(base@, counter, last),
        r@.len() == base@.len() + 5,
{
    let mut r = slice_to_vec(base);
    let ctr = crate::bytes::u32_to_be_bytes(counter);
    r.extend_from_slice(ctr.as_slice());
    r.push(if last {
        1u8
    } else {
        0u8
    });
    proof {
        assert(r@ =~= spec_chunk_nonce(base@, counter, last));
    }
    r
}

/// One chunk of the stream, sealed under its position-bound nonce.
pub open spec fn spec_seal_chunk(
    c: Cipher,
    key: Seq<u8>,
    base: Seq<u8>,
    counter: u32,
    last: bool,
    pt: Seq<u8>,
) -> Seq<u8> {
    spec_seal(c, key, spec_chunk_nonce(base, counter, last), pt)
}

/// Seal one chunk with the chosen suite.
fn encrypt_chunk(c: Cipher, key: &[u8], base: &[u8], counter: u32, last: bool, pt: &[u8]) -> (r:
    Vec<u8>)
    requires
        key@.len() == c.spec_key_len(),
        base@.len() + 5 == c.spec_nonce_len(),
        pt@.len() <= 500,
    ensures
        r@ == spec_seal_chunk(c, key@, base@, counter, last, pt@),
        r@.len() == pt@.len() + 16,
{
    let nonce = make_chunk_nonce(base, counter, last);
    let n = nonce.as_slice();
    match c {
        Cipher::XChacha20Poly1305 => xchacha20_encrypt(key, n, pt),
        Cipher::XChacha12Poly1305 => xchacha12_encrypt(key, n, pt),
        Cipher::XChacha8Poly1305 => xchacha8_encrypt(key, n, pt),
        Cipher::Chacha20Poly1305 => chacha20_encrypt(key, n, pt),
        Cipher::Chacha12Poly1305 => chacha12_encrypt(key, n, pt),
        Cipher::Chacha8Poly1305 => chacha8_encrypt(key, n, pt),
        Cipher::Aes256Gcm => aes256_encrypt(key, n, pt),
        Cipher::Aes128Gcm => aes128_encrypt(key, n, pt),
    }
}

/// Open one chunk of the stream: succeeds exactly on what
/// `spec_seal_chunk` yields for this key, position and finality.
fn decrypt_chunk(c: Cipher, key: &[u8], base: &[u8], counter: u32, last: bool, ct: &[u8]) -> (r:
    Result<Vec<u8>, Error>)
    requires
        key@.len() == c.spec_key_len(),
        base@.len() + 5 == c.spec_nonce_len(),
        ct@.len() <= 516,
    ensures
        r is Ok ==> r->Ok_0@.len() + 16 == ct@.len() && ct@ == spec_seal_chunk(
            c,
            key@,
            base@,
            counter,
            last,
            r->Ok_0@,
        ),
        forall|pt: Seq<u8>|
            pt.len() <= 500 && ct@ == #[trigger] spec_seal_chunk(c, key@, base@, counter, last, pt)
                ==> r is Ok && r->Ok_0@ == pt,
        r is Err ==> r->Err_0 == Error::Aead,
{
    let nonce = make_chunk_nonce(base, counter, last);
    let n = nonce.as_slice();
    match c {
        Cipher::XChacha20Poly1305 => xchacha20_decrypt(key, n, ct),
        Cipher::XChacha12Poly1305 => xchacha12_decrypt(key, n, ct),
        Cipher::XChacha8Poly1305 => xchacha8_decrypt(key, n, ct),
        Cipher::Chacha20Poly1305 => chacha20_decrypt(key, n, ct),
        Cipher::Chacha12Poly1305 => chacha12_decrypt(key, n, ct),
        Cipher::Chacha8Poly1305 => chacha8_decrypt(key, n, ct),
        Cipher::Aes256Gcm => aes256_decrypt(key, n, ct),
        Cipher::Aes128Gcm => aes128_decrypt(key, n, ct),
    }
}

/// Every sealed chunk is its plaintext plus the 16-byte tag.
pub broadcast proof fn lemma_seal_chunk_len(
    c: Cipher,
    key: Seq<u8>,
    base: Seq<u8>,
    counter: u32,
    last: bool,
    pt: Seq<u8>,
)
    ensures
        (#[trigger] spec_seal_chunk(c, key, base, counter, last, pt)).len() == pt.len() + 16,
{
}

/// Whether a plaintext of this length, chunked from the given starting
/// counter, stays within the four-byte chunk counter of the nonce layout.
pub open spec fn spec_counter_fits(pt_len: nat, counter: u32) -> bool {
    pt_len / 500 + counter <= 0xFFFFFFFF
}

/// The ciphertext chunk stream of `pt`, counters starting at `counter`:
/// each full 500-byte chunk sealed as non-final with the running counter,
/// then the remainder (possibly empty) sealed as the final chunk.
pub open spec fn spec_encrypt_stream_from(
    c: Cipher,
    key: Seq<u8>,
    base: Seq<u8>,
    counter: u32,
    pt: Seq<u8>,
) -> Seq<u8>
    decreases pt.len(),
{
    if pt.len() < 500 {
        spec_seal_chunk(c, key, base, counter, true, pt)
    } else {
        spec_seal_chunk(c, key, base, counter, false, pt.take(500))
            + spec_encrypt_stream_from(c, key, base, (counter + 1) as u32, pt.skip(500))
    }
}

/// The whole stream the engine emits for a plaintext.
pub open spec fn spec_encrypt_stream(c: Cipher, key: Seq<u8>, base: Seq<u8>, pt: Seq<u8>) -> Seq<
    u8,
> {
    spec_encrypt_stream_from(c, key, base, 0, pt)
}

/// A run of full non-final chunks with no final chunk behind them.  A
/// well-formed stream never looks like this (the final chunk is always
/// present), but a stream truncated at an exact chunk boundary does; the
/// decryption loop rejects such an input, and this shape describes what
/// it had verified, and emitted, by then.
pub open spec fn spec_full_chunks_from(
    c: Cipher,
    key: Seq<u8>,
    base: Seq<u8>,
    counter: u32,
    pt: Seq<u8>,
) -> Seq<u8>
    decreases pt.len(),
{
    if pt.len() < 500 {
        Seq::empty()
    } else {
        spec_seal_chunk(c, key, base, counter, false, pt.take(500))
            + spec_full_chunks_from(c, key, base, (counter + 1) as u32, pt.skip(500))
    }
}

/// The stream of a plaintext is its chunk count times the 516-byte full
/// chunk, plus the remainder and the tag of the final chunk.
pub proof fn lemma_stream_len(c: Cipher, key: Seq<u8>, base: Seq<u8>, counter: u32, pt: Seq<u8>)
    ensures
        spec_encrypt_stream_from(c, key, base, counter, pt).len() == (pt.len() / 500) * 516 + pt.len()
            % 500 + 16,
    decreases pt.len(),
{
    broadcast use lemma_seal_chunk_len;

    if pt.len() < 500 {
    } else {
        lemma_stream_len(c, key, base, (counter + 1) as u32, pt.skip(500));
        assert(pt.len() / 500 == 1 + (pt.len() - 500) / 500 && pt.len() % 500 == (pt.len() - 500)
            % 500) by (nonlinear_arith)
            requires
                pt.len() >= 500,
        ;
        assert((pt.len() / 500) * 516 == 516 + ((pt.len() - 500) / 500) * 516) by (nonlinear_arith)
            requires
                pt.len() / 500 == 1 + (pt.len() - 500) / 500,
        ;
    }
}

/// A headless run of full chunks is its chunk count times 516 bytes.
pub proof fn lemma_full_chunks_len(
    c: Cipher,
    key: Seq<u8>,
    base: Seq<u8>,
    counter: u32,
    pt: Seq<u8>,
)
    ensures
        spec_full_chunks_from(c, key, base, counter, pt).len() == (pt.len() / 500) * 516,
    decreases pt.len(),
{
    broadcast use lemma_seal_chunk_len;

    if pt.len() < 500 {
        assert(pt.len() / 500 == 0);
    } else {
        lemma_full_chunks_len(c, key, base, (counter + 1) as u32, pt.skip(500));
        assert(pt.len() / 500 == 1 + (pt.len() - 500) / 500) by (nonlinear_arith)
            requires
                pt.len() >= 500,
        ;
        assert((pt.len() / 500) * 516 == 516 + ((pt.len() - 500) / 500) * 516) by (nonlinear_arith)
            requires
                pt.len() / 500 == 1 + (pt.len() - 500) / 500,
        ;
    }
}

/// Seal the whole stream: the first chunk already read into `buf` (its
/// leading `nread` bytes) and everything still in `src`, chunk by chunk,
/// delivered to `dst`.  Fails only when a sink or source call fails, or
/// when the stream needs more chunks than the four-byte counter can
/// number (reported as the cipher failure it is in the nonce layout).
fn transfer_encryption<R: ByteSource, W: ByteSink>(
    cipher: Cipher,
    key: &[u8],
    nonce: &[u8],
    src: &mut Input<R>,
    dst: &mut Output<W>,
    buf: Vec<u8>,
    nread: usize,
) -> (r: Result<(), Error>)
    requires
        key@.len() == cipher.spec_key_len(),
        nonce@.len() + 5 == cipher.spec_nonce_len(),
        buf@.len() == 500,
        nread <= 500,
        nread < 500 ==> old(src).remaining().len() == 0,
    ensures
        ({
            let pt_all = buf@.take(nread as int) + old(src).remaining();
            let full = spec_encrypt_stream_from(cipher, key@, nonce@, 0, pt_all);
            &&& r is Ok ==> final(dst).written() == old(dst).written() + full
                && final(src).remaining().len() == 0
            &&& r is Ok ==> spec_counter_fits(pt_all.len(), 0)
            &&& r is Err ==> r->Err_0 is Io || r->Err_0 == Error::Aead
            &&& (r matches Err(e) && e == Error::Aead) ==> !spec_counter_fits(pt_all.len(), 0)
            &&& r is Err ==> exists|k: int|
                0 <= k <= full.len() && final(dst).written() == old(dst).written() + full.take(k)
        }),
{
    broadcast use lemma_seal_chunk_len;

    let ghost pt_all = buf@.take(nread as int) + old(src).remaining();
    let ghost full = spec_encrypt_stream_from(cipher, key@, nonce@, 0, pt_all);
    let ghost dst0 = old(dst).written();
    let mut data = buf;
    let mut read_count = nread;
    let mut counter: u32 = 0;
    let ghost mut processed: Seq<u8> = Seq::empty();
    let ghost mut written_ct: Seq<u8> = Seq::empty();
    proof {
        assert(pt_all =~= processed + (data@.take(read_count as int) + src.remaining()));
    }
    loop
        invariant
            key@.len() == cipher.spec_key_len(),
            nonce@.len() + 5 == cipher.spec_nonce_len(),
            data@.len() == 500,
            read_count <= 500,
            read_count < 500 ==> src.remaining().len() == 0,
            processed.len() == 500 * (counter as int),
            pt_all == processed + (data@.take(read_count as int) + src.remaining()),
            pt_all == buf@.take(nread as int) + old(src).remaining(),
            full == spec_encrypt_stream_from(cipher, key@, nonce@, 0, pt_all),
            dst0 == old(dst).written(),
            dst.written() == dst0 + written_ct,
            full == written_ct + spec_encrypt_stream_from(
                cipher,
                key@,
                nonce@,
                counter,
                data@.take(read_count as int) + src.remaining(),
            ),
        decreases read_count + src.remaining().len(),
    {
        let ghost rest = data@.take(read_count as int) + src.remaining();
        if read_count == BUFFER_LEN_ENC {
            if counter == 0xFFFFFFFFu32 {
                proof {
                    assert(pt_all.len() >= 500 * 0x100000000);
                    assert(pt_all.len() / 500 >= 0x100000000) by (nonlinear_arith)
                        requires
                            pt_all.len() >= 500 * 0x100000000,
                    ;
                    assert(full.take(written_ct.len() as int) =~= written_ct);
                }
                return Err(Error::make_aead());
            }
            let ct = encrypt_chunk(cipher, key, nonce, counter, false, data.as_slice());
            proof {
                assert(rest.take(500) =~= data@);
                assert(rest.skip(500) =~= src.remaining());
                assert(full =~= (written_ct + ct@) + spec_encrypt_stream_from(
                    cipher,
                    key@,
                    nonce@,
                    (counter + 1) as u32,
                    src.remaining(),
                ));
            }
            match dst.write(ct.as_slice()) {
                Ok(()) => {},
                Err(e) => {
                    proof {
                        let k2 = choose|k2: int|
                            0 <= k2 <= ct@.len() && dst.written() == dst0 + written_ct + ct@.take(
                                k2,
                            );
                        assert(full.take(written_ct.len() + k2) =~= written_ct + ct@.take(k2));
                    }
                    return Err(e);
                },
            }
            proof {
                processed = processed + data@;
                written_ct = written_ct + ct@;
                assert(dst.written() =~= dst0 + written_ct);
            }
            counter = counter + 1;
            let ghost rem = src.remaining();
            match src.read(&mut data) {
                Ok(n) => {
                    proof {
                        assert(data@.take(n as int) =~= rem.take(n as int));
                        assert(data@.take(n as int) + src.remaining() =~= rem);
                        assert(pt_all =~= processed + rem);
                    }
                    read_count = n;
                },
                Err(e) => {
                    proof {
                        assert(full.take(written_ct.len() as int) =~= written_ct);
                    }
                    return Err(e);
                },
            }
        } else {
            let last_pt = slice_subrange(data.as_slice(), 0, read_count);
            let ct = encrypt_chunk(cipher, key, nonce, counter, true, last_pt);
            proof {
                assert(rest =~= data@.take(read_count as int));
                assert(full =~= written_ct + ct@);
                assert(pt_all.len() / 500 == counter as int) by (nonlinear_arith)
                    requires
                        pt_all.len() == 500 * (counter as int) + rest.len(),
                        rest.len() < 500,
                ;
            }
            match dst.write(ct.as_slice()) {
                Ok(()) => {
                    return Ok(());
                },
                Err(e) => {
                    proof {
                        let k2 = choose|k2: int|
                            0 <= k2 <= ct@.len() && dst.written() == dst0 + written_ct + ct@.take(
                                k2,
                            );
                        assert(full.take(written_ct.len() + k2) =~= written_ct + ct@.take(k2));
                    }
                    return Err(e);
                },
            }
        }
    }
}

/// A chunk stream always ends 16 to 515 bytes past the last full-chunk
/// boundary: the final chunk is at least a bare tag and at most one byte
/// short of a full chunk.  An input whose length falls outside these
/// residues (and is not an exact multiple of the full chunk size) can
/// therefore never be accepted by decryption.
pub proof fn lemma_stream_len_mod(c: Cipher, key: Seq<u8>, base: Seq<u8>, counter: u32, pt: Seq<u8>)
    ensures
        16 <= spec_encrypt_stream_from(c, key, base, counter, pt).len() % 516 <= 515,
{
    lemma_stream_len(c, key, base, counter, pt);
    let q = pt.len() / 500;
    let rm = pt.len() % 500;
    assert(0 <= rm < 500 && q >= 0) by (nonlinear_arith)
        requires
            rm == pt.len() % 500 && q == pt.len() / 500,
    ;
    assert((q * 516 + rm + 16) % 516 == rm + 16) by (nonlinear_arith)
        requires
            0 <= rm < 500,
            q >= 0,
    ;
}

/// A headless run of full chunks is always a whole number of full
/// chunks long.
pub proof fn lemma_full_chunks_len_mod(
    c: Cipher,
    key: Seq<u8>,
    base: Seq<u8>,
    counter: u32,
    pt: Seq<u8>,
)
    ensures
        spec_full_chunks_from(c, key, base, counter, pt).len() % 516 == 0,
{
    lemma_full_chunks_len(c, key, base, counter, pt);
    let q = pt.len() / 500;
    assert((q * 516) % 516 == 0) by (nonlinear_arith)
        requires
            q >= 0,
    ;
}

/// What may stand in the sink when decryption fails: a prefix of the
/// plaintexts of chunks that authenticated at their positions (a sink
/// fault can leave part of the last verified chunk behind) — never a
/// byte derived from a chunk that failed authentication.
pub open spec fn spec_emitted_on_failure(
    c: Cipher,
    key: Seq<u8>,
    base: Seq<u8>,
    ct: Seq<u8>,
    w: Seq<u8>,
) -> bool {
    exists|pt: Seq<u8>, k: int|
        0 <= k <= pt.len() && w == #[trigger] pt.take(k) && ((pt.len() % 500 == 0 && ct.take(
            (516 * (pt.len() / 500)) as int,
        ) == spec_full_chunks_from(c, key, base, 0, pt)) || ct == spec_encrypt_stream_from(
            c,
            key,
            base,
            0,
            pt,
        ))
}

/// Appending one more full chunk to a headless run seals it with the
/// counter that follows the run.
proof fn lemma_full_chunks_snoc(
    c: Cipher,
    key: Seq<u8>,
    base: Seq<u8>,
    start: u32,
    head: Seq<u8>,
    q: Seq<u8>,
)
    requires
        head.len() % 500 == 0,
        q.len() == 500,
        start + head.len() / 500 < 0x100000000,
    ensures
        spec_full_chunks_from(c, key, base, start, head + q) == spec_full_chunks_from(
            c,
            key,
            base,
            start,
            head,
        ) + spec_seal_chunk(c, key, base, (start + head.len() / 500) as u32, false, q),
    decreases head.len(),
{
    broadcast use lemma_seal_chunk_len;

    if head.len() == 0 {
        assert(head + q =~= q);
        assert(q.take(500) =~= q);
        assert(q.skip(500) =~= Seq::<u8>::empty());
        assert(spec_full_chunks_from(c, key, base, (start + 1) as u32, q.skip(500))
            =~= Seq::<u8>::empty());
        assert(spec_full_chunks_from(c, key, base, start, q) =~= spec_seal_chunk(
            c,
            key,
            base,
            start,
            false,
            q,
        ));
        assert(spec_full_chunks_from(c, key, base, start, head) =~= Seq::<u8>::empty());
        assert(spec_full_chunks_from(c, key, base, start, head + q) =~= spec_full_chunks_from(
            c,
            key,
            base,
            start,
            head,
        ) + spec_seal_chunk(c, key, base, (start + head.len() / 500) as u32, false, q));
    } else {
        assert(head.len() >= 500) by (nonlinear_arith)
            requires
                head.len() % 500 == 0,
                head.len() > 0,
        ;
        assert((head + q).take(500) =~= head.take(500));
        assert((head + q).skip(500) =~= head.skip(500) + q);
        assert(head.skip(500).len() % 500 == 0 && head.skip(500).len() / 500 == head.len() / 500
            - 1) by (nonlinear_arith)
            requires
                head.len() % 500 == 0,
                head.len() >= 500,
                head.skip(500).len() == head.len() - 500,
        ;
        lemma_full_chunks_snoc(c, key, base, (start + 1) as u32, head.skip(500), q);
        assert(spec_full_chunks_from(c, key, base, start, head + q) =~= spec_full_chunks_from(
            c,
            key,
            base,
            start,
            head,
        ) + spec_seal_chunk(c, key, base, (start + head.len() / 500) as u32, false, q));
    }
}

/// One full-chunk step of the decryption loop: consuming a sealed full
/// chunk carries the two loop facts (stream composition, and what any
/// authentic stream must look like) from the state before the chunk to
/// the state after it.
#[verifier::rlimit(100)]
proof fn lemma_decrypt_full_step(
    c: Cipher,
    key: Seq<u8>,
    base: Seq<u8>,
    c0: u32,
    ct_all: Seq<u8>,
    olddone: Seq<u8>,
    chunk: Seq<u8>,
    p: Seq<u8>,
    rem: Seq<u8>,
)
    requires
        p.len() == 500,
        c0 < 0xFFFFFFFFu32,
        olddone.len() == 500 * (c0 as int),
        chunk == spec_seal_chunk(c, key, base, c0, false, p),
        forall|q: Seq<u8>|
            chunk + rem == #[trigger] spec_encrypt_stream_from(c, key, base, c0, q) ==> ct_all
                == spec_encrypt_stream_from(c, key, base, 0, olddone + q),
        forall|pt: Seq<u8>|
            spec_counter_fits(pt.len(), 0) && ct_all == #[trigger] spec_encrypt_stream_from(
                c,
                key,
                base,
                0,
                pt,
            ) ==> olddone.len() <= pt.len() && pt.take(olddone.len() as int) == olddone && chunk
                + rem == spec_encrypt_stream_from(c, key, base, c0, pt.skip(olddone.len() as int)),
        forall|pt2: Seq<u8>|
            pt2.len() <= 500 && chunk == #[trigger] spec_seal_chunk(c, key, base, c0, false, pt2)
                ==> p == pt2,
    ensures
        forall|q: Seq<u8>|
            rem == #[trigger] spec_encrypt_stream_from(c, key, base, (c0 + 1) as u32, q) ==> ct_all
                == spec_encrypt_stream_from(c, key, base, 0, (olddone + p) + q),
        forall|pt: Seq<u8>|
            spec_counter_fits(pt.len(), 0) && ct_all == #[trigger] spec_encrypt_stream_from(
                c,
                key,
                base,
                0,
                pt,
            ) ==> (olddone + p).len() <= pt.len() && pt.take((olddone + p).len() as int) == olddone
                + p && rem == spec_encrypt_stream_from(
                c,
                key,
                base,
                (c0 + 1) as u32,
                pt.skip((olddone + p).len() as int),
            ),
{
    broadcast use lemma_seal_chunk_len;

    let c1 = (c0 + 1) as u32;
    assert forall|q: Seq<u8>|
        rem == #[trigger] spec_encrypt_stream_from(c, key, base, c1, q) implies ct_all
        == spec_encrypt_stream_from(c, key, base, 0, (olddone + p) + q) by {
        assert((p + q).take(500) =~= p);
        assert((p + q).skip(500) =~= q);
        assert(chunk + rem == spec_encrypt_stream_from(c, key, base, c0, p + q));
        assert(olddone + (p + q) =~= (olddone + p) + q);
    }
    assert forall|pt: Seq<u8>|
        spec_counter_fits(pt.len(), 0) && ct_all == #[trigger] spec_encrypt_stream_from(
            c,
            key,
            base,
            0,
            pt,
        ) implies (olddone + p).len() <= pt.len() && pt.take((olddone + p).len() as int) == olddone
        + p && rem == spec_encrypt_stream_from(
        c,
        key,
        base,
        c1,
        pt.skip((olddone + p).len() as int),
    ) by {
        let ptr = pt.skip(olddone.len() as int);
        if ptr.len() < 500 {
            assert(chunk + rem == spec_seal_chunk(c, key, base, c0, true, ptr));
            assert((chunk + rem).len() == ptr.len() + 16);
            assert(false);
        }
        assert(chunk + rem == spec_seal_chunk(c, key, base, c0, false, ptr.take(500))
            + spec_encrypt_stream_from(c, key, base, c1, ptr.skip(500)));
        assert((chunk + rem).take(516) =~= spec_seal_chunk(c, key, base, c0, false, ptr.take(500)));
        assert((chunk + rem).take(516) =~= chunk);
        assert(p == ptr.take(500));
        assert(pt.take((olddone + p).len() as int) =~= olddone + p);
        assert((chunk + rem).skip(516) =~= spec_encrypt_stream_from(
            c,
            key,
            base,
            c1,
            ptr.skip(500),
        ));
        assert((chunk + rem).skip(516) =~= rem);
        assert(pt.skip((olddone + p).len() as int) =~= ptr.skip(500));
    }
}

/// When the loop stops for a reason no authentic stream can produce
/// (counter space exhausted, a chunk that does not authenticate, or an
/// end of input where a chunk was due), no plaintext that fits the
/// counter has this ciphertext as its stream.
#[verifier::rlimit(100)]
proof fn lemma_decrypt_no_fit(
    c: Cipher,
    key: Seq<u8>,
    base: Seq<u8>,
    counter: u32,
    ct_all: Seq<u8>,
    done: Seq<u8>,
    rest: Seq<u8>,
)
    requires
        done.len() == 500 * (counter as int),
        forall|pt: Seq<u8>|
            spec_counter_fits(pt.len(), 0) && ct_all == #[trigger] spec_encrypt_stream_from(
                c,
                key,
                base,
                0,
                pt,
            ) ==> done.len() <= pt.len() && pt.take(done.len() as int) == done && rest
                == spec_encrypt_stream_from(c, key, base, counter, pt.skip(done.len() as int)),
        ({
            ||| (rest.len() >= 516 && counter == 0xFFFFFFFFu32)
            ||| (rest.len() >= 516 && forall|pt2: Seq<u8>|
                pt2.len() <= 500 ==> rest.take(516) != #[trigger] spec_seal_chunk(
                    c,
                    key,
                    base,
                    counter,
                    false,
                    pt2,
                ))
            ||| (0 < rest.len() < 516 && forall|pt2: Seq<u8>|
                pt2.len() <= 500 ==> rest != #[trigger] spec_seal_chunk(
                    c,
                    key,
                    base,
                    counter,
                    true,
                    pt2,
                ))
            ||| rest.len() == 0
        }),
    ensures
        forall|pt: Seq<u8>|
            spec_counter_fits(pt.len(), 0) ==> ct_all != #[trigger] spec_encrypt_stream_from(
                c,
                key,
                base,
                0,
                pt,
            ),
{
    broadcast use lemma_seal_chunk_len;

    assert forall|pt: Seq<u8>|
        spec_counter_fits(pt.len(), 0) && ct_all == #[trigger] spec_encrypt_stream_from(
            c,
            key,
            base,
            0,
            pt,
        ) implies false by {
        let ptr = pt.skip(done.len() as int);
        if ptr.len() < 500 {
            assert(rest == spec_seal_chunk(c, key, base, counter, true, ptr));
            assert(rest.len() == ptr.len() + 16);
            assert(0 < rest.len() < 516);
            assert(false);
        } else {
            assert(rest == spec_seal_chunk(c, key, base, counter, false, ptr.take(500))
                + spec_encrypt_stream_from(c, key, base, (counter + 1) as u32, ptr.skip(500)));
            assert(rest.take(516) =~= spec_seal_chunk(c, key, base, counter, false, ptr.take(500)));
            assert(rest.len() >= 516);
            if counter == 0xFFFFFFFFu32 {
                assert(pt.len() >= done.len() + ptr.len());
                assert(pt.len() >= 500 * 0x100000000);
                assert(pt.len() / 500 >= 0x100000000) by (nonlinear_arith)
                    requires
                        pt.len() >= 500 * 0x100000000,
                ;
            } else {
                assert(false);
            }
        }
    }
}

/// Open the whole stream: the first chunk already read into `buf` (its
/// leading `nread` bytes) and everything still in `src`, verified chunk
/// by chunk, the recovered plaintext delivered to `dst`.  Fails closed:
/// the first chunk that does not authenticate at its position aborts the
/// run; an input that ends without delivering a final-flagged chunk —
/// even at an exact chunk boundary — is incomplete and rejected the same
/// way; and nothing derived from a rejected chunk is ever emitted: on
/// any failure the sink holds only a prefix of the plaintexts of the
/// chunks that authenticated.  An authentic stream can fail only on a
/// source or sink fault.
#[verifier::rlimit(100)]
fn transfer_decryption<R: ByteSource, W: ByteSink>(
    cipher: Cipher,
    key: &[u8],
    nonce: &[u8],
    src: &mut Input<R>,
    dst: &mut Output<W>,
    buf: Vec<u8>,
    nread: usize,
) -> (r: Result<(), Error>)
    requires
        key@.len() == cipher.spec_key_len(),
        nonce@.len() + 5 == cipher.spec_nonce_len(),
        buf@.len() == 516,
        nread <= 516,
        nread < 516 ==> old(src).remaining().len() == 0,
    ensures
        ({
            let ct_all = buf@.take(nread as int) + old(src).remaining();
            &&& r is Ok ==> final(src).remaining().len() == 0 && exists|pt: Seq<u8>|
                final(dst).written() == old(dst).written() + pt && ct_all
                    == spec_encrypt_stream_from(cipher, key@, nonce@, 0, pt)
            &&& r is Err ==> r->Err_0 is Io || r->Err_0 == Error::Aead
            &&& r is Err ==> exists|w: Seq<u8>|
                final(dst).written() == old(dst).written() + w && spec_emitted_on_failure(
                    cipher,
                    key@,
                    nonce@,
                    ct_all,
                    w,
                )
            &&& (r matches Err(e) && e == Error::Aead) ==> exists|pt: Seq<u8>|
                pt.len() % 500 == 0 && final(dst).written() == old(dst).written() + pt
                    && ct_all.take((516 * (pt.len() / 500)) as int) == spec_full_chunks_from(
                    cipher,
                    key@,
                    nonce@,
                    0,
                    pt,
                )
            &&& forall|pt: Seq<u8>|
                spec_counter_fits(pt.len(), 0) && ct_all == #[trigger] spec_encrypt_stream_from(
                    cipher,
                    key@,
                    nonce@,
                    0,
                    pt,
                ) ==> ((r matches Err(e) ==> e is Io) && (r is Ok ==> final(dst).written() == old(
                    dst,
                ).written() + pt))
        }),
{
    broadcast use lemma_seal_chunk_len;

    let ghost ct_all = buf@.take(nread as int) + old(src).remaining();
    let ghost dst0 = old(dst).written();
    let mut data = buf;
    let mut read_count = nread;
    let mut counter: u32 = 0;
    let ghost mut done: Seq<u8> = Seq::empty();
    let ghost mut ct_done: Seq<u8> = Seq::empty();
    proof {
        assert(ct_all =~= ct_done + (data@.take(read_count as int) + src.remaining()));
        assert(ct_done =~= spec_full_chunks_from(cipher, key@, nonce@, 0, done));
        assert forall|p: Seq<u8>|
            data@.take(read_count as int) + src.remaining() == #[trigger] spec_encrypt_stream_from(
                cipher,
                key@,
                nonce@,
                counter,
                p,
            ) implies ct_all == spec_encrypt_stream_from(cipher, key@, nonce@, 0, done + p) by {
            assert(done + p =~= p);
        }
        assert forall|pt: Seq<u8>|
            spec_counter_fits(pt.len(), 0) && ct_all == #[trigger] spec_encrypt_stream_from(
                cipher,
                key@,
                nonce@,
                0,
                pt,
            ) implies done.len() <= pt.len() && pt.take(done.len() as int) == done && data@.take(
            read_count as int,
        ) + src.remaining() == spec_encrypt_stream_from(
            cipher,
            key@,
            nonce@,
            counter,
            pt.skip(done.len() as int),
        ) by {
            assert(pt.take(0) =~= done);
            assert(pt.skip(0) =~= pt);
        }
    }
    loop
        invariant
            key@.len() == cipher.spec_key_len(),
            nonce@.len() + 5 == cipher.spec_nonce_len(),
            data@.len() == 516,
            read_count <= 516,
            read_count < 516 ==> src.remaining().len() == 0,
            done.len() == 500 * (counter as int),
            ct_done == spec_full_chunks_from(cipher, key@, nonce@, 0, done),
            ct_done.len() == 516 * (counter as int),
            ct_all == ct_done + (data@.take(read_count as int) + src.remaining()),
            ct_all == buf@.take(nread as int) + old(src).remaining(),
            dst0 == old(dst).written(),
            dst.written() == dst0 + done,
            forall|p: Seq<u8>|
                data@.take(read_count as int) + src.remaining()
                    == #[trigger] spec_encrypt_stream_from(cipher, key@, nonce@, counter, p)
                    ==> ct_all == spec_encrypt_stream_from(cipher, key@, nonce@, 0, done + p),
            forall|pt: Seq<u8>|
                spec_counter_fits(pt.len(), 0) && ct_all == #[trigger] spec_encrypt_stream_from(
                    cipher,
                    key@,
                    nonce@,
                    0,
                    pt,
                ) ==> done.len() <= pt.len() && pt.take(done.len() as int) == done && data@.take(
                    read_count as int,
                ) + src.remaining() == spec_encrypt_stream_from(
                    cipher,
                    key@,
                    nonce@,
                    counter,
                    pt.skip(done.len() as int),
                ),
        decreases read_count + src.remaining().len(),
    {
        let ghost rest = data@.take(read_count as int) + src.remaining();
        proof {
            assert(done.len() % 500 == 0 && done.len() / 500 == counter as int)
                by (nonlinear_arith)
                requires
                    done.len() == 500 * (counter as int),
            ;
            assert(ct_all.take(516 * ((done.len() / 500) as int)) =~= ct_done);
            assert(done.take(done.len() as int) =~= done);
        }
        if read_count == BUFFER_LEN_DEC {
            proof {
                assert(rest.take(516) =~= data@);
                assert(rest.skip(516) =~= src.remaining());
            }
            if counter == 0xFFFFFFFFu32 {
                proof {
                    lemma_decrypt_no_fit(cipher, key@, nonce@, counter, ct_all, done, rest);
                    assert(spec_emitted_on_failure(cipher, key@, nonce@, ct_all, done));
                }
                return Err(Error::make_aead());
            }
            let ghost c0 = counter;
            let ghost chunk_bytes = data@;
            match decrypt_chunk(cipher, key, nonce, counter, false, data.as_slice()) {
                Ok(p) => {
                    proof {
                        assert(chunk_bytes == spec_seal_chunk(cipher, key@, nonce@, c0, false, p@));
                        lemma_full_chunks_snoc(cipher, key@, nonce@, 0, done, p@);
                        assert(spec_full_chunks_from(cipher, key@, nonce@, 0, done + p@)
                            =~= ct_done + chunk_bytes);
                        assert((done + p@).len() % 500 == 0 && (done + p@).len() / 500 == c0 as int
                            + 1) by (nonlinear_arith)
                            requires
                                done.len() == 500 * (c0 as int),
                                p@.len() == 500,
                        ;
                        assert(ct_all.take(516 * (((done + p@).len() / 500) as int)) =~= ct_done
                            + chunk_bytes);
                    }
                    match dst.write(p.as_slice()) {
                        Ok(()) => {},
                        Err(e) => {
                            proof {
                                let k2 = choose|k2: int|
                                    0 <= k2 <= p@.len() && dst.written() == (dst0 + done)
                                        + p@.take(k2);
                                assert((done + p@).take(done.len() + k2) =~= done + p@.take(k2));
                                assert(dst.written() =~= dst0 + (done + p@).take(
                                    done.len() + k2,
                                ));
                                assert(spec_emitted_on_failure(
                                    cipher,
                                    key@,
                                    nonce@,
                                    ct_all,
                                    done + p@.take(k2),
                                ));
                            }
                            return Err(e);
                        },
                    }
                    counter = counter + 1;
                    let ghost rem = src.remaining();
                    match src.read(&mut data) {
                        Ok(n) => {
                            read_count = n;
                        },
                        Err(e) => {
                            proof {
                                assert((done + p@).take((done + p@).len() as int) =~= done + p@);
                                assert(dst.written() =~= dst0 + (done + p@));
                                assert(spec_emitted_on_failure(
                                    cipher,
                                    key@,
                                    nonce@,
                                    ct_all,
                                    done + p@,
                                ));
                            }
                            return Err(e);
                        },
                    }
                    proof {
                        let olddone = done;
                        done = done + p@;
                        ct_done = ct_done + chunk_bytes;
                        assert(data@.take(read_count as int) =~= rem.take(read_count as int));
                        assert(data@.take(read_count as int) + src.remaining() =~= rem);
                        assert(chunk_bytes + rem =~= rest);
                        assert(ct_all =~= ct_done + rem);
                        assert(dst.written() =~= dst0 + done);
                        assert(ct_done =~= spec_full_chunks_from(cipher, key@, nonce@, 0, done));
                        lemma_decrypt_full_step(
                            cipher,
                            key@,
                            nonce@,
                            c0,
                            ct_all,
                            olddone,
                            chunk_bytes,
                            p@,
                            rem,
                        );
                    }
                },
                Err(e) => {
                    proof {
                        assert forall|pt2: Seq<u8>| pt2.len() <= 500 implies rest.take(516)
                            != #[trigger] spec_seal_chunk(
                            cipher,
                            key@,
                            nonce@,
                            counter,
                            false,
                            pt2,
                        ) by {
                            if rest.take(516) == spec_seal_chunk(
                                cipher,
                                key@,
                                nonce@,
                                counter,
                                false,
                                pt2,
                            ) {
                                assert(chunk_bytes == spec_seal_chunk(
                                    cipher,
                                    key@,
                                    nonce@,
                                    counter,
                                    false,
                                    pt2,
                                ));
                            }
                        }
                        lemma_decrypt_no_fit(cipher, key@, nonce@, counter, ct_all, done, rest);
                        assert(spec_emitted_on_failure(cipher, key@, nonce@, ct_all, done));
                    }
                    return Err(e);
                },
            }
        } else if read_count == 0 {
            // The stream ended without ever delivering a final-flagged
            // chunk: an incomplete or truncated input, never returned as
            // a complete plaintext.
            proof {
                assert(rest =~= src.remaining());
                assert(rest.len() == 0);
                lemma_decrypt_no_fit(cipher, key@, nonce@, counter, ct_all, done, rest);
                assert(spec_emitted_on_failure(cipher, key@, nonce@, ct_all, done));
            }
            return Err(Error::make_aead());
        } else {
            let ghost c0 = counter;
            let chunk = slice_subrange(data.as_slice(), 0, read_count);
            proof {
                assert(rest =~= data@.take(read_count as int));
                assert(chunk@ == rest);
            }
            match decrypt_chunk(cipher, key, nonce, counter, true, chunk) {
                Ok(p) => {
                    proof {
                        assert(rest == spec_seal_chunk(cipher, key@, nonce@, c0, true, p@));
                        assert(p@.len() + 16 == rest.len());
                        assert(p@.len() < 500);
                        assert(rest == spec_encrypt_stream_from(cipher, key@, nonce@, c0, p@));
                        assert(ct_all == spec_encrypt_stream_from(
                            cipher,
                            key@,
                            nonce@,
                            0,
                            done + p@,
                        ));
                    }
                    match dst.write(p.as_slice()) {
                        Ok(()) => {},
                        Err(e) => {
                            proof {
                                let k2 = choose|k2: int|
                                    0 <= k2 <= p@.len() && dst.written() == (dst0 + done)
                                        + p@.take(k2);
                                assert((done + p@).take(done.len() + k2) =~= done + p@.take(k2));
                                assert(dst.written() =~= dst0 + (done + p@).take(
                                    done.len() + k2,
                                ));
                                assert(spec_emitted_on_failure(
                                    cipher,
                                    key@,
                                    nonce@,
                                    ct_all,
                                    done + p@.take(k2),
                                ));
                            }
                            return Err(e);
                        },
                    }
                    proof {
                        let olddone = done;
                        done = done + p@;
                        assert(ct_all == spec_encrypt_stream_from(cipher, key@, nonce@, 0, done));
                        assert(dst.written() =~= dst0 + done);
                        assert forall|pt: Seq<u8>|
                            spec_counter_fits(pt.len(), 0) && ct_all
                                == #[trigger] spec_encrypt_stream_from(
                                cipher,
                                key@,
                                nonce@,
                                0,
                                pt,
                            ) implies dst.written() == dst0 + pt by {
                            let ptr = pt.skip(olddone.len() as int);
                            if ptr.len() >= 500 {
                                assert(rest == spec_seal_chunk(
                                    cipher,
                                    key@,
                                    nonce@,
                                    c0,
                                    false,
                                    ptr.take(500),
                                ) + spec_encrypt_stream_from(
                                    cipher,
                                    key@,
                                    nonce@,
                                    (c0 + 1) as u32,
                                    ptr.skip(500),
                                ));
                                assert(rest.len() >= 516);
                                assert(false);
                            }
                            assert(rest == spec_seal_chunk(cipher, key@, nonce@, c0, true, ptr));
                            assert(p@ == ptr);
                            assert(olddone + ptr =~= pt);
                        }
                    }
                    return Ok(());
                },
                Err(e) => {
                    proof {
                        assert forall|pt2: Seq<u8>| pt2.len() <= 500 implies rest
                            != #[trigger] spec_seal_chunk(
                            cipher,
                            key@,
                            nonce@,
                            counter,
                            true,
                            pt2,
                        ) by {
                            if rest == spec_seal_chunk(cipher, key@, nonce@, counter, true, pt2) {
                                assert(chunk@ == spec_seal_chunk(
                                    cipher,
                                    key@,
                                    nonce@,
                                    counter,
                                    true,
                                    pt2,
                                ));
                            }
                        }
                        lemma_decrypt_no_fit(cipher, key@, nonce@, counter, ct_all, done, rest);
                        assert(spec_emitted_on_failure(cipher, key@, nonce@, ct_all, done));
                    }
                    return Err(e);
                },
            }
        }
    }
}

/// Encrypt a whole stream under the chosen suite: the first plaintext
/// chunk already read into `buf` (its leading `nread` bytes) and
/// everything still in `src`, sealed and delivered to `dst` as the chunk
/// stream `spec_encrypt_stream` describes.
pub fn encrypt<R: ByteSource, W: ByteSink>(
    cipher: Cipher,
    key: &[u8],
    nonce: &[u8],
    src: &mut Input<R>,
    dst: &mut Output<W>,
    buf: Vec<u8>,
    nread: usize,
) -> (r: Result<(), Error>)
    requires
        key@.len() == cipher.spec_key_len(),
        nonce@.len() + 5 == cipher.spec_nonce_len(),
        buf@.len() == 500,
        nread <= 500,
        nread < 500 ==> old(src).remaining().len() == 0,
    ensures
        ({
            let pt_all = buf@.take(nread as int) + old(src).remaining();
            let full = spec_encrypt_stream_from(cipher, key@, nonce@, 0, pt_all);
            &&& r is Ok ==> final(dst).written() == old(dst).written() + full
                && final(src).remaining().len() == 0
            &&& r is Ok ==> spec_counter_fits(pt_all.len(), 0)
            &&& r is Err ==> r->Err_0 is Io || r->Err_0 == Error::Aead
            &&& (r matches Err(e) && e == Error::Aead) ==> !spec_counter_fits(pt_all.len(), 0)
            &&& r is Err ==> exists|k: int|
                0 <= k <= full.len() && final(dst).written() == old(dst).written() + full.take(k)
        }),
{
    transfer_encryption(cipher, key, nonce, src, dst, buf, nread)
}

/// Decrypt a whole stream under the chosen suite: the first ciphertext
/// chunk already read into `buf` (its leading `nread` bytes) and
/// everything still in `src`, opened chunk by chunk and delivered to
/// `dst`.  Whenever the input is the stream of some plaintext (within
/// the counter budget), that exact plaintext comes out and the only
/// possible failures are source or sink faults; conversely whatever is
/// accepted whole is exactly the stream of what was emitted.  An input
/// that ends without a final-flagged chunk is rejected, and on any
/// failure the sink holds only a prefix of the plaintexts of the chunks
/// that authenticated — never a byte of a rejected chunk.
pub fn decrypt<R: ByteSource, W: ByteSink>(
    cipher: Cipher,
    key: &[u8],
    nonce: &[u8],
    src: &mut Input<R>,
    dst: &mut Output<W>,
    buf: Vec<u8>,
    nread: usize,
) -> (r: Result<(), Error>)
    requires
        key@.len() == cipher.spec_key_len(),
        nonce@.len() + 5 == cipher.spec_nonce_len(),
        buf@.len() == 516,
        nread <= 516,
        nread < 516 ==> old(src).remaining().len() == 0,
    ensures
        ({
            let ct_all = buf@.take(nread as int) + old(src).remaining();
            &&& r is Ok ==> final(src).remaining().len() == 0 && exists|pt: Seq<u8>|
                final(dst).written() == old(dst).written() + pt && ct_all
                    == spec_encrypt_stream_from(cipher, key@, nonce@, 0, pt)
            &&& r is Err ==> r->Err_0 is Io || r->Err_0 == Error::Aead
            &&& r is Err ==> exists|w: Seq<u8>|
                final(dst).written() == old(dst).written() + w && spec_emitted_on_failure(
                    cipher,
                    key@,
                    nonce@,
                    ct_all,
                    w,
                )
            &&& (r matches Err(e) && e == Error::Aead) ==> exists|pt: Seq<u8>|
                pt.len() % 500 == 0 && final(dst).written() == old(dst).written() + pt
                    && ct_all.take((516 * (pt.len() / 500)) as int) == spec_full_chunks_from(
                    cipher,
                    key@,
                    nonce@,
                    0,
                    pt,
                )
            &&& forall|pt: Seq<u8>|
                spec_counter_fits(pt.len(), 0) && ct_all == #[trigger] spec_encrypt_stream_from(
                    cipher,
                    key@,
                    nonce@,
                    0,
                    pt,
                ) ==> ((r matches Err(e) ==> e is Io) && (r is Ok ==> final(dst).written() == old(
                    dst,
                ).written() + pt))
        }),
{
    transfer_decryption(cipher, key, nonce, src, dst, buf, nread)
}

} // verus!