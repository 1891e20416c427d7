use vstd::prelude::*;

use crate::bytes::{spec_u32_from_be_bytes, spec_u32_to_be_bytes, u32_from_be_bytes, u32_to_be_bytes};
use crate::cli::{ArgonVariant, ArgonVersion, CfgHash, Cipher};
use crate::error::Error;
use vstd::slice::{slice_subrange, slice_to_vec};

verus! {

/// The self-describing header of a ciphertext: everything decryption
/// needs except the password.  Written once before the chunk stream,
/// either in front of it or into a separate artifact.
pub struct SpecHeader {
    pub hash: CfgHash,
    pub salt: Vec<u8>,
    pub cipher: Cipher,
    pub nonce: Vec<u8>,
}

impl SpecHeader {
    /// Well-formed: a 32-byte salt and a base nonce of the suite's
    /// native nonce length less the 5 reserved bytes.
    pub open spec fn wf(&self) -> bool {
        &&& self.salt@.len() == 32
        &&& self.nonce@.len() + 5 == self.cipher.spec_nonce_len()
    }
}

/// The serialized header: fixed-width big-endian fields, flatly
/// concatenated.  One byte each for the variant, revision and suite
/// identifiers, four for each cost parameter, 32 raw salt bytes, and the
/// base nonce, whose length the suite identifier implies.
pub open spec fn spec_serialize(hash: CfgHash, salt: Seq<u8>, cipher: Cipher, nonce: Seq<u8>) -> Seq<
    u8,
> {
    seq![hash.hash_var.spec_type_id(), hash.hash_ver.spec_type_id()] + spec_u32_to_be_bytes(
        hash.lanes,
    ) + spec_u32_to_be_bytes(hash.memory) + spec_u32_to_be_bytes(hash.time) + salt + seq![
        cipher.spec_type_id(),
    ] + nonce
}

/// The total length of a header whose suite identifier byte is `id`.
pub open spec fn spec_header_len(id: u8) -> int {
    47 + Cipher::spec_of_type_id(id).spec_nonce_len() - 5
}

/// Whether a byte string begins with a parseable header.
pub open spec fn spec_header_ok(b: Seq<u8>) -> bool {
    &&& b.len() >= 47
    &&& b[0] < 3
    &&& b[1] < 2
    &&& b[46] < 8
    &&& b.len() >= spec_header_len(b[46])
}

/// The fields read back from a byte string that passes `spec_header_ok`.
pub open spec fn spec_parse_header(b: Seq<u8>) -> (CfgHash, Seq<u8>, Cipher, Seq<u8>) {
    (
        CfgHash {
            hash_var: ArgonVariant::spec_of_type_id(b[0]),
            hash_ver: ArgonVersion::spec_of_type_id(b[1]),
            lanes: spec_u32_from_be_bytes(b.subrange(2, 6)),
            memory: spec_u32_from_be_bytes(b.subrange(6, 10)),
            time: spec_u32_from_be_bytes(b.subrange(10, 14)),
        },
        b.subrange(14, 46),
        Cipher::spec_of_type_id(b[46]),
        b.subrange(47, spec_header_len(b[46])),
    )
}

/// The message of the distinct failure a malformed header is rejected
/// with: in reading order, a short prefix, an unknown variant, an
/// unknown revision, a short middle, an unknown suite, a short nonce.
pub open spec fn spec_header_err_msg(b: Seq<u8>) -> Seq<char> {
    if b.len() < 2 {
        "header is truncated"@
    } else if b[0] >= 3 {
        "unable to define hash variant"@
    } else if b[1] >= 2 {
        "unable to define hash version"@
    } else if b.len() < 47 {
        "header is truncated"@
    } else if b[46] >= 8 {
        "unable to define cipher type"@
    } else {
        "header is truncated"@
    }
}

/// Serialize the header as `spec_serialize` describes.
pub fn serialize(h: &SpecHeader) -> (r: Vec<u8>)
    requires
        h.wf(),
    ensures
        r@ == spec_serialize(h.hash, h.salt@, h.cipher, h.nonce@),
        r@.len() == spec_header_len(h.cipher.spec_type_id()),
        spec_header_ok(r@),
{
    let mut out: Vec<u8> = Vec::new();
    out.push(h.hash.hash_var.get_type_id());
    out.push(h.hash.hash_ver.get_type_id());
    let lanes = u32_to_be_bytes(h.hash.lanes);
    out.extend_from_slice(lanes.as_slice());
    let memory = u32_to_be_bytes(h.hash.memory);
    out.extend_from_slice(memory.as_slice());
    let time = u32_to_be_bytes(h.hash.time);
    out.extend_from_slice(time.as_slice());
    out.extend_from_slice(h.salt.as_slice());
    let (cipher_id, _, _) = h.cipher.get_spec();
    out.push(cipher_id);
    out.extend_from_slice(h.nonce.as_slice());
    proof {
        assert(out@ =~= spec_serialize(h.hash, h.salt@, h.cipher, h.nonce@));
        crate::cli::lemma_cipher_id_round_trip(h.cipher);
    }
    out
}

/// Parse the header at the front of `bytes`: the fields and how many
/// bytes they occupied.  Each malformed prefix is rejected with its
/// distinct reason, never defaulted.
pub fn deserialize(bytes: &[u8]) -> (r: Result<(SpecHeader, usize), Error>)
    ensures
        r is Ok <==> spec_header_ok(bytes@),
        r is Ok ==> ({
            let (h, n) = r->Ok_0;
            let (hash, salt, cipher, nonce) = spec_parse_header(bytes@);
            &&& h.wf()
            &&& h.hash == hash
            &&& h.salt@ == salt
            &&& h.cipher == cipher
            &&& h.nonce@ == nonce
            &&& n == spec_header_len(bytes@[46])
            &&& n <= bytes@.len()
        }),
        r is Err ==> (r->Err_0 matches Error::Spec(m) && m@ == spec_header_err_msg(bytes@)),
{
    if bytes.len() < 2 {
        return Err(Error::make_spec("header is truncated".to_owned()));
    }
    let hash_var = ArgonVariant::from_type_id(bytes[0])?;
    let hash_ver = ArgonVersion::from_type_id(bytes[1])?;
    if bytes.len() < 47 {
        return Err(Error::make_spec("header is truncated".to_owned()));
    }
    let lanes = u32_from_be_bytes(slice_subrange(bytes, 2, 6));
    let memory = u32_from_be_bytes(slice_subrange(bytes, 6, 10));
    let time = u32_from_be_bytes(slice_subrange(bytes, 10, 14));
    let salt = slice_to_vec(slice_subrange(bytes, 14, 46));
    let cipher = Cipher::from_type_id(bytes[46])?;
    let (_, _, nonce_len) = cipher.get_spec();
    let total: usize = 47 + (nonce_len - 5);
    if bytes.len() < total {
        return Err(Error::make_spec("header is truncated".to_owned()));
    }
    let nonce = slice_to_vec(slice_subrange(bytes, 47, total));
    let h = SpecHeader { hash: CfgHash { hash_var, hash_ver, lanes, memory, time }, salt, cipher, nonce };
    Ok((h, total))
}

/// Header round-trip: parsing a serialized well-formed header yields
/// exactly the fields it was built from.
pub proof fn lemma_header_round_trip(hash: CfgHash, salt: Seq<u8>, cipher: Cipher, nonce: Seq<u8>)
    requires
        salt.len() == 32,
        nonce.len() + 5 == cipher.spec_nonce_len(),
    ensures
        spec_header_ok(spec_serialize(hash, salt, cipher, nonce)),
        spec_parse_header(spec_serialize(hash, salt, cipher, nonce)) == (hash, salt, cipher, nonce),
{
    let b = spec_serialize(hash, salt, cipher, nonce);
    assert(b[0] == hash.hash_var.spec_type_id());
    assert(b[1] == hash.hash_ver.spec_type_id());
    assert(b[46] == cipher.spec_type_id());
    crate::cli::lemma_cipher_id_round_trip(cipher);
    assert(b.subrange(2, 6) =~= spec_u32_to_be_bytes(hash.lanes));
    assert(b.subrange(6, 10) =~= spec_u32_to_be_bytes(hash.memory));
    assert(b.subrange(10, 14) =~= spec_u32_to_be_bytes(hash.time));
    crate::bytes::lemma_u32_be_bytes_round_trip(hash.lanes);
    crate::bytes::lemma_u32_be_bytes_round_trip(hash.memory);
    crate::bytes::lemma_u32_be_bytes_round_trip(hash.time);
    assert(b.subrange(14, 46) =~= salt);
    assert(b.subrange(47, spec_header_len(b[46])) =~= nonce);
    assert(ArgonVariant::spec_of_type_id(hash.hash_var.spec_type_id()) == hash.hash_var);
    assert(ArgonVersion::spec_of_type_id(hash.hash_ver.spec_type_id()) == hash.hash_ver);
}

/// Parsing looks only at the header's own bytes: in the inline wire
/// layout, where the chunk stream follows the header immediately, the
/// same fields are read back and the header's length is unchanged.
pub proof fn lemma_header_parse_prefix(
    hash: CfgHash,
    salt: Seq<u8>,
    cipher: Cipher,
    nonce: Seq<u8>,
    rest: Seq<u8>,
)
    requires
        salt.len() == 32,
        nonce.len() + 5 == cipher.spec_nonce_len(),
    ensures
        ({
            let h = spec_serialize(hash, salt, cipher, nonce);
            &&& spec_header_ok(h + rest)
            &&& spec_parse_header(h + rest) == (hash, salt, cipher, nonce)
            &&& spec_header_len((h + rest)[46]) == h.len()
        }),
{
    lemma_header_round_trip(hash, salt, cipher, nonce);
    let h = spec_serialize(hash, salt, cipher, nonce);
    let b = h + rest;
    assert(b[0] == h[0]);
    assert(b[1] == h[1]);
    assert(b[46] == h[46]);
    assert(b.subrange(2, 6) =~= h.subrange(2, 6));
    assert(b.subrange(6, 10) =~= h.subrange(6, 10));
    assert(b.subrange(10, 14) =~= h.subrange(10, 14));
    assert(b.subrange(14, 46) =~= h.subrange(14, 46));
    assert(b.subrange(47, spec_header_len(b[46])) =~= h.subrange(47, spec_header_len(h[46])));
}

} // verus!