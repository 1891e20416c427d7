use vstd::prelude::*;

use rand::RngCore;

use crate::cipher;
use crate::cli::{ArgonVariant, ArgonVersion, CfgHash, CfgRand, Cipher};
use crate::error::Error;
use crate::hash::{make_key, spec_derive_ok, spec_derived_key, spec_params_ok};
use crate::header::{
    spec_header_len, spec_header_ok, spec_parse_header, spec_serialize, serialize, SpecHeader,
};
use crate::io::{ByteSink, ByteSource, Control, Input, Output, SecretPrompt};
use crate::secret::{bytes_of, guarded_bytes, guarded_text, text_of};
use vstd::utf8::encode_utf8;

verus! {

/// Relies on rand's OsRng (RngCore::fill_bytes): fills the buffer with
/// operating-system randomness.  Nothing is promised of the values, only
/// that the buffer keeps its length.
#[verifier::external_body]
fn fill_random(buf: &mut Vec<u8>)
    ensures
        final(buf)@.len() == old(buf)@.len(),
{
    rand::rngs::OsRng.fill_bytes(buf.as_mut_slice());
}

/// Resolve a fixed-size secret by the priority order: an explicit
/// argument, else (when `is_tty`) an interactive prompt, else fresh
/// random bytes.  An explicit or prompted text shorter than `size`
/// bytes is rejected, never padded.
fn resolve_secret<P: SecretPrompt>(
    ctrl: &Control<P>,
    name: &str,
    size: usize,
    arg: Option<String>,
    is_tty: bool,
) -> (r: Result<Vec<u8>, Error>)
    ensures
        r is Ok ==> r->Ok_0@.len() == size,
        ({
            match arg {
                Some(text) => {
                    let bytes = encode_utf8(text@);
                    if bytes.len() >= size {
                        r is Ok && r->Ok_0@ == bytes.take(size as int)
                    } else {
                        r matches Err(e) && (e matches Error::Arg(m)
                            && m@ == crate::text::spec_short_secret_msg(name@, size as nat))
                    }
                },
                None => r matches Err(e) ==> (e is Io || e is Arg),
            }
        }),
{
    let mut buf: Vec<u8> = vec![0u8; size];
    match ctrl.extract(name, &mut buf, arg, is_tty) {
        Ok(Some(())) => Ok(buf),
        Ok(None) => {
            fill_random(&mut buf);
            Ok(buf)
        },
        Err(e) => Err(e),
    }
}

/// The chunk stream a successful encryption emits: the plaintext sealed
/// under the key derived from the password, salt and cost parameters,
/// with the given base nonce.
pub open spec fn spec_sealed_stream(
    hash: CfgHash,
    salt: Seq<u8>,
    cipher: Cipher,
    nonce: Seq<u8>,
    pwd: Seq<char>,
    pt: Seq<u8>,
) -> Seq<u8> {
    cipher::spec_encrypt_stream(
        cipher,
        spec_derived_key(hash, encode_utf8(pwd), salt, cipher.spec_key_len()),
        nonce,
        pt,
    )
}

/// Run one whole encryption: wait for the first plaintext chunk, resolve
/// the password, salt and base nonce, derive the key, emit the
/// self-describing header to `spec_out`, and seal everything read from
/// `input` into `output` as the chunk stream.  The header and the chunk
/// stream are consistent: the salt and nonce written out are exactly the
/// ones the key and the stream were built from.  On failure each sink
/// holds only a prefix of what a successful run would have given it.
#[verifier::rlimit(100)]
pub fn encrypt<R: ByteSource, W: ByteSink, S: ByteSink, P: SecretPrompt>(
    cipher: Cipher,
    cfg_pwd: Option<String>,
    cfg_hash: CfgHash,
    cfg_rand: CfgRand,
    ctrl: &Control<P>,
    input: &mut Input<R>,
    output: &mut Output<W>,
    spec_out: &mut Output<S>,
) -> (r: Result<(), Error>)
    ensures
        r is Ok ==> exists|pwd: Seq<char>, salt: Seq<u8>, nonce: Seq<u8>|
            {
                &&& salt.len() == 32
                &&& nonce.len() + 5 == cipher.spec_nonce_len()
                &&& (cfg_pwd matches Some(p) ==> pwd == p@)
                &&& (cfg_rand.salt_cli matches Some(s) ==> salt == encode_utf8(s@).take(32))
                &&& (cfg_rand.nonce_cli matches Some(s) ==> nonce == encode_utf8(s@).take(
                    cipher.spec_nonce_len() - 5,
                ))
                &&& final(spec_out).written() == old(spec_out).written() + spec_serialize(
                    cfg_hash,
                    salt,
                    cipher,
                    nonce,
                )
                &&& final(output).written() == old(output).written()
                    + #[trigger] spec_sealed_stream(
                    cfg_hash,
                    salt,
                    cipher,
                    nonce,
                    pwd,
                    old(input).remaining(),
                )
                &&& final(input).remaining().len() == 0
            },
        r is Err ==> (r->Err_0 is Io || r->Err_0 is Arg || r->Err_0 is Hash || r->Err_0
            == Error::Aead),
        !spec_params_ok(cfg_hash.lanes, cfg_hash.memory, cfg_hash.time, cipher.spec_key_len())
            ==> r is Err,
        (cfg_rand.salt_cli matches Some(s) && encode_utf8(s@).len() < 32) ==> r is Err,
        (cfg_rand.nonce_cli matches Some(s) && encode_utf8(s@).len() < cipher.spec_nonce_len() - 5)
            ==> r is Err,
        r is Err ==> exists|salt: Seq<u8>, nonce: Seq<u8>, pwd: Seq<char>, hk: int, sk: int|
            #![trigger spec_serialize(cfg_hash, salt, cipher, nonce).take(hk),
                spec_sealed_stream(cfg_hash, salt, cipher, nonce, pwd, old(input).remaining()).take(sk)]
            {
                &&& salt.len() == 32
                &&& nonce.len() + 5 == cipher.spec_nonce_len()
                &&& 0 <= hk <= spec_serialize(cfg_hash, salt, cipher, nonce).len()
                &&& final(spec_out).written() == old(spec_out).written() + spec_serialize(
                    cfg_hash,
                    salt,
                    cipher,
                    nonce,
                ).take(hk)
                &&& 0 <= sk <= spec_sealed_stream(
                    cfg_hash,
                    salt,
                    cipher,
                    nonce,
                    pwd,
                    old(input).remaining(),
                ).len()
                &&& final(output).written() == old(output).written() + spec_sealed_stream(
                    cfg_hash,
                    salt,
                    cipher,
                    nonce,
                    pwd,
                    old(input).remaining(),
                ).take(sk)
            },
{
    let ghost salt0 = Seq::<u8>::new(32, |i: int| 0u8);
    let ghost nonce0 = Seq::<u8>::new((cipher.spec_nonce_len() - 5) as nat, |i: int| 0u8);
    proof {
        assert(cipher.spec_nonce_len() >= 12);
        assert(spec_serialize(cfg_hash, salt0, cipher, nonce0).take(0) =~= Seq::<u8>::empty());
        assert(spec_sealed_stream(cfg_hash, salt0, cipher, nonce0, Seq::<char>::empty(), old(
            input,
        ).remaining()).take(0) =~= Seq::<u8>::empty());
    }

    // Wait for the first data before any interactive input, so that
    // several encryptions can be chained through pipes.
    let mut buf: Vec<u8> = vec![0u8; cipher::BUFFER_LEN_ENC];
    let nread = match input.read(&mut buf) {
        Ok(n) => n,
        Err(e) => {
            proof {
                assert(spec_out.written() =~= old(spec_out).written() + Seq::<u8>::empty());
                assert(output.written() =~= old(output).written() + Seq::<u8>::empty());
            }
            return Err(e);
        },
    };

    let password = match ctrl.prompt("password", cfg_pwd) {
        Ok(p) => p,
        Err(e) => {
            proof {
                assert(spec_out.written() =~= old(spec_out).written() + Seq::<u8>::empty());
                assert(output.written() =~= old(output).written() + Seq::<u8>::empty());
            }
            return Err(e);
        },
    };

    let salt = match resolve_secret(ctrl, "salt", 32, cfg_rand.salt_cli, cfg_rand.salt) {
        Ok(s) => s,
        Err(e) => {
            proof {
                assert(spec_out.written() =~= old(spec_out).written() + Seq::<u8>::empty());
                assert(output.written() =~= old(output).written() + Seq::<u8>::empty());
            }
            return Err(e);
        },
    };

    let (_, key_size, mut nonce_size) = cipher.get_spec();
    nonce_size = nonce_size - 5;  // the engine reserves 5 nonce bytes for its counter and flag

    let nonce = match resolve_secret(ctrl, "nonce", nonce_size, cfg_rand.nonce_cli, cfg_rand.nonce) {
        Ok(n) => n,
        Err(e) => {
            proof {
                assert(spec_out.written() =~= old(spec_out).written() + Seq::<u8>::empty());
                assert(output.written() =~= old(output).written() + Seq::<u8>::empty());
            }
            return Err(e);
        },
    };

    let key = match make_key(&cfg_hash, text_of(&password), salt.as_slice(), key_size) {
        Ok(k) => k,
        Err(e) => {
            proof {
                assert(spec_out.written() =~= old(spec_out).written() + Seq::<u8>::empty());
                assert(output.written() =~= old(output).written() + Seq::<u8>::empty());
            }
            return Err(e);
        },
    };

    let header = SpecHeader { hash: cfg_hash, salt, cipher, nonce };
    let header_bytes = serialize(&header);
    match spec_out.write(header_bytes.as_slice()) {
        Ok(()) => {},
        Err(e) => {
            proof {
                let hk = choose|hk: int|
                    0 <= hk <= header_bytes@.len() && spec_out.written() == old(
                        spec_out,
                    ).written() + header_bytes@.take(hk);
                assert(spec_serialize(cfg_hash, header.salt@, cipher, header.nonce@).take(hk)
                    == header_bytes@.take(hk));
                assert(output.written() =~= old(output).written() + spec_sealed_stream(
                    cfg_hash,
                    header.salt@,
                    cipher,
                    header.nonce@,
                    guarded_text(password),
                    old(input).remaining(),
                ).take(0));
            }
            return Err(e);
        },
    }

    match cipher::encrypt(
        cipher,
        bytes_of(&key),
        header.nonce.as_slice(),
        input,
        output,
        buf,
        nread,
    ) {
        Ok(()) => {},
        Err(e) => {
            proof {
                assert(buf@.take(nread as int) + old(input).remaining().skip(nread as int) =~= old(
                    input,
                ).remaining());
                let full = spec_sealed_stream(
                    cfg_hash,
                    header.salt@,
                    cipher,
                    header.nonce@,
                    guarded_text(password),
                    old(input).remaining(),
                );
                let sk = choose|sk: int|
                    0 <= sk <= full.len() && output.written() == old(output).written() + full.take(
                        sk,
                    );
                assert(spec_serialize(cfg_hash, header.salt@, cipher, header.nonce@).take(
                    header_bytes@.len() as int,
                ) =~= header_bytes@);
                assert(output.written() == old(output).written() + full.take(sk));
            }
            return Err(e);
        },
    }

    proof {
        assert(buf@.take(nread as int) + old(input).remaining().skip(nread as int) =~= old(
            input,
        ).remaining());
        assert(output.written() == old(output).written() + spec_sealed_stream(
            cfg_hash,
            header.salt@,
            cipher,
            header.nonce@,
            guarded_text(password),
            old(input).remaining(),
        ));
    }
    Ok(())
}

/// What a successful decryption emits: a plaintext whose chunk stream,
/// under the key the header fields and the password prescribe, is
/// exactly the ciphertext that was consumed.
pub open spec fn spec_opened_stream(
    hash: CfgHash,
    salt: Seq<u8>,
    cipher: Cipher,
    nonce: Seq<u8>,
    pwd: Seq<char>,
    ct: Seq<u8>,
    pt: Seq<u8>,
) -> bool {
    ct == cipher::spec_encrypt_stream(
        cipher,
        spec_derived_key(hash, encode_utf8(pwd), salt, cipher.spec_key_len()),
        nonce,
        pt,
    )
}

/// Run one whole decryption: read and validate the self-describing
/// header from `spec_in`, wait for the first ciphertext chunk, resolve
/// the password, derive the key the header prescribes, and open the
/// stream from `input` into `output`, failing closed on the first chunk
/// that does not authenticate — or on an input that ends without its
/// final-flagged chunk.  Whatever is emitted on success is exactly the
/// plaintext whose chunk stream the input is; whenever the input is such
/// a stream (under the supplied password and admissible header
/// parameters), that plaintext comes out and only a source or sink fault
/// can intervene; and on failure the output holds only a prefix of the
/// plaintexts of the chunks that authenticated.
#[verifier::rlimit(100)]
#[verifier::spinoff_prover]
pub fn decrypt<R: ByteSource, W: ByteSink, S: ByteSource, P: SecretPrompt>(
    cfg_pwd: Option<String>,
    ctrl: &Control<P>,
    input: &mut Input<R>,
    output: &mut Output<W>,
    spec_in: &mut Input<S>,
) -> (r: Result<(), Error>)
    ensures
        r is Ok ==> ({
            let hb = old(spec_in).remaining();
            &&& spec_header_ok(hb)
            &&& final(spec_in).remaining() == hb.skip(spec_header_len(hb[46]))
            &&& ({
                let (hash, salt, cipher, nonce) = spec_parse_header(hb);
                exists|pwd: Seq<char>, pt: Seq<u8>|
                    {
                        &&& #[trigger] spec_opened_stream(
                            hash,
                            salt,
                            cipher,
                            nonce,
                            pwd,
                            old(input).remaining(),
                            pt,
                        )
                        &&& (cfg_pwd matches Some(p) ==> pwd == p@)
                        &&& final(output).written() == old(output).written() + pt
                    }
            })
            &&& final(input).remaining().len() == 0
        }),
        r is Err ==> (r->Err_0 is Io || r->Err_0 is Spec || r->Err_0 is Hash || r->Err_0
            == Error::Aead),
        r is Err ==> (final(output).written() == old(output).written() || ({
            let hb = old(spec_in).remaining();
            let (hash, salt, cipher, nonce) = spec_parse_header(hb);
            spec_header_ok(hb) && exists|pwd: Seq<char>, w: Seq<u8>|
                (cfg_pwd matches Some(p) ==> pwd == p@) && final(output).written() == old(
                    output,
                ).written() + w && #[trigger] cipher::spec_emitted_on_failure(
                    cipher,
                    spec_derived_key(hash, encode_utf8(pwd), salt, cipher.spec_key_len()),
                    nonce,
                    old(input).remaining(),
                    w,
                )
        })),
        forall|pt: Seq<u8>|
            #![trigger cipher::spec_counter_fits(pt.len(), 0)]
            ({
                let hb = old(spec_in).remaining();
                let (hash, salt, cipher, nonce) = spec_parse_header(hb);
                (spec_header_ok(hb) && (cfg_pwd matches Some(p) && spec_derive_ok(
                    hash,
                    encode_utf8(p@).len(),
                    salt.len(),
                    cipher.spec_key_len(),
                ) && cipher::spec_counter_fits(pt.len(), 0) && old(input).remaining()
                    == spec_sealed_stream(hash, salt, cipher, nonce, p@, pt))) ==> ((
                r matches Err(e) ==> e is Io) && (r is Ok ==> final(output).written() == old(
                    output,
                ).written() + pt))
            }),
{
    let ghost hb = spec_in.remaining();

    let hash_var = match ArgonVariant::from_type_id(spec_in.read_u8()?) {
        Ok(v) => v,
        Err(e) => {
            proof {
                assert(!spec_header_ok(hb));
            }
            return Err(e);
        },
    };
    let hash_ver = match ArgonVersion::from_type_id(spec_in.read_u8()?) {
        Ok(v) => v,
        Err(e) => {
            proof {
                assert(hb.skip(1)[0] == hb[1]);
                assert(!spec_header_ok(hb));
            }
            return Err(e);
        },
    };
    let hash_lanes = spec_in.read_u32()?;
    let hash_memory = spec_in.read_u32()?;
    let hash_time = spec_in.read_u32()?;

    let cfg_hash = CfgHash {
        hash_var,
        hash_ver,
        lanes: hash_lanes,
        memory: hash_memory,
        time: hash_time,
    };

    let mut salt: Vec<u8> = vec![0u8; 32];
    spec_in.read_exact(&mut salt)?;

    let cipher_type = match Cipher::from_type_id(spec_in.read_u8()?) {
        Ok(c) => c,
        Err(e) => {
            proof {
                assert(hb.skip(46)[0] == hb[46]);
                assert(!spec_header_ok(hb));
            }
            return Err(e);
        },
    };
    let (_, key_size, mut nonce_size) = cipher_type.get_spec();
    nonce_size = nonce_size - 5;  // the engine reserves 5 nonce bytes for its counter and flag

    let mut nonce: Vec<u8> = vec![0u8; nonce_size];
    spec_in.read_exact(&mut nonce)?;

    proof {
        assert(hb.len() >= 47 + nonce_size);
        assert(hb[0] == hash_var.spec_type_id());
        assert(hb.skip(1)[0] == hb[1]);
        assert(hb.skip(2).take(4) =~= hb.subrange(2, 6));
        assert(hb.skip(6).take(4) =~= hb.subrange(6, 10));
        assert(hb.skip(10).take(4) =~= hb.subrange(10, 14));
        assert(hb.skip(14).take(32) =~= hb.subrange(14, 46));
        assert(hb.skip(46)[0] == hb[46]);
        assert(hb.skip(47).take(nonce_size as int) =~= hb.subrange(47, 47 + nonce_size));
        assert(spec_in.remaining() =~= hb.skip(47 + nonce_size));
        crate::cli::lemma_cipher_id_round_trip(cipher_type);
    }
    let ghost parsed = spec_parse_header(hb);
    proof {
        assert(parsed.0 == cfg_hash);
        assert(parsed.1 == salt@);
        assert(parsed.2 == cipher_type);
        assert(parsed.3 == nonce@);
    }

    // Wait for the first data before any interactive input, so that
    // several decryptions can be chained through pipes.
    let mut buf: Vec<u8> = vec![0u8; cipher::BUFFER_LEN_DEC];
    let nread = input.read(&mut buf)?;

    let password = ctrl.prompt("password", cfg_pwd)?;

    let key = match make_key(&cfg_hash, text_of(&password), salt.as_slice(), key_size) {
        Ok(k) => k,
        Err(e) => {
            proof {
                assert(cfg_pwd matches Some(p) ==> !spec_derive_ok(
                    parsed.0,
                    encode_utf8(p@).len(),
                    parsed.1.len(),
                    parsed.2.spec_key_len(),
                ));
            }
            return Err(e);
        },
    };

    let ghost key_seq = guarded_bytes(key);
    let ghost ct_all = old(input).remaining();
    proof {
        assert(buf@.take(nread as int) + input.remaining() =~= ct_all);
        assert(key_seq == spec_derived_key(
            parsed.0,
            encode_utf8(guarded_text(password)),
            parsed.1,
            parsed.2.spec_key_len(),
        ));
    }

    match cipher::decrypt(
        cipher_type,
        bytes_of(&key),
        nonce.as_slice(),
        input,
        output,
        buf,
        nread,
    ) {
        Ok(()) => {},
        Err(e) => {
            proof {
                let w = choose|w: Seq<u8>|
                    output.written() == old(output).written() + w
                        && cipher::spec_emitted_on_failure(cipher_type, key_seq, nonce@, ct_all, w);
                assert((cfg_pwd matches Some(p) ==> guarded_text(password) == p@)
                    && output.written() == old(output).written() + w
                    && cipher::spec_emitted_on_failure(
                    parsed.2,
                    spec_derived_key(
                        parsed.0,
                        encode_utf8(guarded_text(password)),
                        parsed.1,
                        parsed.2.spec_key_len(),
                    ),
                    parsed.3,
                    old(input).remaining(),
                    w,
                ));
                assert forall|pt: Seq<u8>|
                    #![trigger cipher::spec_counter_fits(pt.len(), 0)]
                    (spec_header_ok(hb) && (cfg_pwd matches Some(p) && spec_derive_ok(
                        parsed.0,
                        encode_utf8(p@).len(),
                        parsed.1.len(),
                        parsed.2.spec_key_len(),
                    ) && cipher::spec_counter_fits(pt.len(), 0) && old(input).remaining()
                        == spec_sealed_stream(
                        parsed.0,
                        parsed.1,
                        parsed.2,
                        parsed.3,
                        p@,
                        pt,
                    ))) implies e is Io by {
                    assert(ct_all == cipher::spec_encrypt_stream_from(
                        cipher_type,
                        key_seq,
                        nonce@,
                        0,
                        pt,
                    ));
                }
            }
            return Err(e);
        },
    }

    proof {
        let pt = choose|pt: Seq<u8>|
            output.written() == old(output).written() + pt && ct_all
                == cipher::spec_encrypt_stream_from(cipher_type, key_seq, nonce@, 0, pt);
        assert(spec_opened_stream(
            parsed.0,
            parsed.1,
            parsed.2,
            parsed.3,
            guarded_text(password),
            old(input).remaining(),
            pt,
        ));
        assert(spec_in.remaining() == hb.skip(spec_header_len(hb[46])));
        assert forall|pt2: Seq<u8>|
            #![trigger cipher::spec_counter_fits(pt2.len(), 0)]
            (spec_header_ok(hb) && (cfg_pwd matches Some(p) && spec_derive_ok(
                parsed.0,
                encode_utf8(p@).len(),
                parsed.1.len(),
                parsed.2.spec_key_len(),
            ) && cipher::spec_counter_fits(pt2.len(), 0) && old(input).remaining()
                == spec_sealed_stream(
                parsed.0,
                parsed.1,
                parsed.2,
                parsed.3,
                p@,
                pt2,
            ))) implies output.written() == old(output).written() + pt2 by {
            assert(ct_all == cipher::spec_encrypt_stream_from(
                cipher_type,
                key_seq,
                nonce@,
                0,
                pt2,
            ));
        }
    }
    Ok(())
}

} // verus!
