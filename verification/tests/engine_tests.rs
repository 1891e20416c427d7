use std::cell::RefCell;
use std::cmp::min;
use std::rc::Rc;

use rand::rngs::OsRng;
use rand::RngCore;

use streamcrypt::cipher::{decrypt, encrypt, BUFFER_LEN_DEC, BUFFER_LEN_ENC};
use streamcrypt::cli::{ArgonVariant, ArgonVersion, CfgHash, Cipher};
use streamcrypt::error::Error;
use streamcrypt::hash::make_key;
use streamcrypt::secret::bytes_of;
use streamcrypt::io::{ByteSink, ByteSource, Input, IoFault, Output};

const ALL_CIPHERS: [Cipher; 8] = [
    Cipher::XChacha20Poly1305,
    Cipher::XChacha12Poly1305,
    Cipher::XChacha8Poly1305,
    Cipher::Chacha20Poly1305,
    Cipher::Chacha12Poly1305,
    Cipher::Chacha8Poly1305,
    Cipher::Aes256Gcm,
    Cipher::Aes128Gcm,
];

struct SliceSource {
    inner: Vec<u8>,
    pos: usize,
}

impl ByteSource for SliceSource {
    fn read_at(&mut self, buf: &mut Vec<u8>, start: usize) -> Result<usize, IoFault> {
        let n = min(buf.len() - start, self.inner.len() - self.pos);
        buf[start..start + n].copy_from_slice(&self.inner[self.pos..self.pos + n]);
        self.pos += n;
        Ok(n)
    }
}

struct VecSink {
    inner: Rc<RefCell<Vec<u8>>>,
}

impl ByteSink for VecSink {
    fn write_from(&mut self, buf: &[u8], start: usize) -> Result<usize, IoFault> {
        self.inner.borrow_mut().extend_from_slice(&buf[start..]);
        Ok(buf.len() - start)
    }
}

fn run_encrypt(cipher: Cipher, key: &[u8], nonce: &[u8], data: &[u8]) -> Result<Vec<u8>, Error> {
    let out = Rc::new(RefCell::new(Vec::new()));
    let mut input = Input::new(SliceSource {
        inner: data.to_vec(),
        pos: 0,
    });
    let mut output = Output::new(VecSink { inner: out.clone() });
    let mut buf = vec![0u8; BUFFER_LEN_ENC];
    let nread = input.read(&mut buf)?;
    encrypt(cipher, key, nonce, &mut input, &mut output, buf, nread)?;
    drop(output);
    Ok(Rc::try_unwrap(out).unwrap().into_inner())
}

fn run_decrypt(cipher: Cipher, key: &[u8], nonce: &[u8], data: &[u8]) -> Result<Vec<u8>, Error> {
    let out = Rc::new(RefCell::new(Vec::new()));
    let mut input = Input::new(SliceSource {
        inner: data.to_vec(),
        pos: 0,
    });
    let mut output = Output::new(VecSink { inner: out.clone() });
    let mut buf = vec![0u8; BUFFER_LEN_DEC];
    let nread = input.read(&mut buf)?;
    decrypt(cipher, key, nonce, &mut input, &mut output, buf, nread)?;
    drop(output);
    Ok(Rc::try_unwrap(out).unwrap().into_inner())
}

fn random_material(cipher: Cipher) -> (Vec<u8>, Vec<u8>) {
    let (_, key_size, mut nonce_size) = cipher.get_spec();
    nonce_size -= 5;
    let mut key: Vec<u8> = vec![0u8; key_size.try_into().unwrap()];
    OsRng.fill_bytes(&mut key);
    let mut nonce = vec![0u8; nonce_size];
    OsRng.fill_bytes(&mut nonce);
    (key, nonce)
}

#[test]
fn encrypt_decrypt() {
    let size_data = BUFFER_LEN_ENC * 3 + 1;
    for cipher in ALL_CIPHERS {
        let (_, key_size, mut nonce_size) = cipher.get_spec();
        nonce_size -= 5;

        // Key
        let mut key: Vec<u8> = vec![0u8; key_size.try_into().unwrap()];
        OsRng.fill_bytes(&mut key);

        // Salt
        let mut salt = [0u8; 32];
        OsRng.fill_bytes(salt.as_mut());

        // Nonce
        let mut nonce_arr = [0u8; 19];
        let nonce = &mut nonce_arr[..nonce_size];
        OsRng.fill_bytes(nonce);

        // Data
        let mut data_expected = vec![0u8; size_data];
        OsRng.fill_bytes(&mut data_expected);

        // Process enc
        let data_enc = run_encrypt(cipher, &key[..], nonce, &data_expected).unwrap();

        // Check encrypted
        assert_ne!(data_expected, data_enc, "encripted cipher: {:?}", cipher);

        // Process dec
        let data_fact = run_decrypt(cipher, &key[..], nonce, &data_enc).unwrap();

        // Check decrypted
        assert_eq!(data_expected, data_fact, "decripted cipher: {:?}", cipher);
    }
}

#[test]
fn round_trip_all_lengths() {
    let p = BUFFER_LEN_ENC;
    for cipher in ALL_CIPHERS {
        let (key, nonce) = random_material(cipher);
        for len in [0, 1, p - 1, p, p + 1, 3 * p, 3 * p + 1] {
            let mut data = vec![0u8; len];
            OsRng.fill_bytes(&mut data);
            let ct = run_encrypt(cipher, &key, &nonce, &data).unwrap();
            let expected_len = (len / p) * (p + 16) + (len % p) + 16;
            assert_eq!(ct.len(), expected_len, "cipher: {:?}, len: {}", cipher, len);
            let back = run_decrypt(cipher, &key, &nonce, &ct).unwrap();
            assert_eq!(data, back, "cipher: {:?}, len: {}", cipher, len);
        }
    }
}

#[test]
fn tamper_detection() {
    let cipher = Cipher::XChacha20Poly1305;
    let (key, nonce) = random_material(cipher);
    let mut data = vec![0u8; 600];
    OsRng.fill_bytes(&mut data);
    let ct = run_encrypt(cipher, &key, &nonce, &data).unwrap();
    for byte in 0..ct.len() {
        for bit in 0..8 {
            let mut bad = ct.clone();
            bad[byte] ^= 1u8 << bit;
            match run_decrypt(cipher, &key, &nonce, &bad) {
                Err(Error::Aead) => {},
                other => panic!("bit {} of byte {}: expected authentication failure, got {:?}",
                    bit, byte, other.map(|v| v.len())),
            }
        }
    }
}

#[test]
fn truncation_detection() {
    let cipher = Cipher::Chacha20Poly1305;
    let (key, nonce) = random_material(cipher);
    let mut data = vec![0u8; 1201];
    OsRng.fill_bytes(&mut data);
    let ct = run_encrypt(cipher, &key, &nonce, &data).unwrap();
    assert_eq!(ct.len(), 2 * 516 + 217);
    // Any truncation must fail, including dropping the whole final chunk
    // (217 bytes): a stream that ends without a final-flagged chunk is
    // incomplete, never returned as a complete plaintext.
    for drop_len in 1..=217 {
        let shorter = &ct[..ct.len() - drop_len];
        match run_decrypt(cipher, &key, &nonce, shorter) {
            Err(Error::Aead) => {},
            other => panic!("dropping {} bytes: expected failure, got {:?}",
                drop_len, other.map(|v| v.len())),
        }
    }
}

#[test]
fn empty_input_is_rejected() {
    // Even an empty plaintext seals to a 16-byte final chunk, so an
    // empty ciphertext is an incomplete stream.
    let cipher = Cipher::XChacha8Poly1305;
    let (key, nonce) = random_material(cipher);
    match run_decrypt(cipher, &key, &nonce, &[]) {
        Err(Error::Aead) => {},
        other => panic!("an empty input must be rejected, got {:?}", other.map(|v| v.len())),
    }
}

#[test]
fn reorder_detection() {
    let cipher = Cipher::Aes256Gcm;
    let (key, nonce) = random_material(cipher);
    let mut data = vec![0u8; 1201];
    OsRng.fill_bytes(&mut data);
    let ct = run_encrypt(cipher, &key, &nonce, &data).unwrap();
    let mut swapped = Vec::new();
    swapped.extend_from_slice(&ct[516..1032]);
    swapped.extend_from_slice(&ct[..516]);
    swapped.extend_from_slice(&ct[1032..]);
    match run_decrypt(cipher, &key, &nonce, &swapped) {
        Err(Error::Aead) => {},
        other => panic!("expected authentication failure on the swapped chunk, got {:?}",
            other.map(|v| v.len())),
    }
}

#[test]
fn fixed_scenario() {
    // 1201 bytes of a known pattern under the 32-byte-key/12-byte-nonce
    // narrow-nonce suite, with a fixed password and salt.
    let cipher = Cipher::Chacha20Poly1305;
    let cfg = CfgHash {
        hash_var: ArgonVariant::Argon2id,
        hash_ver: ArgonVersion::Ver13,
        lanes: 1,
        memory: 8,
        time: 1,
    };
    let salt = [7u8; 32];
    let key = make_key(&cfg, "correct horse battery staple", &salt, 32).unwrap();
    let key = bytes_of(&key);
    let nonce = [3u8; 7];
    let data: Vec<u8> = (0..1201u32).map(|i| (i % 256) as u8).collect();

    let ct = run_encrypt(cipher, key, &nonce, &data).unwrap();
    // Two full 516-byte chunks covering 1000 bytes, then 201 + 16 bytes.
    assert_eq!(ct.len(), 2 * 516 + 217);

    let back = run_decrypt(cipher, key, &nonce, &ct).unwrap();
    assert_eq!(data, back);

    // The same inputs seal to the same stream: the engine is deterministic.
    let ct2 = run_encrypt(cipher, key, &nonce, &data).unwrap();
    assert_eq!(ct, ct2);
}

#[test]
fn failure_emits_only_verified_chunks() {
    let cipher = Cipher::Chacha8Poly1305;
    let (key, nonce) = random_material(cipher);
    let mut data = vec![0u8; 1201];
    OsRng.fill_bytes(&mut data);
    let ct = run_encrypt(cipher, &key, &nonce, &data).unwrap();
    // Corrupt the second full chunk: the first still authenticates and
    // is emitted; nothing derived from the corrupted one may follow.
    let mut bad = ct.clone();
    bad[516] ^= 1;
    let out = Rc::new(RefCell::new(Vec::new()));
    let mut input = Input::new(SliceSource { inner: bad, pos: 0 });
    let mut output = Output::new(VecSink { inner: out.clone() });
    let mut buf = vec![0u8; BUFFER_LEN_DEC];
    let nread = input.read(&mut buf).unwrap();
    let res = decrypt(cipher, &key, &nonce, &mut input, &mut output, buf, nread);
    assert!(matches!(res, Err(Error::Aead)));
    drop(output);
    let emitted = Rc::try_unwrap(out).unwrap().into_inner();
    assert_eq!(&data[..500], &emitted[..]);
}
