use std::cell::RefCell;
use std::cmp::min;
use std::rc::Rc;

use streamcrypt::cli::{ArgonVariant, ArgonVersion, CfgHash, CfgRand, Cipher};
use streamcrypt::command::{decrypt, encrypt};
use streamcrypt::io::{ByteSink, ByteSource, Control, Input, IoFault, Output, SecretPrompt};

/// A byte source that shares one buffer and one read position with other
/// sources, the way a header reader and a chunk reader share one file.
struct SharedSource {
    inner: Rc<RefCell<(Vec<u8>, usize)>>,
}

impl ByteSource for SharedSource {
    fn read_at(&mut self, buf: &mut Vec<u8>, start: usize) -> Result<usize, IoFault> {
        let mut inner = self.inner.borrow_mut();
        let pos = inner.1;
        let n = min(buf.len() - start, inner.0.len() - pos);
        buf[start..start + n].copy_from_slice(&inner.0[pos..pos + n]);
        inner.1 = pos + n;
        Ok(n)
    }
}

struct SharedSink {
    inner: Rc<RefCell<Vec<u8>>>,
}

impl ByteSink for SharedSink {
    fn write_from(&mut self, buf: &[u8], start: usize) -> Result<usize, IoFault> {
        self.inner.borrow_mut().extend_from_slice(&buf[start..]);
        Ok(buf.len() - start)
    }
}

struct MockPrompt(fn(&str) -> Result<String, String>);

impl SecretPrompt for MockPrompt {
    fn prompt_line(&self, request: &str) -> Result<String, String> {
        (self.0)(request)
    }
}

fn small_cfg() -> CfgHash {
    CfgHash {
        hash_var: ArgonVariant::Argon2id,
        hash_ver: ArgonVersion::Ver13,
        lanes: 1,
        memory: 8,
        time: 1,
    }
}

fn pipeline(cipher: Cipher, data: &[u8], cfg_rand: CfgRand, inline_header: bool) -> Vec<u8> {
    let ctrl = Control::new(MockPrompt(|_| Err("no terminal in tests".to_string())));

    // Encrypt: header and chunk stream either share one destination or use two.
    let ct = Rc::new(RefCell::new(Vec::new()));
    let header = if inline_header {
        ct.clone()
    } else {
        Rc::new(RefCell::new(Vec::new()))
    };
    {
        let mut input = Input::new(SharedSource {
            inner: Rc::new(RefCell::new((data.to_vec(), 0))),
        });
        let mut output = Output::new(SharedSink { inner: ct.clone() });
        let mut spec_out = Output::new(SharedSink {
            inner: header.clone(),
        });
        encrypt(
            cipher,
            Some("hunter2".to_string()),
            small_cfg(),
            cfg_rand,
            &ctrl,
            &mut input,
            &mut output,
            &mut spec_out,
        )
        .unwrap();
    }

    // Decrypt: the header reader and the chunk reader share a cursor when
    // the header sits in front of the chunk stream.
    let plain = Rc::new(RefCell::new(Vec::new()));
    {
        let ct_cursor = Rc::new(RefCell::new((ct.borrow().clone(), 0usize)));
        let mut input = Input::new(SharedSource {
            inner: ct_cursor.clone(),
        });
        let mut spec_in = if inline_header {
            Input::new(SharedSource { inner: ct_cursor })
        } else {
            Input::new(SharedSource {
                inner: Rc::new(RefCell::new((header.borrow().clone(), 0usize))),
            })
        };
        let mut output = Output::new(SharedSink {
            inner: plain.clone(),
        });
        decrypt(
            Some("hunter2".to_string()),
            &ctrl,
            &mut input,
            &mut output,
            &mut spec_in,
        )
        .unwrap();
    }
    let out = plain.borrow().clone();
    out
}

#[test]
fn command_round_trip_inline_header() {
    let data: Vec<u8> = (0..1201u32).map(|i| (i * 7 % 256) as u8).collect();
    let cfg_rand = CfgRand {
        salt_cli: Some("a salt that is at least 32 bytes long...".to_string()),
        salt: false,
        nonce_cli: Some("nonce material, at least 19 bytes".to_string()),
        nonce: false,
    };
    let back = pipeline(Cipher::XChacha20Poly1305, &data, cfg_rand, true);
    assert_eq!(data, back);
}

#[test]
fn command_round_trip_side_header_random_secrets() {
    let data: Vec<u8> = (0..777u32).map(|i| (i * 31 % 256) as u8).collect();
    let cfg_rand = CfgRand {
        salt_cli: None,
        salt: false,
        nonce_cli: None,
        nonce: false,
    };
    let back = pipeline(Cipher::Aes128Gcm, &data, cfg_rand, false);
    assert_eq!(data, back);
}

#[test]
fn command_round_trip_empty_stream() {
    let cfg_rand = CfgRand {
        salt_cli: None,
        salt: false,
        nonce_cli: None,
        nonce: false,
    };
    let back = pipeline(Cipher::Chacha12Poly1305, &[], cfg_rand, true);
    assert_eq!(back.len(), 0);
}

#[test]
fn command_rejects_wrong_password() {
    let ctrl = Control::new(MockPrompt(|_| Err("no terminal in tests".to_string())));
    let data = vec![5u8; 100];
    let ct = Rc::new(RefCell::new(Vec::new()));
    {
        let mut input = Input::new(SharedSource {
            inner: Rc::new(RefCell::new((data, 0))),
        });
        let mut output = Output::new(SharedSink { inner: ct.clone() });
        let mut spec_out = Output::new(SharedSink { inner: ct.clone() });
        encrypt(
            Cipher::Aes256Gcm,
            Some("right password".to_string()),
            small_cfg(),
            CfgRand {
                salt_cli: None,
                salt: false,
                nonce_cli: None,
                nonce: false,
            },
            &ctrl,
            &mut input,
            &mut output,
            &mut spec_out,
        )
        .unwrap();
    }
    let ct_cursor = Rc::new(RefCell::new((ct.borrow().clone(), 0usize)));
    let mut input = Input::new(SharedSource {
        inner: ct_cursor.clone(),
    });
    let mut spec_in = Input::new(SharedSource { inner: ct_cursor });
    let plain = Rc::new(RefCell::new(Vec::new()));
    let mut output = Output::new(SharedSink {
        inner: plain.clone(),
    });
    let res = decrypt(
        Some("wrong password".to_string()),
        &ctrl,
        &mut input,
        &mut output,
        &mut spec_in,
    );
    assert!(matches!(res, Err(streamcrypt::error::Error::Aead)));
    assert_eq!(plain.borrow().len(), 0);
}

#[test]
fn command_short_salt_argument_is_rejected() {
    let ctrl = Control::new(MockPrompt(|_| Err("no terminal in tests".to_string())));
    let sink = Rc::new(RefCell::new(Vec::new()));
    let mut input = Input::new(SharedSource {
        inner: Rc::new(RefCell::new((vec![1u8; 10], 0))),
    });
    let mut output = Output::new(SharedSink {
        inner: sink.clone(),
    });
    let mut spec_out = Output::new(SharedSink { inner: sink });
    let res = encrypt(
        Cipher::XChacha20Poly1305,
        Some("pw".to_string()),
        small_cfg(),
        CfgRand {
            salt_cli: Some("short".to_string()),
            salt: false,
            nonce_cli: None,
            nonce: false,
        },
        &ctrl,
        &mut input,
        &mut output,
        &mut spec_out,
    );
    match res {
        Err(streamcrypt::error::Error::Arg(m)) => {
            assert_eq!(m, "salt shoud be at least 32 bytes");
        },
        _ => panic!("a 5-byte salt argument must be rejected"),
    }
}
