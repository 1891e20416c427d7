use streamcrypt::cli::{ArgonVariant, ArgonVersion, CfgHash};
use streamcrypt::error::{Error, HashError};
use streamcrypt::hash::make_key;
use streamcrypt::secret::{bytes_of, GuardedBytes};

fn small_cfg() -> CfgHash {
    CfgHash {
        hash_var: ArgonVariant::Argon2id,
        hash_ver: ArgonVersion::Ver13,
        lanes: 1,
        memory: 8,
        time: 1,
    }
}

fn expect_hash_err(r: Result<GuardedBytes, Error>, expected: HashError) {
    match r {
        Err(Error::Hash(h)) => assert_eq!(h, expected),
        other => panic!("expected a derivation error, got {:?}", other.map(|k| bytes_of(&k).len())),
    }
}

#[test]
fn derive_is_deterministic() {
    let cfg = small_cfg();
    let salt = [9u8; 32];
    let a = make_key(&cfg, "open sesame", &salt, 32).unwrap();
    let b = make_key(&cfg, "open sesame", &salt, 32).unwrap();
    assert_eq!(bytes_of(&a), bytes_of(&b));
    assert_eq!(bytes_of(&a).len(), 32);
}

#[test]
fn derive_depends_on_every_input() {
    let cfg = small_cfg();
    let salt = [9u8; 32];
    let base = make_key(&cfg, "open sesame", &salt, 32).unwrap();

    let other_pwd = make_key(&cfg, "open sesame!", &salt, 32).unwrap();
    assert_ne!(base, other_pwd);

    let mut other_salt = salt;
    other_salt[31] ^= 1;
    assert_ne!(base, make_key(&cfg, "open sesame", &other_salt, 32).unwrap());

    let mut cfg_lanes = small_cfg();
    cfg_lanes.lanes = 2;
    cfg_lanes.memory = 16;
    let base16 = make_key(
        &CfgHash {
            memory: 16,
            ..small_cfg()
        },
        "open sesame",
        &salt,
        32,
    )
    .unwrap();
    assert_ne!(base16, make_key(&cfg_lanes, "open sesame", &salt, 32).unwrap());

    let mut cfg_mem = small_cfg();
    cfg_mem.memory = 16;
    assert_ne!(base, make_key(&cfg_mem, "open sesame", &salt, 32).unwrap());

    let mut cfg_time = small_cfg();
    cfg_time.time = 2;
    assert_ne!(base, make_key(&cfg_time, "open sesame", &salt, 32).unwrap());

    let mut cfg_var = small_cfg();
    cfg_var.hash_var = ArgonVariant::Argon2i;
    assert_ne!(base, make_key(&cfg_var, "open sesame", &salt, 32).unwrap());

    let mut cfg_ver = small_cfg();
    cfg_ver.hash_ver = ArgonVersion::Ver10;
    assert_ne!(base, make_key(&cfg_ver, "open sesame", &salt, 32).unwrap());

    let short = make_key(&cfg, "open sesame", &salt, 16).unwrap();
    assert_ne!(bytes_of(&base)[..16], bytes_of(&short)[..]);
}

#[test]
fn derive_key_lengths() {
    let cfg = small_cfg();
    let salt = [1u8; 32];
    for len in [4u32, 16, 32, 64] {
        let key = make_key(&cfg, "pw", &salt, len).unwrap();
        assert_eq!(bytes_of(&key).len(), len as usize);
    }
}

#[test]
fn derive_rejects_zero_lanes() {
    let mut cfg = small_cfg();
    cfg.lanes = 0;
    expect_hash_err(make_key(&cfg, "pw", &[1u8; 32], 32), HashError::LanesTooFew);
}

#[test]
fn derive_rejects_too_many_lanes() {
    let mut cfg = small_cfg();
    cfg.lanes = 0x1000000;
    expect_hash_err(make_key(&cfg, "pw", &[1u8; 32], 32), HashError::LanesTooMany);
}

#[test]
fn derive_rejects_small_memory() {
    let mut cfg = small_cfg();
    cfg.memory = 7;
    expect_hash_err(
        make_key(&cfg, "pw", &[1u8; 32], 32),
        HashError::MemoryTooLittle,
    );
}

#[test]
fn derive_rejects_memory_below_lanes() {
    let mut cfg = small_cfg();
    cfg.lanes = 4;
    cfg.memory = 31;
    expect_hash_err(
        make_key(&cfg, "pw", &[1u8; 32], 32),
        HashError::MemoryTooLittle,
    );
}

#[test]
fn derive_rejects_zero_passes() {
    let mut cfg = small_cfg();
    cfg.time = 0;
    expect_hash_err(make_key(&cfg, "pw", &[1u8; 32], 32), HashError::TimeTooSmall);
}

#[test]
fn derive_rejects_short_output() {
    expect_hash_err(
        make_key(&small_cfg(), "pw", &[1u8; 32], 3),
        HashError::OutputTooShort,
    );
}

#[test]
fn derive_rejects_short_salt() {
    expect_hash_err(
        make_key(&small_cfg(), "pw", &[1u8; 7], 32),
        HashError::SaltTooShort,
    );
}
