use vstd::prelude::*;

use argon2::{Config, ThreadMode, Variant, Version};

use crate::cli::{ArgonVariant, ArgonVersion, CfgHash};
use crate::error::{Error, HashError};
use crate::secret::{guard_bytes, guarded_bytes, GuardedBytes};
use vstd::string::StringSliceAdditionalSpecFns;

verus! {

/// The key that the memory-hard password-hashing function derives.  It
/// depends on nothing but the listed arguments; its inner workings are
/// not modelled, only named.
pub uninterp spec fn argon2_key(
    variant: u8,
    version: u8,
    lanes: u32,
    memory: u32,
    time: u32,
    pwd: Seq<u8>,
    salt: Seq<u8>,
    key_len: u32,
) -> Seq<u8>;

/// The parameter sets the password-hashing function accepts, given a salt
/// of at least 8 and at most `u32::MAX` bytes and a password of at most
/// `u32::MAX` bytes: at least one lane and no more than 2^24 - 1, at
/// least 8 KiB of memory and enough for 8 blocks per lane, at least one
/// pass, and at least 4 bytes of output.
pub open spec fn spec_params_ok(lanes: u32, memory: u32, time: u32, key_len: u32) -> bool {
    &&& 1 <= lanes <= 0xFFFFFF
    &&& memory >= 8
    &&& memory >= 8 * (lanes as int)
    &&& time >= 1
    &&& key_len >= 4
}

/// The distinct error reported for an invalid derivation input, in the
/// order the checks are made: lane count, memory, passes, password and
/// salt lengths, output length.
pub open spec fn spec_derive_err(
    lanes: u32,
    memory: u32,
    time: u32,
    pwd_len: nat,
    salt_len: nat,
    key_len: u32,
) -> HashError {
    if lanes < 1 {
        HashError::LanesTooFew
    } else if lanes > 0xFFFFFF {
        HashError::LanesTooMany
    } else if memory < 8 {
        HashError::MemoryTooLittle
    } else if memory < 8 * (lanes as int) {
        HashError::MemoryTooLittle
    } else if time < 1 {
        HashError::TimeTooSmall
    } else if pwd_len > 0xFFFFFFFF {
        HashError::PwdTooLong
    } else if salt_len < 8 {
        HashError::SaltTooShort
    } else if salt_len > 0xFFFFFFFF {
        HashError::SaltTooLong
    } else {
        HashError::OutputTooShort
    }
}

/// Relies on argon2::hash_raw: the derived key is a pure function of the
/// variant, version, cost parameters, password, salt and output length,
/// has exactly the requested length, and derivation succeeds whenever the
/// parameters lie inside the documented limits (which `spec_params_ok`
/// restates) and the password and salt lengths are admissible.  The
/// memory ceiling restated here is the crate's on targets with 64-bit
/// pointers; on a 32-bit target the crate caps memory at 0x200000 KiB
/// and this wrapper would have to bound `memory` the same way.
#[verifier::external_body]
fn argon2_hash_raw(
    variant: ArgonVariant,
    version: ArgonVersion,
    lanes: u32,
    memory: u32,
    time: u32,
    pwd: &[u8],
    salt: &[u8],
    key_len: u32,
) -> (r: Vec<u8>)
    requires
        spec_params_ok(lanes, memory, time, key_len),
        8 <= salt@.len() <= 0xFFFFFFFF,
        pwd@.len() <= 0xFFFFFFFF,
    ensures
        r@ == argon2_key(
            variant.spec_type_id(),
            version.spec_type_id(),
            lanes,
            memory,
            time,
            pwd@,
            salt@,
            key_len,
        ),
        r@.len() == key_len,
{
    let variant = match variant {
        ArgonVariant::Argon2i => Variant::Argon2i,
        ArgonVariant::Argon2d => Variant::Argon2d,
        ArgonVariant::Argon2id => Variant::Argon2id,
    };
    let version = match version {
        ArgonVersion::Ver10 => Version::Version10,
        ArgonVersion::Ver13 => Version::Version13,
    };
    let config = Config {
        ad: &[], hash_length: key_len, lanes, mem_cost: memory, secret: &[],
        thread_mode: ThreadMode::Parallel, time_cost: time, variant, version,
    };
    argon2::hash_raw(pwd, salt, &config).expect("parameters are in range")
}

/// The key `make_key` derives from a parameter set, password bytes and salt.
pub open spec fn spec_derived_key(cfg: CfgHash, pwd: Seq<u8>, salt: Seq<u8>, key_size: u32) -> Seq<
    u8,
> {
    argon2_key(
        cfg.hash_var.spec_type_id(),
        cfg.hash_ver.spec_type_id(),
        cfg.lanes,
        cfg.memory,
        cfg.time,
        pwd,
        salt,
        key_size,
    )
}

/// The inputs on which key derivation is owed to succeed.
pub open spec fn spec_derive_ok(cfg: CfgHash, pwd_len: nat, salt_len: nat, key_size: u32) -> bool {
    &&& spec_params_ok(cfg.lanes, cfg.memory, cfg.time, key_size)
    &&& pwd_len <= 0xFFFFFFFF
    &&& 8 <= salt_len <= 0xFFFFFFFF
}

/// Derive `key_size` bytes of key material from the password and salt
/// under the given cost parameters.  Invalid parameters are rejected with
/// the distinct reason, never clamped.  The key comes back in a
/// scrub-on-drop buffer, zeroed once the caller is done with it.
pub fn make_key(cfg: &CfgHash, password: &str, salt: &[u8], key_size: u32) -> (r: Result<
    GuardedBytes,
    Error,
>)
    ensures
        r is Ok <==> spec_derive_ok(*cfg, password.spec_bytes().len(), salt@.len(), key_size),
        r is Ok ==> guarded_bytes(r->Ok_0) == spec_derived_key(
            *cfg,
            password.spec_bytes(),
            salt@,
            key_size,
        ) && guarded_bytes(r->Ok_0).len() == key_size,
        r is Err ==> r->Err_0 == Error::Hash(
            spec_derive_err(
                cfg.lanes,
                cfg.memory,
                cfg.time,
                password.spec_bytes().len(),
                salt@.len(),
                key_size,
            ),
        ),
{
    let pwd = password.as_bytes();
    if cfg.lanes < 1 {
        return Err(Error::make_hash(HashError::LanesTooFew));
    }
    if cfg.lanes > 0xFFFFFF {
        return Err(Error::make_hash(HashError::LanesTooMany));
    }
    if cfg.memory < 8 {
        return Err(Error::make_hash(HashError::MemoryTooLittle));
    }
    if cfg.memory < 8 * cfg.lanes {
        return Err(Error::make_hash(HashError::MemoryTooLittle));
    }
    if cfg.time < 1 {
        return Err(Error::make_hash(HashError::TimeTooSmall));
    }
    if pwd.len() > 0xFFFFFFFFusize {
        return Err(Error::make_hash(HashError::PwdTooLong));
    }
    if salt.len() < 8 {
        return Err(Error::make_hash(HashError::SaltTooShort));
    }
    if salt.len() > 0xFFFFFFFFusize {
        return Err(Error::make_hash(HashError::SaltTooLong));
    }
    if key_size < 4 {
        return Err(Error::make_hash(HashError::OutputTooShort));
    }
    Ok(guard_bytes(argon2_hash_raw(cfg.hash_var, cfg.hash_ver, cfg.lanes, cfg.memory, cfg.time, pwd, salt, key_size)))
}

/// Key derivation is deterministic: identical parameter sets, passwords,
/// salts and output lengths always yield the identical key.
pub proof fn lemma_derive_deterministic(
    cfg1: CfgHash,
    cfg2: CfgHash,
    pwd1: Seq<u8>,
    pwd2: Seq<u8>,
    salt1: Seq<u8>,
    salt2: Seq<u8>,
    n1: u32,
    n2: u32,
)
    requires
        cfg1 == cfg2,
        pwd1 == pwd2,
        salt1 == salt2,
        n1 == n2,
    ensures
        spec_derived_key(cfg1, pwd1, salt1, n1) == spec_derived_key(cfg2, pwd2, salt2, n2),
{
}

} // verus!
