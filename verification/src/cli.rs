use vstd::prelude::*;

use crate::error::Error;

verus! {

/// Top-level invocation: one of the two commands.
pub struct Cli {
    pub command: Commands,
}

pub enum Commands {
    Encrypt(Encrypt),
    Decrypt(Decrypt),
}

/// Settings of an encryption run.
pub struct Encrypt {
    pub io: CfgIo,
    pub cipher: Cipher,
    pub hash: CfgHash,
    pub rand: CfgRand,
    pub pwd_cli: Option<String>,
}

/// Settings of a decryption run.
pub struct Decrypt {
    pub io: CfgIo,
    pub pwd_cli: Option<String>,
}

/// Where the data comes from and goes to: `None` stands for the standard
/// streams, `Some(path)` for a file.  `fspec` selects a separate artifact
/// for the stream description header.
pub struct CfgIo {
    pub fin: Option<String>,
    pub fout: Option<String>,
    pub fspec: Option<String>,
}

/// Key-derivation cost parameters.
#[derive(Clone, Copy, PartialEq, Eq, Structural, Debug)]
pub struct CfgHash {
    pub hash_var: ArgonVariant,
    pub hash_ver: ArgonVersion,
    pub lanes: u32,
    pub memory: u32,
    pub time: u32,
}

/// How the salt and the base nonce are supplied: an explicit argument,
/// an interactive prompt, or (neither set) fresh random bytes.
pub struct CfgRand {
    pub salt_cli: Option<String>,
    pub salt: bool,
    pub nonce_cli: Option<String>,
    pub nonce: bool,
}

/// The password-hashing mixing variant.
#[derive(Copy, Clone, PartialEq, Eq, Structural, PartialOrd, Ord, Debug)]
pub enum ArgonVariant {
    Argon2i,
    Argon2d,
    Argon2id,
}

impl ArgonVariant {
    /// The stable wire identifier of this variant.
    pub open spec fn spec_type_id(self) -> u8 {
        match self {
            ArgonVariant::Argon2i => 0,
            ArgonVariant::Argon2d => 1,
            ArgonVariant::Argon2id => 2,
        }
    }

    /// The variant with the given wire identifier.
    pub open spec fn spec_of_type_id(type_id: u8) -> ArgonVariant {
        if type_id == 0 {
            ArgonVariant::Argon2i
        } else if type_id == 1 {
            ArgonVariant::Argon2d
        } else {
            ArgonVariant::Argon2id
        }
    }

    pub fn from_type_id(type_id: u8) -> (r: Result<Self, Error>)
        ensures
            r is Ok <==> type_id < 3,
            r is Ok ==> r->Ok_0 == Self::spec_of_type_id(type_id) && r->Ok_0.spec_type_id()
                == type_id,
            r is Err ==> (r->Err_0 matches Error::Spec(m) && m@ == "unable to define hash variant"@),
    {
        let res = match type_id {
            0 => Self::Argon2i,
            1 => Self::Argon2d,
            2 => Self::Argon2id,
            _ => {
                return Err(Error::Spec("unable to define hash variant".to_owned()));
            },
        };
        Ok(res)
    }

    pub fn get_type_id(&self) -> (r: u8)
        ensures
            r == self.spec_type_id(),
    {
        match self {
            Self::Argon2i => 0,
            Self::Argon2d => 1,
            Self::Argon2id => 2,
        }
    }
}

/// The password-hashing algorithm revision.
#[derive(Copy, Clone, PartialEq, Eq, Structural, PartialOrd, Ord, Debug)]
pub enum ArgonVersion {
    Ver10,
    Ver13,
}

impl ArgonVersion {
    /// The stable wire identifier of this revision.
    pub open spec fn spec_type_id(self) -> u8 {
        match self {
            ArgonVersion::Ver10 => 0,
            ArgonVersion::Ver13 => 1,
        }
    }

    /// The revision with the given wire identifier.
    pub open spec fn spec_of_type_id(type_id: u8) -> ArgonVersion {
        if type_id == 0 {
            ArgonVersion::Ver10
        } else {
            ArgonVersion::Ver13
        }
    }

    pub fn from_type_id(type_id: u8) -> (r: Result<Self, Error>)
        ensures
            r is Ok <==> type_id < 2,
            r is Ok ==> r->Ok_0 == Self::spec_of_type_id(type_id) && r->Ok_0.spec_type_id()
                == type_id,
            r is Err ==> (r->Err_0 matches Error::Spec(m) && m@ == "unable to define hash version"@),
    {
        let res = match type_id {
            0 => Self::Ver10,
            1 => Self::Ver13,
            _ => {
                return Err(Error::Spec("unable to define hash version".to_owned()));
            },
        };
        Ok(res)
    }

    pub fn get_type_id(&self) -> (r: u8)
        ensures
            r == self.spec_type_id(),
    {
        match self {
            Self::Ver10 => 0,
            Self::Ver13 => 1,
        }
    }
}

/// The closed set of supported authenticated-cipher suites.  The wire
/// identifiers are persisted inside ciphertext headers and are never
/// reused for a different suite.
#[derive(Copy, Clone, PartialEq, Eq, Structural, PartialOrd, Ord, Debug)]
pub enum Cipher {
    XChacha20Poly1305,
    XChacha12Poly1305,
    XChacha8Poly1305,
    Chacha20Poly1305,
    Chacha12Poly1305,
    Chacha8Poly1305,
    Aes256Gcm,
    Aes128Gcm,
}

impl Cipher {
    /// The stable wire identifier of this suite.
    pub open spec fn spec_type_id(self) -> u8 {
        match self {
            Cipher::XChacha20Poly1305 => 0,
            Cipher::XChacha12Poly1305 => 1,
            Cipher::XChacha8Poly1305 => 2,
            Cipher::Chacha20Poly1305 => 3,
            Cipher::Chacha12Poly1305 => 4,
            Cipher::Chacha8Poly1305 => 5,
            Cipher::Aes256Gcm => 6,
            Cipher::Aes128Gcm => 7,
        }
    }

    /// The key length, in bytes, that this suite demands.
    pub open spec fn spec_key_len(self) -> u32 {
        match self {
            Cipher::Aes128Gcm => 16,
            _ => 32,
        }
    }

    /// The native nonce length of the cipher, in bytes.  The chunk engine
    /// reserves the last 5 of these for its counter and final-chunk flag,
    /// so callers supply `spec_nonce_len() - 5` base-nonce bytes.
    pub open spec fn spec_nonce_len(self) -> usize {
        match self {
            Cipher::XChacha20Poly1305 => 24,
            Cipher::XChacha12Poly1305 => 24,
            Cipher::XChacha8Poly1305 => 24,
            _ => 12,
        }
    }

    /// The suite with the given wire identifier, if any.
    pub open spec fn spec_of_type_id(type_id: u8) -> Cipher {
        if type_id == 0 {
            Cipher::XChacha20Poly1305
        } else if type_id == 1 {
            Cipher::XChacha12Poly1305
        } else if type_id == 2 {
            Cipher::XChacha8Poly1305
        } else if type_id == 3 {
            Cipher::Chacha20Poly1305
        } else if type_id == 4 {
            Cipher::Chacha12Poly1305
        } else if type_id == 5 {
            Cipher::Chacha8Poly1305
        } else if type_id == 6 {
            Cipher::Aes256Gcm
        } else {
            Cipher::Aes128Gcm
        }
    }

    /// Returns cipher type by type_id
    pub fn from_type_id(type_id: u8) -> (r: Result<Self, Error>)
        ensures
            r is Ok <==> type_id < 8,
            r is Ok ==> r->Ok_0 == Self::spec_of_type_id(type_id),
            r is Err ==> (r->Err_0 matches Error::Spec(m) && m@ == "unable to define cipher type"@),
    {
        let res = match type_id {
            0 => Self::XChacha20Poly1305,
            1 => Self::XChacha12Poly1305,
            2 => Self::XChacha8Poly1305,
            3 => Self::Chacha20Poly1305,
            4 => Self::Chacha12Poly1305,
            5 => Self::Chacha8Poly1305,
            6 => Self::Aes256Gcm,
            7 => Self::Aes128Gcm,
            _ => {
                return Err(Error::Spec("unable to define cipher type".to_owned()));
            },
        };
        Ok(res)
    }

    /// Returns (type_id, key_size, nonce_size)
    pub fn get_spec(&self) -> (r: (u8, u32, usize))
        ensures
            r.0 == self.spec_type_id(),
            r.1 == self.spec_key_len(),
            r.2 == self.spec_nonce_len(),
    {
        match self {
            Self::XChacha20Poly1305 => (0, 32, 24),
            Self::XChacha12Poly1305 => (1, 32, 24),
            Self::XChacha8Poly1305 => (2, 32, 24),
            Self::Chacha20Poly1305 => (3, 32, 12),
            Self::Chacha12Poly1305 => (4, 32, 12),
            Self::Chacha8Poly1305 => (5, 32, 12),
            Self::Aes256Gcm => (6, 32, 12),
            Self::Aes128Gcm => (7, 16, 12),
        }
    }
}

/// Wire identifiers round-trip: every suite is recovered from its own
/// identifier.
pub proof fn lemma_cipher_id_round_trip(c: Cipher)
    ensures
        Cipher::spec_of_type_id(c.spec_type_id()) == c,
{
}

} // verus!
