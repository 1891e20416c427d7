use vstd::prelude::*;

verus! {

/// Reasons the key-derivation function can reject a parameter set.
/// The variants mirror, one for one, the errors of `argon2::Error` so that
/// a caller can see exactly which limit was violated.
#[derive(Clone, Copy, PartialEq, Eq, Structural, Debug)]
pub enum HashError {
    OutputTooShort,
    OutputTooLong,
    PwdTooShort,
    PwdTooLong,
    SaltTooShort,
    SaltTooLong,
    AdTooShort,
    AdTooLong,
    SecretTooShort,
    SecretTooLong,
    TimeTooSmall,
    TimeTooLarge,
    MemoryTooLittle,
    MemoryTooMuch,
    LanesTooFew,
    LanesTooMany,
    IncorrectType,
    IncorrectVersion,
    DecodingFail,
}

/// Every failure the library reports.
///
/// `Io` carries the message of a source or sink failure; `Aead` marks an
/// authentication failure (or a chunk counter that ran out); `Arg` a
/// caller-supplied secret that is too short; `Hash` an invalid derivation
/// parameter set; `Spec` a malformed stream description header.
#[derive(PartialEq, Eq, Debug)]
pub enum Error {
    Io(String),
    Aead,
    Arg(String),
    Hash(HashError),
    Spec(String),
}

impl Error {
    pub fn make_io(msg: String) -> (r: Self)
        ensures
            r == Error::Io(msg),
    {
        Self::Io(msg)
    }

    pub fn make_aead() -> (r: Self)
        ensures
            r == Error::Aead,
    {
        Self::Aead
    }

    pub fn make_arg(msg: String) -> (r: Self)
        ensures
            r == Error::Arg(msg),
    {
        Self::Arg(msg)
    }

    pub fn make_hash(err: HashError) -> (r: Self)
        ensures
            r == Error::Hash(err),
    {
        Self::Hash(err)
    }

    pub fn make_spec(msg: String) -> (r: Self)
        ensures
            r == Error::Spec(msg),
    {
        Self::Spec(msg)
    }
}

} // verus!
