//! Account data framing: an eight-byte discriminator followed by the
//! account's fixed-size layout.

use vstd::prelude::*;

use crate::bindings::{sha256, sha256_digest};
use crate::dz::AccountLayout;

verus! {

pub const DISCRIMINATOR_LEN: usize = 8;

/// The discriminator of `input`: the first eight bytes of its SHA-256 digest.
pub open spec fn spec_discriminator(input: Seq<u8>) -> Seq<u8> {
    sha256_digest(input).subrange(0, 8)
}

pub fn discriminator(input: &[u8]) -> (r: [u8; DISCRIMINATOR_LEN])
    ensures
        r@ == spec_discriminator(input@),
{
    let digest = sha256(input);
    let mut out = [0u8; DISCRIMINATOR_LEN];
    let mut i: usize = 0;
    while i < DISCRIMINATOR_LEN
        invariant
            i <= DISCRIMINATOR_LEN,
            digest@ == sha256_digest(input@),
            out@.len() == DISCRIMINATOR_LEN,
            forall|j: int| 0 <= j < i ==> out@[j] == digest@[j],
        decreases DISCRIMINATOR_LEN - i,
    {
        out[i] = digest[i];
        i = i + 1;
    }
    assert(out@ =~= spec_discriminator(input@));
    out
}

/// Why account data could not be read as an account.
#[derive(Debug, Clone, Copy, PartialEq, Eq, Structural)]
pub enum AccountDataError {
    TooShortForDiscriminator,
    DiscriminatorMismatch,
    TooShortForStruct,
}

impl AccountDataError {
    /// The error's text.
    pub fn message(&self) -> (r: &'static str)
        ensures
            r@ == match *self {
                AccountDataError::TooShortForDiscriminator => "account data too short for discriminator"@,
                AccountDataError::DiscriminatorMismatch => "discriminator mismatch"@,
                AccountDataError::TooShortForStruct => "account data too short for struct"@,
            },
    {
        match self {
            AccountDataError::TooShortForDiscriminator => "account data too short for discriminator",
            AccountDataError::DiscriminatorMismatch => "discriminator mismatch",
            AccountDataError::TooShortForStruct => "account data too short for struct",
        }
    }
}

/// The error, if any, of reading `data` as an account of `len` bytes whose
/// discriminator is `expected`.
pub open spec fn account_data_error(data: Seq<u8>, expected: Seq<u8>, len: nat) -> Option<AccountDataError> {
    if data.len() < DISCRIMINATOR_LEN {
        Some(AccountDataError::TooShortForDiscriminator)
    } else if data.subrange(0, DISCRIMINATOR_LEN as int) != expected {
        Some(AccountDataError::DiscriminatorMismatch)
    } else if data.len() - DISCRIMINATOR_LEN < len {
        Some(AccountDataError::TooShortForStruct)
    } else {
        None
    }
}

/// Whether the first eight bytes of `data` are `expected`.
fn discriminator_matches(data: &[u8], expected: &[u8; DISCRIMINATOR_LEN]) -> (r: bool)
    requires
        data@.len() >= DISCRIMINATOR_LEN,
    ensures
        r == (data@.subrange(0, DISCRIMINATOR_LEN as int) == expected@),
{
    let mut i: usize = 0;
    while i < DISCRIMINATOR_LEN
        invariant
            i <= DISCRIMINATOR_LEN,
            data@.len() >= DISCRIMINATOR_LEN,
            forall|j: int| 0 <= j < i ==> data@[j] == expected@[j],
        decreases DISCRIMINATOR_LEN - i,
    {
        if data[i] != expected[i] {
            assert(data@.subrange(0, DISCRIMINATOR_LEN as int)[i as int] != expected@[i as int]);
            return false;
        }
        i = i + 1;
    }
    assert(data@.subrange(0, DISCRIMINATOR_LEN as int) =~= expected@);
    true
}

/// Reads `data` as an account of type `T`: its first eight bytes must be
/// `expected` and the layout of `T` must follow them.
pub fn checked_from_bytes_with_discriminator<T: AccountLayout>(
    data: &[u8],
    expected: [u8; DISCRIMINATOR_LEN],
) -> (r: Result<T, AccountDataError>)
    ensures
        match account_data_error(data@, expected@, T::spec_layout_len()) {
            Some(e) => r == Err::<T, AccountDataError>(e),
            None => r matches Ok(v) && v.is_layout_of(data@, DISCRIMINATOR_LEN as int),
        },
{
    if data.len() < DISCRIMINATOR_LEN {
        return Err(AccountDataError::TooShortForDiscriminator);
    }
    if !discriminator_matches(data, &expected) {
        return Err(AccountDataError::DiscriminatorMismatch);
    }
    let expected_len = T::layout_len();
    if data.len() - DISCRIMINATOR_LEN < expected_len {
        return Err(AccountDataError::TooShortForStruct);
    }
    Ok(T::decode_at(data, DISCRIMINATOR_LEN))
}

} // verus!
