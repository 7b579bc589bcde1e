//! Calls into outside crates. Each function here is trusted: Verus takes its
//! contract without reading its body, and its doc comment says what the
//! contract claims of the outside function.

use base64::Engine;
use sha2::Digest;
use vstd::prelude::*;

use crate::dz::Pubkey;
use crate::text::decimal_digits;

verus! {

/// The outcome of `solana_program::pubkey::Pubkey::try_find_program_address`
/// on `seeds` and `program_id`: the derived address and its bump seed.
pub uninterp spec fn program_address(seeds: Seq<Seq<u8>>, program_id: Seq<u8>) -> Option<(Seq<u8>, u8)>;

/// Calls `solana_program::pubkey::Pubkey::try_find_program_address`.
/// Claimed: the result, taken as plain values, is `program_address` of the
/// seeds and the program id; the function returns `None` where no bump seed
/// gives an address or the seeds break its limits, and never panics.
#[verifier::external_body]
pub(crate) fn try_find_program_address(seeds: &Vec<Vec<u8>>, program_id: &Pubkey) -> (r: Option<(Pubkey, u8)>)
    ensures
        crate::dz::address_outcome(r) == program_address(seeds.deep_view(), program_id.0@),
{
    let refs: Vec<&[u8]> = seeds.iter().map(|s| s.as_slice()).collect();
    let id = solana_program::pubkey::Pubkey::new_from_array(program_id.0);
    solana_program::pubkey::Pubkey::try_find_program_address(&refs, &id)
        .map(|(key, bump)| (Pubkey(key.to_bytes()), bump))
}

/// The SHA-256 digest of `data`, as computed by `sha2::Sha256::digest`.
pub uninterp spec fn sha256_digest(data: Seq<u8>) -> Seq<u8>;

/// Calls `sha2::Sha256::digest`. Claimed: the 32-byte result is
/// `sha256_digest` of the input bytes.
#[verifier::external_body]
pub(crate) fn sha256(data: &[u8]) -> (r: [u8; 32])
    ensures
        r@ == sha256_digest(data@),
{
    sha2::Sha256::digest(data).into()
}

/// The bytes that `base64::engine::general_purpose::STANDARD` decodes from
/// `input`, or `None` where it reports an error.
pub uninterp spec fn base64_standard_decoded(input: Seq<u8>) -> Option<Seq<u8>>;

#[verifier::external_type_specification]
#[verifier::external_body]
pub struct ExBase64DecodeError(base64::DecodeError);

/// Calls `base64::Engine::decode` on the standard engine (padded alphabet).
/// Claimed: it succeeds exactly where `base64_standard_decoded` is `Some`,
/// and then returns those bytes.
#[verifier::external_body]
pub(crate) fn base64_standard_decode(input: &[u8]) -> (r: Result<Vec<u8>, base64::DecodeError>)
    ensures
        r is Ok <==> base64_standard_decoded(input@) is Some,
        r matches Ok(v) ==> base64_standard_decoded(input@) == Some(v@),
{
    base64::engine::general_purpose::STANDARD.decode(input)
}

/// The base58 text of `bytes` as `bs58::encode(..).into_string()` writes it.
pub uninterp spec fn base58_encoded(bytes: Seq<u8>) -> Seq<char>;

/// Calls `bs58::encode(bytes).into_string()`. Claimed: the result is
/// `base58_encoded` of the bytes.
#[verifier::external_body]
pub(crate) fn base58_encode(bytes: &[u8]) -> (r: String)
    ensures
        r@ == base58_encoded(bytes@),
{
    bs58::encode(bytes).into_string()
}

/// The 32 bytes of the address that `Pubkey::from_str` reads from `s`, or
/// `None` where it reports an error.
pub uninterp spec fn parsed_pubkey(s: Seq<char>) -> Option<Seq<u8>>;

#[verifier::external_type_specification]
#[verifier::external_body]
pub struct ExParsePubkeyError(solana_program::pubkey::ParsePubkeyError);

/// Calls `<solana_program::pubkey::Pubkey as FromStr>::from_str`. Claimed: it
/// succeeds exactly where `parsed_pubkey` is `Some`, and then returns an
/// address with those bytes.
#[verifier::external_body]
pub(crate) fn pubkey_from_str(s: &str) -> (r: Result<Pubkey, solana_program::pubkey::ParsePubkeyError>)
    ensures
        r is Ok <==> parsed_pubkey(s@) is Some,
        r matches Ok(k) ==> parsed_pubkey(s@) == Some(k.0@),
{
    <solana_program::pubkey::Pubkey as std::str::FromStr>::from_str(s).map(|k| Pubkey(k.to_bytes()))
}

/// The text that `solana_program::pubkey::Pubkey`'s `Display` writes for
/// the key of these 32 bytes.
pub uninterp spec fn pubkey_text(bytes: Seq<u8>) -> Seq<char>;

/// Calls `to_string` on the `solana_program::pubkey::Pubkey` of the key's
/// bytes. Claimed: the result is `pubkey_text` of those bytes.
#[verifier::external_body]
pub(crate) fn pubkey_to_string(key: &Pubkey) -> (r: String)
    ensures
        r@ == pubkey_text(key.0@),
{
    solana_program::pubkey::Pubkey::new_from_array(key.0).to_string()
}

/// Formats the `ruint::aliases::U64` of `value` with `Debug`. Claimed: its
/// decimal digits, which is what `ruint`'s `Debug` (through its `Display`)
/// writes for a value that fits in a `u64`.
#[verifier::external_body]
pub(crate) fn flags_debug_text(value: u64) -> (r: String)
    ensures
        r@ == decimal_digits(value as nat),
{
    format!("{:?}", ruint::aliases::U64::from_limbs([value]))
}

/// The lower-case hexadecimal digit of `n`, for `n < 16`.
pub open spec fn hex_digit(n: u8) -> char {
    if n < 10 {
        (48 + n) as char
    } else {
        (87 + n) as char
    }
}

/// Two lower-case hexadecimal digits per byte, most significant first.
pub open spec fn hex_lower(s: Seq<u8>) -> Seq<char>
    decreases s.len(),
{
    if s.len() == 0 {
        Seq::empty()
    } else {
        seq![hex_digit(s[0] / 16), hex_digit(s[0] % 16)] + hex_lower(s.drop_first())
    }
}

/// Calls `hex::encode`. Claimed: two lower-case hexadecimal digits per byte,
/// in order, as its source writes them from the table `0123456789abcdef`.
#[verifier::external_body]
pub(crate) fn hex_encode(bytes: &[u8]) -> (r: String)
    ensures
        r@ == hex_lower(bytes@),
{
    hex::encode(bytes)
}

/// Calls `String::push`. Claimed: the character is appended.
#[verifier::external_body]
pub(crate) fn string_push(s: &mut String, c: char)
    ensures
        final(s)@ == old(s)@.push(c),
{
    s.push(c)
}

} // verus!
