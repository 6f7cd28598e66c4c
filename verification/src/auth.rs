//! The check of a player's verification key in online mode.
//!
//! A player who logged in with the account service holds the MD5 digest of
//! the server's salt followed by the user name, as 32 lower-case hex digits.

use vstd::prelude::*;
use vstd::string::StringSliceAdditionalSpecFns;

verus! {

/// The MD5 digest of the given bytes.
pub uninterp spec fn md5_digest(data: Seq<u8>) -> Seq<u8>;

/// `md5::Md5::digest` hashes the data that it is given and hands back the
/// digest, an array of sixteen bytes.
#[verifier::external_body]
fn md5_of(data: &[u8]) -> (digest: [u8; 16])
    ensures
        digest@ == md5_digest(data@),
{
    <md5::Md5 as md5::Digest>::digest(data).into()
}

/// The ASCII code of the lower-case hex digit for a number below 16.
pub open spec fn hex_digit(nibble: int) -> u8 {
    if nibble < 10 {
        (0x30 + nibble) as u8
    } else {
        (0x61 + nibble - 10) as u8
    }
}

/// The lower-case hex digits of bytes, two for each byte, as ASCII codes.
pub open spec fn hex_lower(bytes: Seq<u8>) -> Seq<u8> {
    Seq::new(
        2 * bytes.len(),
        |i: int|
            if i % 2 == 0 {
                hex_digit(bytes[i / 2] as int / 16)
            } else {
                hex_digit(bytes[i / 2] as int % 16)
            },
    )
}

/// The key that proves that the player `name` logged in, for a server with
/// the given salt.
pub open spec fn expected_key(salt: Seq<u8>, name: Seq<u8>) -> Seq<u8> {
    hex_lower(md5_digest(salt + name))
}

fn hex_digit_of(nibble: u8) -> (digit: u8)
    requires
        nibble < 16,
    ensures
        digit == hex_digit(nibble as int),
{
    if nibble < 10 {
        0x30 + nibble
    } else {
        0x61 + (nibble - 10)
    }
}

/// Writes bytes as lower-case hex digits.
pub fn to_hex(bytes: &[u8]) -> (digits: Vec<u8>)
    ensures
        digits@ == hex_lower(bytes@),
{
    let mut digits: Vec<u8> = Vec::new();
    let mut i: usize = 0;
    while i < bytes.len()
        invariant
            i <= bytes.len(),
            digits@.len() == 2 * i,
            forall|k: int| 0 <= k < 2 * i ==> digits@[k] == hex_lower(bytes@)[k],
        decreases bytes.len() - i,
    {
        let b = bytes[i];
        digits.push(hex_digit_of(b / 16));
        digits.push(hex_digit_of(b % 16));
        i += 1;
    }
    assert(digits@ =~= hex_lower(bytes@));
    digits
}

/// Computes the key that proves that the player `name` logged in.
pub fn key_for(salt: &str, name: &str) -> (key: Vec<u8>)
    ensures
        key@ == expected_key(salt.spec_bytes(), name.spec_bytes()),
{
    let salt_bytes = salt.as_bytes();
    let name_bytes = name.as_bytes();
    let mut data: Vec<u8> = Vec::new();
    let mut i: usize = 0;
    while i < salt_bytes.len()
        invariant
            i <= salt_bytes.len(),
            data@ == salt_bytes@.take(i as int),
        decreases salt_bytes.len() - i,
    {
        data.push(salt_bytes[i]);
        assert(data@ =~= salt_bytes@.take(i + 1));
        i += 1;
    }
    assert(salt_bytes@.take(salt_bytes.len() as int) =~= salt_bytes@);
    let mut j: usize = 0;
    while j < name_bytes.len()
        invariant
            j <= name_bytes.len(),
            data@ == salt_bytes@ + name_bytes@.take(j as int),
        decreases name_bytes.len() - j,
    {
        data.push(name_bytes[j]);
        assert(data@ =~= salt_bytes@ + name_bytes@.take(j + 1));
        j += 1;
    }
    assert(name_bytes@.take(name_bytes.len() as int) =~= name_bytes@);
    let digest = md5_of(data.as_slice());
    to_hex(digest.as_slice())
}

/// Tells whether two byte strings are the same.
pub fn same_bytes(a: &[u8], b: &[u8]) -> (same: bool)
    ensures
        same == (a@ == b@),
{
    if a.len() != b.len() {
        return false;
    }
    let mut i: usize = 0;
    while i < a.len()
        invariant
            i <= a.len(),
            a.len() == b.len(),
            forall|k: int| 0 <= k < i ==> a@[k] == b@[k],
        decreases a.len() - i,
    {
        if a[i] != b[i] {
            return false;
        }
        i += 1;
    }
    assert(a@ =~= b@);
    true
}

/// Tells whether `key` proves that the player `name` logged in.
pub fn key_is_valid(salt: &str, name: &str, key: &str) -> (valid: bool)
    ensures
        valid == (key.spec_bytes() == expected_key(salt.spec_bytes(), name.spec_bytes())),
{
    let expected = key_for(salt, name);
    same_bytes(key.as_bytes(), expected.as_slice())
}

} // verus!
