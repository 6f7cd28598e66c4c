//! Text on the wire: fixed 64-byte fields, padded with spaces on the right,
//! and the conversions between such fields and strings.

use vstd::prelude::*;
use vstd::string::StringSliceAdditionalSpecFns;
use vstd::utf8::{decode_utf8, valid_utf8};

verus! {

/// The length of a text field on the wire.
pub const STRING_LENGTH: usize = 64;

/// The byte that fills the unused end of a text field: a space.
pub const PAD: u8 = 0x20;

/// `std::string::String::push` appends the given character to the end of
/// the string.
pub assume_specification[ String::push ](s: &mut String, ch: char)
    ensures
        final(s)@ == old(s)@.push(ch),
;

/// `std::string::String::from_utf8` accepts exactly the byte vectors that are
/// well-formed UTF-8 and then yields the string those bytes encode; the error
/// that it reports otherwise is dropped here.
#[verifier::external_body]
pub(crate) fn string_from_utf8(bytes: Vec<u8>) -> (text: Option<String>)
    ensures
        text is Some <==> valid_utf8(bytes@),
        text matches Some(s) ==> s@ == decode_utf8(bytes@),
{
    String::from_utf8(bytes).ok()
}

/// The text field that holds `bytes`: its first 64 bytes, followed by as many
/// spaces as are needed to make 64 bytes in all.
pub open spec fn padded(bytes: Seq<u8>) -> Seq<u8> {
    Seq::new(
        STRING_LENGTH as nat,
        |i: int|
            if i < bytes.len() {
                bytes[i]
            } else {
                PAD
            },
    )
}

/// The bytes before the first zero byte, or all of them if there is none.
pub open spec fn until_nul(bytes: Seq<u8>) -> Seq<u8>
    decreases bytes.len(),
{
    if bytes.len() == 0 || bytes[0] == 0 {
        Seq::empty()
    } else {
        seq![bytes[0]] + until_nul(bytes.drop_first())
    }
}

/// The characters of `chars` other than `ch`, in their order.
pub open spec fn without_char(chars: Seq<char>, ch: char) -> Seq<char>
    decreases chars.len(),
{
    if chars.len() == 0 {
        Seq::empty()
    } else if chars.last() == ch {
        without_char(chars.drop_last(), ch)
    } else {
        without_char(chars.drop_last(), ch).push(chars.last())
    }
}

/// Lays a string out as a text field: truncated to 64 bytes, or padded with
/// spaces on the right.
pub fn encode_string(string: &str) -> (field: [u8; 64])
    ensures
        field@ == padded(string.spec_bytes()),
{
    let bytes = string.as_bytes();
    encode_bytes(bytes)
}

/// Lays bytes out as a text field: truncated to 64 bytes, or padded with
/// spaces on the right.
pub fn encode_bytes(bytes: &[u8]) -> (field: [u8; 64])
    ensures
        field@ == padded(bytes@),
{
    let mut field: [u8; 64] = [PAD; 64];
    let mut i: usize = 0;
    while i < STRING_LENGTH && i < bytes.len()
        invariant
            i <= STRING_LENGTH,
            i <= bytes.len(),
            forall|k: int| 0 <= k < i ==> field@[k] == bytes@[k],
            forall|k: int| i <= k < STRING_LENGTH ==> field@[k] == PAD,
        decreases STRING_LENGTH - i,
    {
        field[i] = bytes[i];
        i += 1;
    }
    assert(field@ =~= padded(bytes@));
    field
}

/// Copies the bytes before the first zero byte.
pub fn take_until_nul(bytes: &[u8]) -> (text: Vec<u8>)
    ensures
        text@ == until_nul(bytes@),
{
    let mut text: Vec<u8> = Vec::new();
    let mut i: usize = 0;
    assert(bytes@.skip(0) =~= bytes@);
    while i < bytes.len() && bytes[i] != 0
        invariant
            i <= bytes.len(),
            until_nul(bytes@) == text@ + until_nul(bytes@.skip(i as int)),
        decreases bytes.len() - i,
    {
        let ghost rest = bytes@.skip(i as int);
        assert(rest.drop_first() =~= bytes@.skip(i + 1));
        assert(rest[0] == bytes@[i as int]);
        assert(text@.push(bytes@[i as int]) + until_nul(rest.drop_first()) =~= text@ + (seq![
            rest[0],
        ] + until_nul(rest.drop_first())));
        text.push(bytes[i]);
        i += 1;
    }
    proof {
        let rest = bytes@.skip(i as int);
        assert(until_nul(rest) =~= Seq::<u8>::empty());
        assert(text@ + Seq::<u8>::empty() =~= text@);
    }
    text
}

/// Copies a string without the occurrences of one character.
pub fn remove_char(text: &str, ch: char) -> (kept: String)
    ensures
        kept@ == without_char(text@, ch),
{
    let n = text.unicode_len();
    let mut kept = String::new();
    let mut i: usize = 0;
    assert(text@.take(0) =~= Seq::<char>::empty());
    while i < n
        invariant
            n == text@.len(),
            i <= n,
            kept@ == without_char(text@.take(i as int), ch),
        decreases n - i,
    {
        let c = text.get_char(i);
        proof {
            let next = text@.take(i + 1);
            assert(next.drop_last() =~= text@.take(i as int));
            assert(next.last() == c);
        }
        if c != ch {
            kept.push(c);
        }
        i += 1;
    }
    assert(text@.take(n as int) =~= text@);
    kept
}

/// The character of a decimal digit.
pub open spec fn digit_char(digit: nat) -> char {
    (0x30 + digit) as char
}

/// The decimal digits of a number, without leading zeros.
pub open spec fn decimal(n: nat) -> Seq<char>
    decreases n,
{
    if n < 10 {
        seq![digit_char(n)]
    } else {
        decimal(n / 10).push(digit_char(n % 10))
    }
}

/// The word for a truth value: `true` or `false`.
pub open spec fn truth_word(b: bool) -> Seq<char> {
    if b {
        "true"@
    } else {
        "false"@
    }
}

/// Appends the decimal digits of a number to a string.
pub fn push_decimal(out: &mut String, n: u16)
    ensures
        final(out)@ == old(out)@ + decimal(n as nat),
    decreases n,
{
    if n >= 10 {
        push_decimal(out, n / 10);
    }
    let digit: u8 = 0x30 + (n % 10) as u8;
    out.push(digit as char);
    assert(out@ =~= old(out)@ + decimal(n as nat));
}

/// Writes a number in decimal digits.
pub fn decimal_string(n: u16) -> (text: String)
    ensures
        text@ == decimal(n as nat),
{
    let mut text = String::new();
    push_decimal(&mut text, n);
    assert(Seq::<char>::empty() + decimal(n as nat) =~= decimal(n as nat));
    text
}

/// Writes a truth value as a word.
pub fn truth_string(b: bool) -> (text: String)
    ensures
        text@ == truth_word(b),
{
    if b {
        "true".to_owned()
    } else {
        "false".to_owned()
    }
}

/// Copies a list of strings.
pub fn copy_strings(list: &Vec<String>) -> (copy: Vec<String>)
    ensures
        string_views(copy@) == string_views(list@),
{
    let mut copy: Vec<String> = Vec::new();
    let mut i: usize = 0;
    while i < list.len()
        invariant
            i <= list.len(),
            copy@.len() == i,
            forall|k: int| 0 <= k < i ==> (#[trigger] copy@[k])@ == list@[k]@,
        decreases list.len() - i,
    {
        copy.push(list[i].clone());
        i += 1;
    }
    assert(string_views(copy@) =~= string_views(list@));
    copy
}

/// The strings of a list, each as its characters.
pub open spec fn string_views(list: Seq<String>) -> Seq<Seq<char>> {
    Seq::new(list.len(), |i: int| list[i]@)
}

} // verus!
