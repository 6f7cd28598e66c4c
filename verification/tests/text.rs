use classic_rs::auth::{key_for, key_is_valid, same_bytes, to_hex};
use classic_rs::chat::{collapse_whitespace, is_space_byte, make_chat_line, split_line};
use classic_rs::packets::ClientBound;
use classic_rs::text::{decimal_string, encode_bytes, encode_string, remove_char, take_until_nul, truth_string};

#[test]
fn hex_is_lower_case_with_two_digits_a_byte() {
    assert_eq!(to_hex(&[0x00, 0x0f, 0xa0, 0xff, 0x5e]), b"000fa0ff5e".to_vec());
    assert_eq!(to_hex(&[]), Vec::<u8>::new());
}

#[test]
fn the_key_is_the_digest_of_salt_and_name() {
    assert_eq!(key_for("abcdef0123456789", "Bob"), b"38791074cfabea0fc9685f1490949d8c".to_vec());
    assert_eq!(key_for("salt", "Alice"), b"2a715d8078bae20297caaa857b876b8e".to_vec());
    assert_eq!(key_for("", ""), b"d41d8cd98f00b204e9800998ecf8427e".to_vec());
}

#[test]
fn only_the_right_key_is_valid() {
    assert!(key_is_valid("abcdef0123456789", "Bob", "38791074cfabea0fc9685f1490949d8c"));
    assert!(!key_is_valid("abcdef0123456789", "Bob", "38791074CFABEA0FC9685F1490949D8C"));
    assert!(!key_is_valid("abcdef0123456789", "Bob", "38791074cfabea0fc9685f1490949d8"));
    assert!(!key_is_valid("abcdef0123456789", "Bob", "abcdef0123456789Bob"));
    assert!(!key_is_valid("abcdef0123456789", "Alice", "38791074cfabea0fc9685f1490949d8c"));
    assert!(!key_is_valid("abcdef0123456788", "Bob", "38791074cfabea0fc9685f1490949d8c"));
    assert!(!key_is_valid("abcdef0123456789", "Bob", ""));
}

#[test]
fn byte_strings_compare() {
    assert!(same_bytes(b"abc", b"abc"));
    assert!(!same_bytes(b"abc", b"abd"));
    assert!(!same_bytes(b"abc", b"ab"));
    assert!(same_bytes(b"", b""));
}

#[test]
fn whitespace_is_the_ascii_kind() {
    for b in 0u8..=255 {
        assert_eq!(is_space_byte(b), b.is_ascii_whitespace());
    }
}

#[test]
fn words_are_joined_by_single_spaces() {
    assert_eq!(collapse_whitespace(b"hello world"), b"hello world".to_vec());
    assert_eq!(collapse_whitespace(b"  hello \t\n  world  "), b"hello world".to_vec());
    assert_eq!(collapse_whitespace(b"one"), b"one".to_vec());
    assert_eq!(collapse_whitespace(b"   "), Vec::<u8>::new());
    assert_eq!(collapse_whitespace(b""), Vec::<u8>::new());
    assert_eq!(collapse_whitespace(b"a\rb\x0cc d"), b"a b c d".to_vec());
    let text = "hello world".to_string() + &" ".repeat(53);
    assert_eq!(collapse_whitespace(text.as_bytes()), b"hello world".to_vec());
}

#[test]
fn collapsing_matches_splitting_on_whitespace() {
    let samples = ["a  b", " a b ", "\ta\n\nb\r c", "abc", "", " ", "x y z  ", "h\u{e9}llo  w\u{f6}rld"];
    for sample in samples {
        let words: Vec<&str> = sample.split_ascii_whitespace().collect();
        assert_eq!(collapse_whitespace(sample.as_bytes()), words.join(" ").into_bytes());
    }
}

#[test]
fn a_chat_line_has_the_name_in_front() {
    assert_eq!(make_chat_line(b"Alice", b"hello world"), b"<Alice>: hello world".to_vec());
    assert_eq!(make_chat_line(b"", b""), b"<>: ".to_vec());
}

#[test]
fn a_short_line_is_one_packet() {
    let packets = split_line(3, b"<Alice>: hello world");
    assert_eq!(packets, vec![ClientBound::Message(3, encode_string("<Alice>: hello world"))]);
}

#[test]
fn a_long_line_is_cut_every_64_bytes() {
    let line: Vec<u8> = (0..150u8).map(|i| b'a' + i % 26).collect();
    let packets = split_line(9, &line);
    assert_eq!(packets.len(), 3);
    assert_eq!(packets[0], ClientBound::Message(9, encode_bytes(&line[..64])));
    assert_eq!(packets[1], ClientBound::Message(9, encode_bytes(&line[64..128])));
    assert_eq!(packets[2], ClientBound::Message(9, encode_bytes(&line[128..])));
    let mut carried = Vec::new();
    for packet in &packets {
        if let ClientBound::Message(_, text) = packet {
            carried.extend_from_slice(text);
        }
    }
    assert_eq!(&carried[..150], &line[..]);
    assert!(carried[150..].iter().all(|b| *b == 0x20));
}

#[test]
fn a_line_of_exactly_64_bytes_is_one_packet() {
    let line = [b'z'; 64];
    assert_eq!(split_line(1, &line).len(), 1);
    assert_eq!(split_line(1, &[b'z'; 65]).len(), 2);
    assert_eq!(split_line(1, &[b'z'; 128]).len(), 2);
    assert_eq!(split_line(1, &[]).len(), 0);
}

#[test]
fn text_stops_at_the_first_zero_byte() {
    assert_eq!(take_until_nul(b"abc\0def"), b"abc".to_vec());
    assert_eq!(take_until_nul(b"abc"), b"abc".to_vec());
    assert_eq!(take_until_nul(b"\0abc"), Vec::<u8>::new());
    assert_eq!(take_until_nul(b""), Vec::<u8>::new());
}

#[test]
fn a_character_is_removed_everywhere() {
    assert_eq!(remove_char(" a b  c ", ' '), "abc");
    assert_eq!(remove_char("abc", ' '), "abc");
    assert_eq!(remove_char("", ' '), "");
    assert_eq!(remove_char("h\u{e9} l\u{e9}", '\u{e9}'), "h l");
}

#[test]
fn numbers_are_written_in_decimal() {
    assert_eq!(decimal_string(0), "0");
    assert_eq!(decimal_string(7), "7");
    assert_eq!(decimal_string(10), "10");
    assert_eq!(decimal_string(25565), "25565");
    assert_eq!(decimal_string(65535), "65535");
    for n in [1u16, 9, 99, 100, 101, 1000, 9999, 10000, 60000] {
        assert_eq!(decimal_string(n), n.to_string());
    }
}

#[test]
fn truth_values_are_written_as_words() {
    assert_eq!(truth_string(true), "true");
    assert_eq!(truth_string(false), "false");
}
