use moostar::text::{
    byte_offsets, char_is_identifier, char_is_lowercase, char_is_space, char_width, chars_of,
};
use moostar::MooInst;

#[test]
fn chars_of_gives_the_characters_in_order() {
    assert_eq!(chars_of(""), Vec::<char>::new());
    assert_eq!(chars_of("a\u{e9}\u{1f404}"), vec!['a', '\u{e9}', '\u{1f404}']);
}

#[test]
fn char_width_is_the_length_in_utf8() {
    for c in ['\0', 'a', '\u{7f}', '\u{80}', '\u{7ff}', '\u{800}', '\u{d7ff}', '\u{e000}', '\u{ffff}', '\u{10000}', '\u{10ffff}'] {
        assert_eq!(char_width(c), c.len_utf8());
    }
    assert_eq!(char_width('a'), 1);
    assert_eq!(char_width('\u{e9}'), 2);
    assert_eq!(char_width('\u{20ac}'), 3);
    assert_eq!(char_width('\u{1f404}'), 4);
}

#[test]
fn byte_offsets_follow_the_encoding() {
    let text = "a\u{e9}\u{20ac}\u{1f404}b";
    let offsets = byte_offsets(&chars_of(text));
    assert_eq!(offsets, vec![0, 1, 3, 6, 10, 11]);
    let expected: Vec<usize> =
        text.char_indices().map(|(at, _)| at).chain(std::iter::once(text.len())).collect();
    assert_eq!(offsets, expected);
    assert_eq!(byte_offsets(&Vec::new()), vec![0]);
}

#[test]
fn lowercase_means_ascii_lowercase() {
    for code in 0..=0x2ffu32 {
        if let Some(c) = char::from_u32(code) {
            assert_eq!(char_is_lowercase(c), c.is_ascii_lowercase());
        }
    }
}

#[test]
fn identifier_characters_are_ascii_letters_digits_and_underscore() {
    for code in 0..=0x2ffu32 {
        if let Some(c) = char::from_u32(code) {
            assert_eq!(char_is_identifier(c), c.is_ascii_alphanumeric() || c == '_');
        }
    }
}

#[test]
fn space_means_unicode_white_space() {
    for c in [' ', '\t', '\n', '\u{b}', '\u{c}', '\r', '\u{85}', '\u{a0}', '\u{1680}', '\u{2003}', '\u{2028}', '\u{3000}'] {
        assert!(char_is_space(c));
    }
    for c in ['\0', '\u{8}', '\u{e}', '\u{1f}', '!', 'a', '_', '\u{7f}', '\u{e9}', '\u{200b}', '\u{feff}'] {
        assert!(!char_is_space(c));
    }
    for code in 0..=0x3100u32 {
        if let Some(c) = char::from_u32(code) {
            assert_eq!(char_is_space(c), c.is_whitespace());
        }
    }
}

#[test]
fn plain_characters_map_to_their_instructions() {
    assert_eq!(MooInst::from_plain_char('+'), MooInst::Plus);
    assert_eq!(MooInst::from_plain_char('-'), MooInst::Minus);
    assert_eq!(MooInst::from_plain_char('>'), MooInst::Right);
    assert_eq!(MooInst::from_plain_char('<'), MooInst::Left);
    assert_eq!(MooInst::from_plain_char('.'), MooInst::Out);
    assert_eq!(MooInst::from_plain_char(','), MooInst::In);
    assert_eq!(MooInst::from_plain_char('['), MooInst::OpenLoop);
    assert_eq!(MooInst::from_plain_char(']'), MooInst::CloseLoop);
    assert_eq!(MooInst::from_plain_char('^'), MooInst::MetaJump);
    assert_eq!(MooInst::from_plain_char('x'), MooInst::Nop('x'));
    assert_eq!(MooInst::from_plain_char(' '), MooInst::Nop(' '));
}

#[test]
fn only_literals_are_no_ops() {
    assert!(MooInst::Nop('x').is_nop());
    assert!(!MooInst::Plus.is_nop());
    assert!(!MooInst::Halt.is_nop());
    assert!(!MooInst::Call(0).is_nop());
}
