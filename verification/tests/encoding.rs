use escpos_rs::{encode, Command, Error, Font, Justification, PrinterModel, PrinterProfile};

/// A profile whose font A has `columns` columns.
fn narrow(columns: u8) -> PrinterProfile {
    PrinterProfile::usb(0x0001, 0x0001).with_font_width(Font::FontA, columns)
}

/// The stream for `body` in font A, justified left.
fn framed(body: &[u8]) -> Vec<u8> {
    let mut expected = vec![0x1b, 0x4d, 0x00, 0x1b, 0x61, 0x00];
    expected.extend_from_slice(body);
    expected.push(0x0a);
    expected
}

fn body_of(text: &str, columns: u8) -> Vec<u8> {
    let stream = encode(text, Font::FontA, Justification::Left, &narrow(columns)).unwrap();
    assert_eq!(&stream[..6], &[0x1b, 0x4d, 0x00, 0x1b, 0x61, 0x00]);
    assert_eq!(stream[stream.len() - 1], 0x0a);
    stream[6..stream.len() - 1].to_vec()
}

#[test]
fn encode_twice_gives_identical_bytes() {
    let profile = PrinterModel::ZKTeco.usb_profile();
    let text = "Total:  12.50\nThank you for your visit, come again soon";
    let first = encode(text, Font::FontB, Justification::Right, &profile);
    let second = encode(text, Font::FontB, Justification::Right, &profile);
    assert!(first.is_ok());
    assert_eq!(first, second);
}

#[test]
fn encode_emits_font_justification_text_and_line_feed() {
    let profile = PrinterModel::ZKTeco.usb_profile();
    let stream = encode("Hello", Font::FontA, Justification::Left, &profile).unwrap();
    assert_eq!(stream, vec![0x1b, 0x4d, 0x00, 0x1b, 0x61, 0x00, b'H', b'e', b'l', b'l', b'o', 0x0a]);
}

#[test]
fn encode_of_empty_text_is_the_frame_alone() {
    let stream = encode("", Font::FontA, Justification::Left, &narrow(32)).unwrap();
    assert_eq!(stream, framed(b""));
}

#[test]
fn column_wrapping_cuts_a_long_word_after_the_last_column() {
    let stream = encode("abcdefghijk", Font::FontA, Justification::Left, &narrow(10)).unwrap();
    assert_eq!(stream, framed(b"abcdefghij\nk"));
}

#[test]
fn a_very_long_word_is_cut_more_than_once() {
    assert_eq!(body_of("abcdefghijklmnopqrstuvwxyz", 10), b"abcdefghij\nklmnopqrst\nuvwxyz".to_vec());
}

#[test]
fn text_that_fits_is_left_alone() {
    assert_eq!(body_of("abcdefghij", 10), b"abcdefghij".to_vec());
    assert_eq!(body_of("a b c", 10), b"a b c".to_vec());
}

#[test]
fn wrapping_breaks_at_the_last_space_that_fits() {
    assert_eq!(body_of("hello world foo", 10), b"hello\nworld foo".to_vec());
    assert_eq!(body_of("aa bb cc dd ee", 5), b"aa bb\ncc dd\nee".to_vec());
}

#[test]
fn a_space_right_after_a_full_line_becomes_the_break() {
    assert_eq!(body_of("abcde fgh", 5), b"abcde\nfgh".to_vec());
}

#[test]
fn a_word_is_not_cut_when_a_space_comes_before_it() {
    assert_eq!(body_of(" abcdefghij", 10), b"\nabcdefghij".to_vec());
    assert_eq!(body_of("ab abcdefghijkl", 10), b"ab\nabcdefghij\nkl".to_vec());
}

#[test]
fn only_the_breaking_space_is_dropped() {
    assert_eq!(body_of("aaa   bbb", 4), b"aaa \n bbb".to_vec());
}

#[test]
fn explicit_newlines_always_break() {
    assert_eq!(body_of("ab\ncd", 10), b"ab\ncd".to_vec());
    assert_eq!(body_of("ab\n", 10), b"ab\n".to_vec());
    assert_eq!(body_of("\n\n", 10), b"\n\n".to_vec());
    assert_eq!(body_of("abcde\nfg", 5), b"abcde\nfg".to_vec());
}

#[test]
fn paragraphs_are_wrapped_one_by_one() {
    let first = "one two three four";
    let second = "five six seven";
    let mut joined = body_of(first, 9);
    joined.push(b'\n');
    joined.extend(body_of(second, 9));
    assert_eq!(body_of("one two three four\nfive six seven", 9), joined);
    assert_eq!(joined, b"one two\nthree\nfour\nfive six\nseven".to_vec());
}

#[test]
fn no_line_is_longer_than_the_columns() {
    let text = "The quick brown fox jumps over the lazy dog, extraordinarily-long-words included";
    for columns in 1..=40u8 {
        let body = body_of(text, columns);
        for line in body.split(|b| *b == b'\n') {
            assert!(line.len() <= columns as usize);
        }
    }
}

#[test]
fn wrapping_keeps_every_printing_character() {
    let text = "  Two  spaces, a tab\tand\n\nnewlines; antidisestablishmentarianism \u{e9}t\u{e9} ";
    let ink = |bytes: &[u8]| -> Vec<u8> {
        bytes.iter().copied().filter(|b| *b != b' ' && *b != b'\n').collect()
    };
    for columns in 1..=30u8 {
        assert_eq!(ink(&body_of(text, columns)), ink(text.as_bytes()));
    }
}

#[test]
fn one_column_puts_each_character_on_its_own_line() {
    assert_eq!(body_of("abc", 1), b"a\nb\nc".to_vec());
    assert_eq!(body_of("a b", 1), b"a\nb".to_vec());
}

#[test]
fn text_goes_out_as_utf8() {
    assert_eq!(body_of("\u{e9}", 10), vec![0xc3, 0xa9]);
    assert_eq!(body_of("\u{20ac}", 10), vec![0xe2, 0x82, 0xac]);
    assert_eq!(body_of("\u{1f600}", 10), vec![0xf0, 0x9f, 0x98, 0x80]);
    assert_eq!(body_of("\u{7f}\u{80}\u{7ff}\u{800}\u{ffff}\u{10000}\u{10ffff}", 10),
        "\u{7f}\u{80}\u{7ff}\u{800}\u{ffff}\u{10000}\u{10ffff}".as_bytes().to_vec());
    let text = "Caf\u{e9} cr\u{e8}me \u{2014} 3,50 \u{20ac}";
    assert_eq!(body_of(text, 32), text.as_bytes().to_vec());
}

#[test]
fn columns_count_characters_not_bytes() {
    assert_eq!(body_of("\u{e9}\u{e9}\u{e9}", 2), "\u{e9}\u{e9}\n\u{e9}".as_bytes().to_vec());
}

#[test]
fn unsupported_font_fails() {
    let profile = PrinterProfile::usb(0x0001, 0x0001);
    assert_eq!(profile.columns_for(Font::FontA), Some(32));
    assert_eq!(profile.columns_for(Font::FontB), None);
    assert_eq!(
        encode("Hello", Font::FontB, Justification::Left, &profile),
        Err(Error::UnsupportedFont(Font::FontB))
    );
}

#[test]
fn each_font_has_its_own_select_code() {
    let fonts = [
        (Font::FontA, 0x00u8),
        (Font::FontB, 0x01),
        (Font::FontC, 0x02),
        (Font::FontD, 0x03),
        (Font::FontE, 0x04),
        (Font::SpecialFontA, 0x61),
        (Font::SpecialFontB, 0x62),
    ];
    for (font, code) in fonts {
        assert_eq!(font.select_code(), code);
        let profile = PrinterProfile::usb(1, 1).with_font_width(font, 20);
        let stream = encode("x", font, Justification::Left, &profile).unwrap();
        assert_eq!(stream, vec![0x1b, 0x4d, code, 0x1b, 0x61, 0x00, b'x', 0x0a]);
    }
}

#[test]
fn each_justification_has_its_own_select_code() {
    let all = [(Justification::Left, 0u8), (Justification::Center, 1), (Justification::Right, 2)];
    for (justification, code) in all {
        assert_eq!(justification.select_code(), code);
        let stream = encode("x", Font::FontA, justification, &narrow(32)).unwrap();
        assert_eq!(stream, vec![0x1b, 0x4d, 0x00, 0x1b, 0x61, code, b'x', 0x0a]);
    }
}

#[test]
fn commands_as_bytes() {
    assert_eq!((Command::SelectFont { font: Font::FontB }).as_bytes(), vec![0x1b, 0x4d, 0x01]);
    assert_eq!(
        (Command::Justify { justification: Justification::Right }).as_bytes(),
        vec![0x1b, 0x61, 0x02]
    );
    assert_eq!(Command::LineFeed.as_bytes(), vec![0x0a]);
    let mut stream = vec![0xffu8];
    Command::LineFeed.write_to(&mut stream);
    assert_eq!(stream, vec![0xff, 0x0a]);
}
