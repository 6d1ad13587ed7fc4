use cycbox::formatter::terminal::encoding_for_lowercase_name;
use cycbox::formatter::hexdump::{byte_to_ascii_char, format_hexdump, is_highlighted, is_printable_ascii, MAX_HEXDUMP_BYTES};
use cycbox::formatter::terminal::{
    format_terminal, get_encoding_from_name, has_too_many_non_viewable_chars, is_viewable_char, normalize_line_endings,
    TextEncoding,
};
use cycbox::message::{Color, ContentType, Message, PayloadType};

fn frame_message(frame: Vec<u8>) -> Message {
    Message::rx(PayloadType::Binary, Vec::new(), frame, 0)
}

fn dump_text(message: &Message) -> String {
    message.hex_contents.iter().map(|c| String::from_utf8_lossy(&c.payload).into_owned()).collect()
}

#[test]
fn small_frame_is_rendered_in_full() {
    let mut message = frame_message(b"hello world".to_vec());
    format_hexdump(&mut message, None);
    let text = dump_text(&message);
    assert!(!text.contains("truncated"));
    assert!(text.contains("hello world"));
}

#[test]
fn oversized_frame_is_truncated() {
    let total = MAX_HEXDUMP_BYTES * 2 + 7;
    let mut message = frame_message(vec![0xABu8; total]);
    format_hexdump(&mut message, None);
    let text = dump_text(&message);
    assert!(text.contains("hexdump truncated"));
    assert!(text.contains(&total.to_string()));
    let capped_rows = MAX_HEXDUMP_BYTES / 16;
    assert!(message.hex_contents.len() < capped_rows * 16);
}

#[test]
fn hexdump_line_layout() {
    let mut message = frame_message(b"ABCDEFGHIJ".to_vec());
    format_hexdump(&mut message, None);
    let text = dump_text(&message);
    assert_eq!(
        text,
        "0000  41 42 43 44 45 46 47 48   49 4a                     |ABCDEFGHIJ      |"
    );
    assert!(!message.highlighted);
}

#[test]
fn hexdump_two_lines_and_nonprintable() {
    let mut frame: Vec<u8> = (0x41..0x51).collect();
    frame.push(0x00);
    let mut message = frame_message(frame);
    format_hexdump(&mut message, None);
    let text = dump_text(&message);
    assert!(text.starts_with("0000  41 42 43 44 45 46 47 48   49 4a 4b 4c 4d 4e 4f 50   |ABCDEFGHIJKLMNOP|\n0010  00 "));
    assert!(text.ends_with("|.               |"));
    let last_styled = message.hex_contents.iter().filter(|c| c.content_type == ContentType::Styled).last().unwrap();
    assert_eq!(last_styled.decoration.color, Color::OutlineVariant);
}

#[test]
fn hexdump_empty_frame() {
    let mut message = frame_message(Vec::new());
    format_hexdump(&mut message, Some(vec![1]));
    assert_eq!(message.hex_contents.len(), 1);
    assert_eq!(message.hex_contents[0].payload, b"(empty data)".to_vec());
    assert!(!message.highlighted);
}

#[test]
fn hexdump_highlights_matches() {
    let mut message = frame_message(b"xxABxx".to_vec());
    format_hexdump(&mut message, Some(b"AB".to_vec()));
    assert!(message.highlighted);
    let hl: Vec<&cycbox::message::Content> =
        message.hex_contents.iter().filter(|c| c.content_type == ContentType::Highlight).collect();
    assert_eq!(hl.len(), 1);
    assert_eq!(hl[0].payload, b"41 42 ".to_vec());
}

#[test]
fn highlight_helper_cases() {
    let data = [0x41u8, 0x42, 0x43];
    let pat = Some(vec![0x41u8, 0x42]);
    assert!(is_highlighted(&data, 0, &pat));
    assert!(is_highlighted(&data, 1, &pat));
    assert!(!is_highlighted(&data, 2, &pat));
    assert!(!is_highlighted(&data, 0, &Some(vec![])));
    assert!(!is_highlighted(&data, 0, &None));
    assert!(is_printable_ascii(b'~'));
    assert!(!is_printable_ascii(0x7F));
    assert_eq!(byte_to_ascii_char(b'A'), 'A');
    assert_eq!(byte_to_ascii_char(0x01), '.');
}

#[test]
fn terminal_helpers() {
    let cs: Vec<char> = "a\r\nb\rc\n".chars().collect();
    let n: String = normalize_line_endings(&cs).into_iter().collect();
    assert_eq!(n, "a\nb\nc\n");
    assert!(is_viewable_char('\t'));
    assert!(!is_viewable_char('\u{1}'));
    assert!(!is_viewable_char('\u{85}'));
    assert!(is_viewable_char('é'));
    assert!(!has_too_many_non_viewable_chars(""));
    assert!(has_too_many_non_viewable_chars("abcdefghi\u{1}\u{2}"));
    assert!(!has_too_many_non_viewable_chars("abcdefghi\u{1}"));
    assert_eq!(get_encoding_from_name("UTF-8"), TextEncoding::Utf8);
    assert_eq!(get_encoding_from_name("Shift_JIS"), TextEncoding::ShiftJis);
    assert_eq!(get_encoding_from_name("latin1"), TextEncoding::Windows1252);
    assert_eq!(get_encoding_from_name("klingon"), TextEncoding::Utf8);
}

#[test]
fn terminal_plain_text() {
    let mut m = frame_message(b"hello\r\n".to_vec());
    format_terminal(&mut m, TextEncoding::Utf8, None);
    assert_eq!(m.contents.len(), 1);
    assert_eq!(m.contents[0].payload, b"hello".to_vec());
    assert!(!m.display_hex);
    assert!(!m.highlighted);
}

#[test]
fn terminal_highlights_occurrences() {
    let mut m = frame_message(b"one two one".to_vec());
    format_terminal(&mut m, TextEncoding::Utf8, Some(&b"one"[..]));
    let parts: Vec<Vec<u8>> = m.contents.iter().map(|c| c.payload.clone()).collect();
    assert_eq!(parts, vec![b"one".to_vec(), b" two ".to_vec(), b"one".to_vec()]);
    assert!(m.highlighted);
    assert_eq!(m.contents[0].decoration.color, Color::Error);
    assert!(m.contents[0].decoration.bold);
}

#[test]
fn terminal_binary_goes_to_hex() {
    let mut m = frame_message(vec![0xFF, 0xFE, 0x00]);
    format_terminal(&mut m, TextEncoding::Utf8, None);
    assert!(m.display_hex);
    assert!(m.contents.is_empty());
    let mut c = frame_message(vec![1, 2, 3, b'a']);
    format_terminal(&mut c, TextEncoding::Utf8, None);
    assert!(c.display_hex);
}

#[test]
fn terminal_empty_and_other_encodings() {
    let mut m = frame_message(Vec::new());
    format_terminal(&mut m, TextEncoding::Utf8, None);
    assert_eq!(m.contents[0].payload, b"(empty data)".to_vec());
    assert!(m.contents[0].decoration.italic);
    let mut g = frame_message(vec![0xC4, 0xE3, 0xBA, 0xC3]);
    format_terminal(&mut g, TextEncoding::Gb18030, None);
    assert_eq!(g.contents[0].payload, "你好".as_bytes().to_vec());
}

#[test]
fn line_ending_normalisation_is_idempotent() {
    let cs: Vec<char> = "a\r\nb\rc\n\r\r\n".chars().collect();
    let once = normalize_line_endings(&cs);
    let s: String = once.iter().collect();
    assert_eq!(s, "a\nb\nc\n\n\n");
    assert_eq!(s, "a\r\nb\rc\n\r\r\n".replace("\r\n", "\n").replace('\r', "\n"));
    assert!(!s.contains('\r'));
    assert_eq!(normalize_line_endings(&once), once);
}

#[test]
fn lowercase_encoding_names() {
    assert_eq!(encoding_for_lowercase_name("gb18030"), TextEncoding::Gb18030);
    assert_eq!(encoding_for_lowercase_name("GB18030"), TextEncoding::Utf8);
    assert_eq!(encoding_for_lowercase_name("shift_jis"), TextEncoding::ShiftJis);
}
