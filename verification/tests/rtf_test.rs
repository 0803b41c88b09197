use sticky_situation::rtf::extract_text;
use sticky_situation::rtf::extract_text_from_bytes;

#[test]
fn test_extract_plain_text() {
    let rtf = r"{\rtf1\ansi\ansicpg1252 Hello World}";
    let text = extract_text(rtf);
    assert!(text.contains("Hello World"));
}

#[test]
fn test_extract_with_formatting() {
    let rtf = r"{\rtf1\ansi{\b Bold} and {\i Italic} text}";
    let text = extract_text(rtf);
    assert!(text.contains("Bold"));
    assert!(text.contains("Italic"));
}

#[test]
fn test_extract_text_from_bytes() {
    let rtf = b"{\\rtf1\\ansi Test Content}";
    let text = extract_text_from_bytes(rtf);
    assert!(text.contains("Test Content"));
}

#[test]
fn test_display_extracted_text() {
    let rtf = r"{\rtf1\ansi\ansicpg1252 Hello World}";
    let text = extract_text(rtf);
    println!("Extracted from simple RTF: '{}'", text);

    let rtf2 = r"{\rtf1\ansi{\b Bold} and {\i Italic} text}";
    let text2 = extract_text(rtf2);
    println!("Extracted from formatted RTF: '{}'", text2);
}

#[test]
fn test_extract_exact_output() {
    // Control words swallow their trailing whitespace and become single
    // spaces; braces vanish; runs collapse; the ends are trimmed.
    assert_eq!(extract_text(r"{\rtf1\ansi\ansicpg1252 Hello World}"), "Hello World");
    assert_eq!(extract_text(r"{\rtf1\ansi{\b Bold} and {\i Italic} text}"), "Bold and Italic text");
}

#[test]
fn test_extract_empty_input() {
    assert_eq!(extract_text(""), "");
}

#[test]
fn test_extract_whitespace_collapses() {
    assert_eq!(extract_text("  a \t\n  b  "), "a b");
}

#[test]
fn test_extract_unicode_whitespace_collapses() {
    assert_eq!(extract_text("a\u{a0}\u{2003}b"), "a b");
}

#[test]
fn test_extract_control_word_with_digits() {
    assert_eq!(extract_text(r"\fs24 text"), "text");
    assert_eq!(extract_text(r"one\par two"), "one two");
}

#[test]
fn test_extract_bare_backslash_kept() {
    // A backslash not followed by a lowercase letter is literal text.
    assert_eq!(extract_text(r"a \9 b"), r"a \9 b");
}

#[test]
fn test_extract_from_invalid_utf8_is_empty() {
    let bytes: Vec<u8> = vec![0xff, 0xfe, 0x41];
    assert_eq!(extract_text_from_bytes(&bytes), "");
}
