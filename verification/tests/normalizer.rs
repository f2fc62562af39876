use u8pls::utf8s::code::is_canonical;
use u8pls::utf8s::Coding;

const RUSSIAN_1251: [u8; 43] = [
    0xCF, 0xF0, 0xE8, 0xE2, 0xE5, 0xF2, 0x2C, 0x20, 0xEC, 0xE8, 0xF0, 0x21, 0x20, 0xDD, 0xF2, 0xEE,
    0x20, 0xEF, 0xF0, 0xEE, 0xE2, 0xE5, 0xF0, 0xEA, 0xE0, 0x20, 0xEA, 0xEE, 0xE4, 0xE8, 0xF0, 0xEE,
    0xE2, 0xEA, 0xE8, 0x20, 0xF2, 0xE5, 0xEA, 0xF1, 0xF2, 0xE0, 0x2E,
];

const RUSSIAN: &str = "Привет, мир! Это проверка кодировки текста.";

const JAPANESE_SJIS: [u8; 50] = [
    0x82, 0xB1, 0x82, 0xF1, 0x82, 0xC9, 0x82, 0xBF, 0x82, 0xCD, 0x90, 0xA2, 0x8A, 0x45, 0x81, 0x42,
    0x82, 0xB1, 0x82, 0xEA, 0x82, 0xCD, 0x95, 0xB6, 0x8E, 0x9A, 0x83, 0x52, 0x81, 0x5B, 0x83, 0x68,
    0x82, 0xCC, 0x8C, 0x9F, 0x8F, 0x6F, 0x83, 0x65, 0x83, 0x58, 0x83, 0x67, 0x82, 0xC5, 0x82, 0xB7,
    0x81, 0x42,
];

const JAPANESE: &str = "こんにちは世界。これは文字コードの検出テストです。";

const GERMAN_1252: [u8; 33] = [
    0x47, 0x72, 0xFC, 0xDF, 0x65, 0x20, 0x61, 0x75, 0x73, 0x20, 0x4D, 0xFC, 0x6E, 0x63, 0x68, 0x65,
    0x6E, 0x2C, 0x20, 0x73, 0x63, 0x68, 0xF6, 0x6E, 0x65, 0x20, 0x53, 0x74, 0x72, 0x61, 0xDF, 0x65,
    0x21,
];

const GERMAN: &str = "Grüße aus München, schöne Straße!";

#[test]
fn new_holds_the_bytes_as_they_are() {
    let bytes = [0x61u8, 0xFF, 0x00];
    let coding = Coding::new(&bytes);
    assert_eq!(coding, Coding::Source(&bytes));
    assert_eq!(coding.as_ref(), &bytes);
    assert_eq!(coding.rewrite(), None);
}

#[test]
fn utf8_text_is_left_untouched() {
    let bytes = GERMAN.as_bytes();
    let coding = Coding::new(bytes).parse();
    assert_eq!(coding, Coding::Source(bytes));
    assert_eq!(coding.rewrite(), None);
    assert_eq!(coding.as_ref(), bytes);
}

#[test]
fn ascii_text_is_left_untouched() {
    let bytes = b"plain text, nothing else\n";
    let coding = Coding::new(bytes).parse();
    assert_eq!(coding, Coding::Source(bytes));
    assert_eq!(coding.rewrite(), None);
}

#[test]
fn empty_file_is_left_untouched() {
    let bytes: [u8; 0] = [];
    let coding = Coding::new(&bytes).parse();
    assert_eq!(coding, Coding::Source(&bytes));
    assert_eq!(coding.rewrite(), None);
}

#[test]
fn second_run_on_utf8_text_writes_nothing() {
    let first_input = JAPANESE.as_bytes().to_vec();
    let first = Coding::new(&first_input).parse();
    assert_eq!(first.rewrite(), None);
    let after_first = match first.rewrite() {
        Some(written) => written.to_vec(),
        None => first_input.clone(),
    };
    assert_eq!(after_first, first_input);
    let second = Coding::new(&after_first).parse();
    assert_eq!(second.rewrite(), None);
    assert_eq!(second.as_ref(), first_input.as_slice());
}

#[test]
fn windows_1251_text_is_decoded() {
    let coding = Coding::new(&RUSSIAN_1251).parse();
    assert_eq!(
        coding,
        Coding::UTF8 { output: RUSSIAN.to_string(), src_coding: "windows-1251".to_string() }
    );
    assert_eq!(coding.rewrite(), Some(RUSSIAN.as_bytes()));
    assert_eq!(coding.as_ref(), RUSSIAN.as_bytes());
}

#[test]
fn shift_jis_text_is_decoded() {
    let coding = Coding::new(&JAPANESE_SJIS).parse();
    assert_eq!(
        coding,
        Coding::UTF8 { output: JAPANESE.to_string(), src_coding: "Shift_JIS".to_string() }
    );
    assert_eq!(coding.rewrite(), Some(JAPANESE.as_bytes()));
}

#[test]
fn windows_1252_text_is_decoded() {
    let coding = Coding::new(&GERMAN_1252).parse();
    assert_eq!(
        coding,
        Coding::UTF8 { output: GERMAN.to_string(), src_coding: "windows-1252".to_string() }
    );
    assert_ne!(coding.as_ref(), &GERMAN_1252[..]);
}

#[test]
fn decoded_file_is_in_utf8_on_the_next_run() {
    let first = Coding::new(&RUSSIAN_1251).parse();
    let written = first.rewrite().unwrap().to_vec();
    let second = Coding::new(&written).parse();
    assert_eq!(second, Coding::Source(&written));
    assert_eq!(second.rewrite(), None);
}

#[test]
fn gbk_text_is_decoded() {
    let bytes = [
        0xC4u8, 0xE3, 0xBA, 0xC3, 0xCA, 0xC0, 0xBD, 0xE7, 0xA1, 0xA3, 0xD5, 0xE2, 0xCA, 0xC7, 0xD2,
        0xBB, 0xB8, 0xF6, 0xB2, 0xE2, 0xCA, 0xD4, 0xA1, 0xA3,
    ];
    let coding = Coding::new(&bytes).parse();
    assert_eq!(
        coding,
        Coding::UTF8 { output: "你好世界。这是一个测试。".to_string(), src_coding: "GBK".to_string() }
    );
}

#[test]
fn byte_order_mark_decides_and_is_removed() {
    let bytes = [0xFFu8, 0xFE, 0x68, 0x00, 0x69, 0x00];
    let coding = Coding::new(&bytes).parse();
    assert_eq!(
        coding,
        Coding::UTF8 { output: "hi".to_string(), src_coding: "windows-1252".to_string() }
    );
    assert_eq!(coding.rewrite(), Some(&b"hi"[..]));
}

#[test]
fn malformed_bytes_are_replaced_not_refused() {
    let bytes = [0xFFu8, 0xFE, 0x68, 0x00, 0x69];
    let coding = Coding::new(&bytes).parse();
    assert_eq!(
        coding,
        Coding::UTF8 { output: "h\u{FFFD}".to_string(), src_coding: "windows-1252".to_string() }
    );
    assert_eq!(coding.rewrite(), Some(&[0x68u8, 0xEF, 0xBF, 0xBD][..]));
}

#[test]
fn utf8_with_byte_order_mark_is_left_untouched() {
    let bytes = [0xEFu8, 0xBB, 0xBF, 0x68, 0x69];
    let coding = Coding::new(&bytes).parse();
    assert_eq!(coding, Coding::Source(&bytes));
    assert_eq!(coding.rewrite(), None);
}

#[test]
fn escape_sequences_of_iso_2022_jp_are_decoded() {
    let bytes = [0x1Bu8, 0x24, 0x42, 0x30, 0x21, 0x1B, 0x28, 0x42];
    let coding = Coding::new(&bytes).parse();
    assert_eq!(
        coding,
        Coding::UTF8 { output: "亜".to_string(), src_coding: "ISO-2022-JP".to_string() }
    );
}

#[test]
fn canonical_name_is_utf8_exactly() {
    assert!(is_canonical(&"UTF-8".to_string()));
    assert!(!is_canonical(&"utf-8".to_string()));
    assert!(!is_canonical(&"windows-1252".to_string()));
    assert!(!is_canonical(&"".to_string()));
}

#[test]
fn decoding_is_called_for_by_a_firm_guess_of_another_encoding() {
    assert!(Coding::needs_decoding(&"windows-1251".to_string(), true));
    assert!(!Coding::needs_decoding(&"windows-1251".to_string(), false));
    assert!(!Coding::needs_decoding(&"UTF-8".to_string(), true));
    assert!(!Coding::needs_decoding(&"UTF-8".to_string(), false));
}

#[test]
fn resolve_keeps_canonical_bytes() {
    let bytes = b"abc";
    let coding = Coding::resolve(bytes, "UTF-8".to_string(), true, Some("xyz".to_string()));
    assert_eq!(coding, Coding::Source(bytes));
}

#[test]
fn resolve_keeps_bytes_whose_encoding_is_in_doubt() {
    let bytes = [0xE9u8, 0x20, 0xE8];
    let coding =
        Coding::resolve(&bytes, "windows-1252".to_string(), false, Some("é è".to_string()));
    assert_eq!(coding, Coding::Source(&bytes));
    assert_eq!(coding.rewrite(), None);
}

#[test]
fn resolve_keeps_bytes_that_could_not_be_decoded() {
    let bytes = [0xE9u8];
    let coding = Coding::resolve(&bytes, "no-such-encoding".to_string(), true, None);
    assert_eq!(coding, Coding::Source(&bytes));
}

#[test]
fn resolve_takes_the_decoded_text() {
    let bytes = [0xE9u8];
    let coding =
        Coding::resolve(&bytes, "windows-1252".to_string(), true, Some("é".to_string()));
    assert_eq!(
        coding,
        Coding::UTF8 { output: "é".to_string(), src_coding: "windows-1252".to_string() }
    );
    assert_eq!(coding.rewrite(), Some(&[0xC3u8, 0xA9][..]));
    assert_eq!(coding.as_ref(), &[0xC3u8, 0xA9][..]);
}
