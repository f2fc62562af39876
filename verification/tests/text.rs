use u8pls::text::{ends_with, starts_with};

#[test]
fn starts_with_compares_the_beginning() {
    assert!(starts_with("data_1.docx", "data_"));
    assert!(starts_with("data_", "data_"));
    assert!(starts_with("anything", ""));
    assert!(starts_with("", ""));
    assert!(!starts_with("data", "data_"));
    assert!(!starts_with("", "a"));
    assert!(!starts_with("xdata_1", "data_"));
    assert!(!starts_with("datA_1", "data_"));
}

#[test]
fn ends_with_compares_the_end() {
    assert!(ends_with("notes.txt", ".txt"));
    assert!(ends_with(".txt", ".txt"));
    assert!(ends_with("anything", ""));
    assert!(ends_with("", ""));
    assert!(!ends_with("txt", ".txt"));
    assert!(!ends_with("", "a"));
    assert!(!ends_with("notes.txt.bak", ".txt"));
    assert!(!ends_with("notes.TXT", ".txt"));
}

#[test]
fn prefix_and_suffix_agree_with_the_standard_library() {
    let samples = [
        "", "a", "ab", "abc", "abcabc", "é", "éa", "aé", "日本語", "日本", "本語", "語", "\u{1F600}",
        "a\u{1F600}", "\u{1F600}a", "ß", "ßß", "\u{80}", "\u{7FF}", "\u{800}", "\u{FFFF}",
        "\u{10000}",
    ];
    for text in samples {
        for pattern in samples {
            assert_eq!(starts_with(text, pattern), text.starts_with(pattern));
            assert_eq!(ends_with(text, pattern), text.ends_with(pattern));
        }
    }
}

#[test]
fn bytes_of_another_character_are_no_suffix() {
    // The last byte of "é" is 0xA9, which is also the last byte of "©";
    // neither text ends with the other.
    assert!(!ends_with("é", "©"));
    assert!(!ends_with("©", "é"));
    assert!(ends_with("caf©", "©"));
    assert!(!starts_with("©", "é"));
}
