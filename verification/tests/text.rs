use djvuxml::text::{clean_word, is_numeric, trim};

#[test]
fn no_effect() {
    assert_eq!("the", clean_word("the").unwrap());
}

#[test]
fn ditch_punctuation() {
    assert_eq!("the", clean_word("the?").unwrap());
    assert_eq!("the", clean_word("!the").unwrap());
    assert_eq!("the", clean_word("!t.he").unwrap());
}

#[test]
fn ditch_capitals() {
    assert_eq!("the", clean_word("tHe").unwrap());
    assert_eq!("the", clean_word("tHE").unwrap());
    assert_eq!("the", clean_word("The").unwrap());
}

#[test]
fn empty_result() {
    assert_eq!(None, clean_word(" ? "));
}

#[test]
fn numeric_tokens_are_ascii_digits() {
    assert!(is_numeric("42"));
    assert!(is_numeric("0"));
    assert!(!is_numeric(""));
    assert!(!is_numeric("4 2"));
    assert!(!is_numeric("42nd"));
    assert!(!is_numeric("-42"));
    assert!(!is_numeric("\u{0663}"));
}

#[test]
fn trim_drops_white_space_at_both_ends() {
    assert_eq!("a b", trim(" \t a b\n"));
    assert_eq!("", trim(" \u{a0} "));
    assert_eq!("", trim(""));
    assert_eq!("\u{e9}t\u{e9}", trim("\u{2003}\u{e9}t\u{e9}\u{2003}"));
}

#[test]
fn white_space_is_twenty_five_characters() {
    let ranges: [(u32, u32); 11] = [
        (0x9, 0xd),
        (0x20, 0x20),
        (0x85, 0x85),
        (0xa0, 0xa0),
        (0x1680, 0x1680),
        (0x2000, 0x200a),
        (0x2028, 0x2028),
        (0x2029, 0x2029),
        (0x202f, 0x202f),
        (0x205f, 0x205f),
        (0x3000, 0x3000),
    ];
    let mut count = 0;
    for code in 0..=0x10ffffu32 {
        if let Some(c) = char::from_u32(code) {
            let listed = ranges.iter().any(|(low, high)| *low <= code && code <= *high);
            let text = c.to_string();
            assert_eq!(trim(&text).is_empty(), listed);
            if listed {
                count += 1;
            }
        }
    }
    assert_eq!(count, 25);
}

#[test]
fn a_numeric_word_is_trimmed_already() {
    for text in ["42", "0", "1900", "0042"] {
        assert!(is_numeric(text));
        assert_eq!(trim(text), text);
    }
    assert_eq!(trim("the"), "the");
}
