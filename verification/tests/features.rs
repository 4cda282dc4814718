use djvuxml::features::{
    count_flags, fraction, line_counts, line_profile, page_fraction, page_profile,
    page_upper_starts, stat_feature_names, stopword_token, stopword_tokens, word_counts,
    word_starts_upper, Counts, LineProfile, ProfileError, Ratio,
};
use djvuxml::text::{chars_of, is_ascii_digit, is_ascii_punctuation};
use djvuxml::types::{BookPage, BookWord, WordCoords};

fn word(x1: u16, x2: u16, text: &str) -> BookWord {
    BookWord::new(WordCoords { x1, y1: 0, x2, y2: 0, base: 0 }, text.to_string())
}

fn page() -> BookPage {
    BookPage {
        width: 1000,
        height: 2000,
        dpi: 300,
        lines: vec![
            vec![word(100, 180, "The"), word(200, 280, "cat,"), word(400, 300, "\u{c9}t\u{e9}")],
            vec![],
            vec![word(90, 50, " 42nd ")],
        ],
    }
}

#[test]
fn the_counts_of_a_word() {
    assert_eq!(
        word_counts("Ab1!"),
        Counts { words: 1, punctuated: 1, letters: 4, upper: 1, digits: 1, alphanumeric: 3 }
    );
    assert_eq!(
        word_counts(""),
        Counts { words: 1, punctuated: 0, letters: 0, upper: 0, digits: 0, alphanumeric: 0 }
    );
    assert_eq!(
        word_counts("\u{c9}\u{e9}\u{0663}\u{2014} "),
        Counts { words: 1, punctuated: 0, letters: 5, upper: 1, digits: 0, alphanumeric: 2 }
    );
    assert_eq!(word_counts("a-b").punctuated, 1);
    assert_eq!(word_counts("1900").digits, 4);
    assert_eq!(word_counts("1900").alphanumeric, 4);
}

#[test]
fn the_classes_of_ascii() {
    let punctuation = "!\"#$%&'()*+,-./:;<=>?@[\\]^_`{|}~";
    assert_eq!(punctuation.len(), 32);
    for c in (0u8..128).map(char::from) {
        assert_eq!(is_ascii_punctuation(c), punctuation.contains(c));
        assert_eq!(is_ascii_digit(c), "0123456789".contains(c));
    }
    assert!(!is_ascii_punctuation('\u{2014}'));
    assert!(!is_ascii_digit('\u{0663}'));
    assert_eq!(chars_of("a\u{e9}"), vec!['a', '\u{e9}']);
}

#[test]
fn a_first_character_in_uppercase() {
    assert!(word_starts_upper("The"));
    assert!(word_starts_upper("\u{c9}t\u{e9}"));
    assert!(!word_starts_upper("the"));
    assert!(!word_starts_upper(" The"));
    assert!(!word_starts_upper("1st"));
    assert!(!word_starts_upper(""));
}

#[test]
fn the_shape_of_a_line() {
    let p = page();
    assert_eq!(
        line_profile(&p.lines[0]),
        LineProfile { words: 3, left: 100, right: 400, starts_upper: true }
    );
    assert_eq!(
        line_profile(&p.lines[1]),
        LineProfile { words: 0, left: 0, right: 0, starts_upper: false }
    );
    assert_eq!(
        line_profile(&p.lines[2]),
        LineProfile { words: 1, left: 50, right: 90, starts_upper: false }
    );
    assert_eq!(
        line_counts(&p.lines[0]),
        Some(Counts { words: 3, punctuated: 1, letters: 10, upper: 2, digits: 0, alphanumeric: 9 })
    );
    assert_eq!(line_counts(&p.lines[1]), Some(Counts::zero()));
}

#[test]
fn the_profile_of_a_page() {
    let p = page();
    let profile = page_profile(&p, &vec![true, false, false, false]).unwrap();
    assert_eq!(
        profile.counts,
        Counts { words: 4, punctuated: 1, letters: 16, upper: 2, digits: 2, alphanumeric: 13 }
    );
    assert_eq!(profile.stopwords, 1);
    assert_eq!(profile.upper_starts, vec![true, false, true, false]);
    assert_eq!(profile.lines.len(), 3);
    assert_eq!(profile.lines[0].words, 3);
    assert_eq!(profile.lines[2], LineProfile { words: 1, left: 50, right: 90, starts_upper: false });
    let empty = page_profile(&BookPage::new(), &vec![]).unwrap();
    assert_eq!(empty.counts, Counts::zero());
    assert_eq!(empty.stopwords, 0);
    assert!(empty.lines.is_empty());
    assert!(empty.upper_starts.is_empty());
}

#[test]
fn a_flag_for_each_word() {
    let p = page();
    assert_eq!(page_profile(&p, &vec![true; 3]), Err(ProfileError::FlagCount));
    assert_eq!(page_profile(&p, &vec![true; 5]), Err(ProfileError::FlagCount));
    assert_eq!(page_profile(&p, &vec![true; 4]).unwrap().stopwords, 4);
    assert_eq!(count_flags(&vec![]), 0);
    assert_eq!(count_flags(&vec![false, true, true, false, true]), 3);
}

#[test]
fn the_sum_of_counts() {
    let a = Counts { words: 1, punctuated: 2, letters: 3, upper: 4, digits: 5, alphanumeric: 6 };
    let b = Counts { words: 10, punctuated: 20, letters: 30, upper: 40, digits: 50, alphanumeric: 60 };
    assert_eq!(
        a.plus(&b),
        Some(Counts { words: 11, punctuated: 22, letters: 33, upper: 44, digits: 55, alphanumeric: 66 })
    );
    let big = Counts { letters: usize::MAX, ..Counts::zero() };
    assert_eq!(big.plus(&a), None);
    assert_eq!(big.plus(&Counts::zero()), Some(big));
    let wide = Counts { words: usize::MAX - 1, ..Counts::zero() };
    assert_eq!(wide.plus(&a), Some(Counts { words: usize::MAX, ..a }));
    assert_eq!(wide.plus(&b), None);
}

#[test]
fn stopword_tokens_are_trimmed_and_in_lowercase() {
    assert_eq!(stopword_token("The"), "the");
    assert_eq!(stopword_token("  THE\t"), "the");
    assert_eq!(stopword_token("\u{c9}T\u{c9}"), "\u{e9}t\u{e9}");
    assert_eq!(stopword_token("the"), stopword_token("tHe"));
    assert_eq!(stopword_token("?"), "?");
    assert_eq!(stopword_tokens(&page()), vec!["the", "cat,", "\u{e9}t\u{e9}", "42nd"]);
    assert_eq!(page_upper_starts(&page()), vec![true, false, true, false]);
    assert!(stopword_tokens(&BookPage::new()).is_empty());
}

#[test]
fn six_features_for_each_distribution() {
    assert_eq!(
        stat_feature_names("left_margin"),
        vec![
            "left_margin_max",
            "left_margin_min",
            "left_margin_mean",
            "left_margin_stddev",
            "left_margin_total",
            "left_margin_count",
        ]
    );
}

fn r(numerator: u64, denominator: u64) -> Ratio {
    Ratio { numerator, denominator }
}

#[test]
fn a_denominator_is_floored_at_one() {
    assert_eq!(fraction(3, 4), r(3, 4));
    assert_eq!(fraction(3, 0), r(3, 1));
    assert_eq!(fraction(0, 0), r(0, 1));
    assert_eq!(page_fraction(0, 0), r(0, 1));
    assert_eq!(page_fraction(2, 10), r(2, 10));
}

#[test]
fn the_ratios_of_a_page() {
    let profile = page_profile(&page(), &vec![true, false, false, false]).unwrap();
    assert_eq!(profile.cap_letters(), r(2, 16));
    assert_eq!(profile.digits_letters(), r(2, 16));
    assert_eq!(profile.alphanum_letters(), r(13, 16));
    assert_eq!(profile.stopword_share(), r(1, 4));
    assert_eq!(profile.punctuation_share(), r(1, 4));
    let empty = page_profile(&BookPage::new(), &vec![]).unwrap();
    assert_eq!(empty.cap_letters(), r(0, 1));
    assert_eq!(empty.stopword_share(), r(0, 1));
}

#[test]
fn the_distributions_of_a_page() {
    let profile = page_profile(&page(), &vec![false; 4]).unwrap();
    let d = profile.distributions(1000);
    assert_eq!(d.left_margin, vec![r(100, 1000), r(1, 2), r(50, 1000)]);
    assert_eq!(d.right_margin, vec![r(400, 1000), r(1, 2), r(90, 1000)]);
    assert_eq!(d.words_per_line, vec![r(3, 1), r(0, 1), r(1, 1)]);
    assert_eq!(d.cap_lines, vec![r(1, 1), r(0, 1), r(0, 1)]);
    assert_eq!(d.cap_words, vec![r(1, 1), r(0, 1), r(1, 1), r(0, 1)]);
    let unknown_width = profile.distributions(0);
    assert_eq!(unknown_width.left_margin, vec![r(100, 1), r(1, 2), r(50, 1)]);
}

#[test]
fn a_default_stands_for_a_distribution_without_observations() {
    let empty = page_profile(&BookPage::new(), &vec![]).unwrap();
    let d = empty.distributions(1000);
    assert_eq!(d.left_margin, vec![r(1, 2)]);
    assert_eq!(d.right_margin, vec![r(1, 2)]);
    assert_eq!(d.words_per_line, vec![r(0, 1)]);
    assert_eq!(d.cap_lines, vec![r(0, 1)]);
    assert_eq!(d.cap_words, vec![r(0, 1)]);
    let mut blank = BookPage::new();
    blank.lines.push(Vec::new());
    let d = page_profile(&blank, &vec![]).unwrap().distributions(7);
    assert_eq!(d.left_margin, vec![r(1, 2)]);
    assert_eq!(d.words_per_line, vec![r(0, 1)]);
    assert_eq!(d.cap_lines, vec![r(0, 1)]);
    assert_eq!(d.cap_words, vec![r(0, 1)]);
}
