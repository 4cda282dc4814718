//! Text of words: character classes, trimming, numeric tokens and cleaned
//! words.

use vstd::prelude::*;
use vstd::string::StrSliceExecFns;

verus! {

/// Whether `c` is one of the ten ASCII digits.
pub open spec fn ascii_digit(c: char) -> bool {
    '0' <= c <= '9'
}

/// Whether `c` is one of the 32 ASCII punctuation characters.
pub open spec fn ascii_punctuation(c: char) -> bool {
    ||| '!' <= c <= '/'
    ||| ':' <= c <= '@'
    ||| '[' <= c <= '`'
    ||| '{' <= c <= '~'
}

/// Whether every character of `s` is an ASCII digit.
pub open spec fn all_ascii_digits(s: Seq<char>) -> bool {
    forall|i: int| 0 <= i < s.len() ==> ascii_digit(#[trigger] s[i])
}

/// Whether `s` is a number as it is written in running text: at least one
/// character, and ASCII digits only.
pub open spec fn numeric(s: Seq<char>) -> bool {
    s.len() > 0 && all_ascii_digits(s)
}

/// The models of a sequence of texts.
pub open spec fn texts_model(texts: Seq<String>) -> Seq<Seq<char>> {
    Seq::new(texts.len(), |i: int| texts[i]@)
}

/// Whether `c` has the Unicode property White_Space: the tab and the
/// other controls from U+0009 to U+000D, the space, the next-line control,
/// the no-break spaces, the Ogham space mark, the spaces of fixed width,
/// the line and paragraph separators, the mathematical and the ideographic
/// space.
pub open spec fn white_space(c: char) -> bool {
    ||| '\u{9}' <= c <= '\u{d}'
    ||| c == '\u{20}'
    ||| c == '\u{85}'
    ||| c == '\u{a0}'
    ||| c == '\u{1680}'
    ||| '\u{2000}' <= c <= '\u{200a}'
    ||| c == '\u{2028}'
    ||| c == '\u{2029}'
    ||| c == '\u{202f}'
    ||| c == '\u{205f}'
    ||| c == '\u{3000}'
}

/// Whether `c` has the Unicode property Uppercase.
pub uninterp spec fn uppercase(c: char) -> bool;

/// Whether `c` has the Unicode property Alphabetic.
pub uninterp spec fn alphabetic(c: char) -> bool;

/// The lowercase form of a text. It is taken of the text as a whole: one
/// character may become several, and what a character becomes may depend on
/// its neighbours.
pub uninterp spec fn lowercase(s: Seq<char>) -> Seq<char>;

/// What is left of `haystack` when every match of the regular expression
/// `pattern`, taken from left to right without overlap, gives way to
/// `replacement`; `None` where `pattern` is no regular expression.
pub uninterp spec fn regex_replace_all(
    pattern: Seq<char>,
    haystack: Seq<char>,
    replacement: Seq<char>,
) -> Option<Seq<char>>;

/// `s` without the white space it starts with.
pub open spec fn skip_leading_space(s: Seq<char>) -> Seq<char>
    decreases s.len(),
{
    if s.len() > 0 && white_space(s.first()) {
        skip_leading_space(s.drop_first())
    } else {
        s
    }
}

/// `s` without the white space it ends with.
pub open spec fn skip_trailing_space(s: Seq<char>) -> Seq<char>
    decreases s.len(),
{
    if s.len() > 0 && white_space(s.last()) {
        skip_trailing_space(s.drop_last())
    } else {
        s
    }
}

/// `s` without the white space at either end.
pub open spec fn trimmed(s: Seq<char>) -> Seq<char> {
    skip_trailing_space(skip_leading_space(s))
}

/// The pattern of a character that belongs to no word.
pub open spec fn not_word_pattern() -> Seq<char> {
    seq!['\\', 'W']
}

/// The pattern of a punctuation character.
pub open spec fn punctuation_pattern() -> Seq<char> {
    seq!['\\', 'p', 'P']
}

/// What `finish_cleaning` makes of a word once its matches are erased.
pub open spec fn finished(bare: Seq<char>) -> Option<Seq<char>> {
    let kept = trimmed(bare);
    if kept.len() == 0 {
        None
    } else {
        Some(kept)
    }
}

/// The cleaned form of a word: lower-cased, then without the characters
/// that belong to no word, then without punctuation, then trimmed; `None`
/// where nothing is left.
pub open spec fn cleaned(input: Seq<char>) -> Option<Seq<char>> {
    match regex_replace_all(not_word_pattern(), lowercase(input), Seq::empty()) {
        None => None,
        Some(wordy) => match regex_replace_all(punctuation_pattern(), wordy, Seq::empty()) {
            None => None,
            Some(bare) => finished(bare),
        },
    }
}

/// The model of an optional text.
pub open spec fn text_model(text: Option<String>) -> Option<Seq<char>> {
    match text {
        None => None,
        Some(t) => Some(t@),
    }
}

/// `char::is_whitespace` of std: whether the character has the Unicode
/// property White_Space. The contract states the property by the code
/// points that have it.
#[verifier::external_body]
fn is_whitespace(c: char) -> (r: bool)
    ensures
        r == white_space(c),
{
    c.is_whitespace()
}

/// `char::is_uppercase` of std: whether the character has the Unicode
/// property Uppercase. The contract gives that answer its name.
#[verifier::external_body]
pub(crate) fn is_uppercase(c: char) -> (r: bool)
    ensures
        r == uppercase(c),
{
    c.is_uppercase()
}

/// `char::is_alphabetic` of std: whether the character has the Unicode
/// property Alphabetic. The contract gives that answer its name.
#[verifier::external_body]
pub(crate) fn is_alphabetic(c: char) -> (r: bool)
    ensures
        r == alphabetic(c),
{
    c.is_alphabetic()
}

/// `str::to_lowercase` of std: the lowercase form of the whole text, as a
/// new string. The contract gives that form its name.
#[verifier::external_body]
pub(crate) fn to_lowercase(text: &str) -> (lower: String)
    ensures
        lower@ == lowercase(text@),
{
    text.to_lowercase()
}

/// `Regex::new` and `Regex::replace_all` of the regex crate: compiles
/// `pattern` and replaces each of its matches in `haystack`, found from left
/// to right without overlap, by `replacement`, in which the crate reads `$`
/// as a reference to a group of the match. `None` is the crate's refusal of
/// the pattern. The contract claims that the outcome depends on the three
/// texts alone.
#[verifier::external_body]
fn replace_all(pattern: &str, haystack: &str, replacement: &str) -> (replaced: Option<String>)
    ensures
        text_model(replaced) == regex_replace_all(pattern@, haystack@, replacement@),
{
    match regex::Regex::new(pattern) {
        Ok(re) => Some(re.replace_all(haystack, replacement).into_owned()),
        Err(_) => None,
    }
}

/// Whether `c` is one of the ten ASCII digits.
pub fn is_ascii_digit(c: char) -> (r: bool)
    ensures
        r == ascii_digit(c),
{
    '0' <= c && c <= '9'
}

/// Whether `c` is one of the 32 ASCII punctuation characters.
pub fn is_ascii_punctuation(c: char) -> (r: bool)
    ensures
        r == ascii_punctuation(c),
{
    ('!' <= c && c <= '/') || (':' <= c && c <= '@') || ('[' <= c && c <= '`') || ('{' <= c && c
        <= '~')
}

/// The characters of a text, one by one.
pub fn chars_of(text: &str) -> (chars: Vec<char>)
    ensures
        chars@ == text@,
{
    let mut chars: Vec<char> = Vec::new();
    for c in it: text.chars()
        invariant
            it.seq() == text@,
            chars@ == text@.take(it.index()),
    {
        chars.push(c);
        assert(text@.take(it.index() + 1) =~= text@.take(it.index()).push(c));
    }
    assert(text@.take(text@.len() as int) =~= text@);
    chars
}

/// Whether `input` is a number as it is written in running text: at least
/// one character, and ASCII digits only.
pub fn is_numeric(input: &str) -> (r: bool)
    ensures
        r == numeric(input@),
{
    let mut seen: bool = false;
    for c in it: input.chars()
        invariant
            it.seq() == input@,
            seen == (it.index() > 0),
            forall|i: int| 0 <= i < it.index() ==> ascii_digit(#[trigger] input@[i]),
    {
        if !is_ascii_digit(c) {
            return false;
        }
        seen = true;
    }
    seen
}

/// `text` without the white space at either end.
pub fn trim(text: &str) -> (kept: &str)
    ensures
        kept@ == trimmed(text@),
{
    let chars = chars_of(text);
    let n = chars.len();
    let mut a: usize = 0;
    assert(chars@.skip(0) =~= chars@);
    while a < n && is_whitespace(chars[a])
        invariant
            a <= n,
            n == chars@.len(),
            skip_leading_space(chars@) == skip_leading_space(chars@.skip(a as int)),
        decreases n - a,
    {
        assert(chars@.skip(a as int).drop_first() =~= chars@.skip(a + 1));
        a += 1;
    }
    assert(skip_leading_space(chars@) == chars@.skip(a as int));
    let ghost rest = chars@.skip(a as int);
    let mut b: usize = n;
    assert(rest.take(n - a) =~= rest);
    while b > a && is_whitespace(chars[b - 1])
        invariant
            a <= b <= n,
            n == chars@.len(),
            rest == chars@.skip(a as int),
            skip_trailing_space(rest) == skip_trailing_space(rest.take(b - a)),
        decreases b,
    {
        assert(rest.take(b - a).drop_last() =~= rest.take(b - a - 1));
        b -= 1;
    }
    assert(skip_trailing_space(rest) == rest.take(b - a));
    assert(rest.take(b - a) =~= text@.subrange(a as int, b as int));
    text.substring_char(a, b)
}

/// The last step of cleaning a word: what is left is trimmed, and counts
/// only if it is not empty.
pub fn finish_cleaning(bare: &str) -> (word: Option<String>)
    ensures
        text_model(word) == finished(bare@),
{
    let kept = trim(bare);
    if kept.unicode_len() == 0 {
        None
    } else {
        Some(kept.to_owned())
    }
}

/// The cleaned form of a word, by which words are counted: lower-cased and
/// without anything but letters, digits and marks. `None` where nothing is
/// left of it.
pub fn clean_word(input: &str) -> (word: Option<String>)
    ensures
        text_model(word) == cleaned(input@),
{
    proof {
        reveal_strlit("\\W");
        reveal_strlit("\\pP");
        reveal_strlit("");
        assert("\\W"@ =~= not_word_pattern());
        assert("\\pP"@ =~= punctuation_pattern());
        assert(""@ =~= Seq::<char>::empty());
    }
    let lower = to_lowercase(input);
    match replace_all("\\W", lower.as_str(), "") {
        None => None,
        Some(wordy) => match replace_all("\\pP", wordy.as_str(), "") {
            None => None,
            Some(bare) => finish_cleaning(bare.as_str()),
        },
    }
}

/// A text that neither starts nor ends with white space is trimmed
/// already.
pub proof fn lemma_trimmed_keeps(s: Seq<char>)
    requires
        s.len() > 0 ==> !white_space(s.first()) && !white_space(s.last()),
    ensures
        trimmed(s) == s,
{
}

/// A text of white space alone is trimmed to nothing.
pub proof fn lemma_trimmed_of_space(s: Seq<char>)
    requires
        forall|i: int| 0 <= i < s.len() ==> white_space(#[trigger] s[i]),
    ensures
        trimmed(s) == Seq::<char>::empty(),
        finished(s) is None,
    decreases s.len(),
{
    if s.len() > 0 {
        lemma_trimmed_of_space(s.drop_first());
    }
}

/// A numeric text is trimmed already: no digit is white space.
pub proof fn lemma_numeric_is_trimmed(s: Seq<char>)
    requires
        numeric(s),
    ensures
        trimmed(s) == s,
{
    assert(ascii_digit(s[0]));
    assert(ascii_digit(s[s.len() - 1]));
    lemma_trimmed_keeps(s);
}

/// Cleaning a word looks at its lowercase form only: two words that differ
/// in case alone are cleaned to the same.
pub proof fn lemma_clean_word_ignores_case(a: Seq<char>, b: Seq<char>)
    requires
        lowercase(a) == lowercase(b),
    ensures
        cleaned(a) == cleaned(b),
{
}

} // verus!
