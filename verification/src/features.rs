//! What is counted on a page before anything is divided: words, characters
//! by class, the shape of each line. The ratios and the statistics of a
//! page are taken from these numbers.

use crate::text::{
    alphabetic, ascii_digit, ascii_punctuation, chars_of, is_alphabetic, is_ascii_digit,
    is_ascii_punctuation, is_uppercase, lowercase, texts_model, to_lowercase, trim, trimmed,
    uppercase,
};
use crate::types::{line_model, lines_model, BookPage, BookWord, WordModel};
use vstd::prelude::*;
use vstd::string::StringExecFns;

verus! {

/// Whether a character counts as a letter or a digit.
pub open spec fn alphanumeric(c: char) -> bool {
    alphabetic(c) || ascii_digit(c)
}

/// Whether a text holds an ASCII punctuation character.
pub open spec fn has_punctuation(text: Seq<char>) -> bool {
    exists|i: int| 0 <= i < text.len() && ascii_punctuation(#[trigger] text[i])
}

/// Whether a text starts with an uppercase character.
pub open spec fn starts_upper(text: Seq<char>) -> bool {
    text.len() > 0 && uppercase(text[0])
}

/// One for what holds, nothing for what does not.
pub open spec fn unit(holds: bool) -> nat {
    if holds {
        1
    } else {
        0
    }
}

/// The counts of a stretch of text, as numbers without bound.
pub struct Tally {
    /// Words.
    pub words: nat,
    /// Words with an ASCII punctuation character.
    pub punctuated: nat,
    /// Characters.
    pub letters: nat,
    /// Uppercase characters.
    pub upper: nat,
    /// ASCII digits.
    pub digits: nat,
    /// Characters that are alphabetic or an ASCII digit.
    pub alphanumeric: nat,
}

impl Tally {
    /// The counts of nothing.
    pub open spec fn zero() -> Tally {
        Tally { words: 0, punctuated: 0, letters: 0, upper: 0, digits: 0, alphanumeric: 0 }
    }

    /// The counts of two stretches together.
    pub open spec fn plus(self, other: Tally) -> Tally {
        Tally {
            words: self.words + other.words,
            punctuated: self.punctuated + other.punctuated,
            letters: self.letters + other.letters,
            upper: self.upper + other.upper,
            digits: self.digits + other.digits,
            alphanumeric: self.alphanumeric + other.alphanumeric,
        }
    }

    /// Whether no count of `self` is above the same count of `other`.
    pub open spec fn within(self, other: Tally) -> bool {
        &&& self.words <= other.words
        &&& self.punctuated <= other.punctuated
        &&& self.letters <= other.letters
        &&& self.upper <= other.upper
        &&& self.digits <= other.digits
        &&& self.alphanumeric <= other.alphanumeric
    }

    /// Whether every count fits a machine word.
    pub open spec fn fits(self) -> bool {
        &&& self.words <= usize::MAX
        &&& self.punctuated <= usize::MAX
        &&& self.letters <= usize::MAX
        &&& self.upper <= usize::MAX
        &&& self.digits <= usize::MAX
        &&& self.alphanumeric <= usize::MAX
    }
}

/// The counts of one character.
pub open spec fn tally_char(c: char) -> Tally {
    Tally {
        words: 0,
        punctuated: 0,
        letters: 1,
        upper: unit(uppercase(c)),
        digits: unit(ascii_digit(c)),
        alphanumeric: unit(alphanumeric(c)),
    }
}

/// The counts of the characters of a text.
pub open spec fn tally_text(text: Seq<char>) -> Tally
    decreases text.len(),
{
    if text.len() == 0 {
        Tally::zero()
    } else {
        tally_text(text.drop_last()).plus(tally_char(text.last()))
    }
}

/// The counts of one word.
pub open spec fn tally_word(text: Seq<char>) -> Tally {
    Tally { words: 1, punctuated: unit(has_punctuation(text)), ..tally_text(text) }
}

/// The counts of a line.
pub open spec fn tally_line(line: Seq<WordModel>) -> Tally
    decreases line.len(),
{
    if line.len() == 0 {
        Tally::zero()
    } else {
        tally_line(line.drop_last()).plus(tally_word(line.last().text))
    }
}

/// The counts of a page.
pub open spec fn tally_page(lines: Seq<Seq<WordModel>>) -> Tally
    decreases lines.len(),
{
    if lines.len() == 0 {
        Tally::zero()
    } else {
        tally_page(lines.drop_last()).plus(tally_line(lines.last()))
    }
}

/// The words of a page in reading order.
pub open spec fn page_words(lines: Seq<Seq<WordModel>>) -> Seq<WordModel>
    decreases lines.len(),
{
    if lines.len() == 0 {
        Seq::empty()
    } else {
        page_words(lines.drop_last()) + lines.last()
    }
}

/// For each word, whether it starts with an uppercase character.
pub open spec fn upper_starts(words: Seq<WordModel>) -> Seq<bool> {
    Seq::new(words.len(), |k: int| starts_upper(words[k].text))
}

/// For each word, the token by which it is looked up among the stopwords:
/// the word without the white space around it, in lowercase.
pub open spec fn tokens_of(words: Seq<WordModel>) -> Seq<Seq<char>> {
    Seq::new(words.len(), |k: int| lowercase(trimmed(words[k].text)))
}

/// The token of a word looks at the lowercase form of the trimmed word
/// only: two words that differ in case alone have the same token.
pub proof fn lemma_token_ignores_case(a: WordModel, b: WordModel)
    requires
        lowercase(trimmed(a.text)) == lowercase(trimmed(b.text)),
    ensures
        tokens_of(seq![a]) == tokens_of(seq![b]),
{
    assert(tokens_of(seq![a]) =~= tokens_of(seq![b]));
}

/// The number of flags that are set.
pub open spec fn count_true(flags: Seq<bool>) -> nat
    decreases flags.len(),
{
    if flags.len() == 0 {
        0
    } else {
        count_true(flags.drop_last()) + unit(flags.last())
    }
}

/// The counts of a stretch of text, as the machine holds them.
#[derive(Debug, Copy, Clone, PartialEq, Eq, Structural)]
pub struct Counts {
    /// Words.
    pub words: usize,
    /// Words with an ASCII punctuation character.
    pub punctuated: usize,
    /// Characters.
    pub letters: usize,
    /// Uppercase characters.
    pub upper: usize,
    /// ASCII digits.
    pub digits: usize,
    /// Characters that are alphabetic or an ASCII digit.
    pub alphanumeric: usize,
}

impl View for Counts {
    type V = Tally;

    open spec fn view(&self) -> Tally {
        Tally {
            words: self.words as nat,
            punctuated: self.punctuated as nat,
            letters: self.letters as nat,
            upper: self.upper as nat,
            digits: self.digits as nat,
            alphanumeric: self.alphanumeric as nat,
        }
    }
}

impl Counts {
    /// The counts of nothing.
    pub fn zero() -> (counts: Counts)
        ensures
            counts@ == Tally::zero(),
    {
        Counts { words: 0, punctuated: 0, letters: 0, upper: 0, digits: 0, alphanumeric: 0 }
    }

    /// The sum of two counts, where it fits.
    pub fn plus(&self, other: &Counts) -> (sum: Option<Counts>)
        ensures
            match sum {
                Some(counts) => counts@ == self@.plus(other@),
                None => !self@.plus(other@).fits(),
            },
    {
        let words = match self.words.checked_add(other.words) {
            Some(n) => n,
            None => {
                return None;
            },
        };
        let punctuated = match self.punctuated.checked_add(other.punctuated) {
            Some(n) => n,
            None => {
                return None;
            },
        };
        let letters = match self.letters.checked_add(other.letters) {
            Some(n) => n,
            None => {
                return None;
            },
        };
        let upper = match self.upper.checked_add(other.upper) {
            Some(n) => n,
            None => {
                return None;
            },
        };
        let digits = match self.digits.checked_add(other.digits) {
            Some(n) => n,
            None => {
                return None;
            },
        };
        let alphanumeric = match self.alphanumeric.checked_add(other.alphanumeric) {
            Some(n) => n,
            None => {
                return None;
            },
        };
        Some(Counts { words, punctuated, letters, upper, digits, alphanumeric })
    }
}

/// The shape of a line: how many words it has, how far it reaches to the
/// left and to the right, and whether it starts with an uppercase
/// character.
#[derive(Debug, Copy, Clone, PartialEq, Eq, Structural)]
pub struct LineProfile {
    /// The number of words.
    pub words: usize,
    /// The leftmost coordinate of the first word; 0 on an empty line.
    pub left: u16,
    /// The rightmost coordinate of the last word; 0 on an empty line.
    pub right: u16,
    /// Whether the first word starts with an uppercase character.
    pub starts_upper: bool,
}

/// The shape of a line.
pub open spec fn line_shape(line: Seq<WordModel>) -> LineProfile {
    if line.len() == 0 {
        LineProfile { words: 0, left: 0, right: 0, starts_upper: false }
    } else {
        let first = line.first().coords;
        let last = line.last().coords;
        LineProfile {
            words: line.len() as usize,
            left: if first.x1 <= first.x2 {
                first.x1
            } else {
                first.x2
            },
            right: if last.x1 >= last.x2 {
                last.x1
            } else {
                last.x2
            },
            starts_upper: starts_upper(line.first().text),
        }
    }
}

/// The shapes of the lines of a page.
pub open spec fn line_shapes(lines: Seq<Seq<WordModel>>) -> Seq<LineProfile> {
    Seq::new(lines.len(), |j: int| line_shape(lines[j]))
}

/// What is counted on a page.
#[derive(Debug, Clone, PartialEq, Eq)]
pub struct PageProfile {
    /// The counts of the page.
    pub counts: Counts,
    /// The number of words that are stopwords.
    pub stopwords: usize,
    /// The shape of each line.
    pub lines: Vec<LineProfile>,
    /// For each word in reading order, whether it starts with an uppercase
    /// character.
    pub upper_starts: Vec<bool>,
}

/// Why a page has no profile.
#[derive(Debug, Copy, Clone, PartialEq, Eq, Structural)]
pub enum ProfileError {
    /// A count of the page does not fit a machine word.
    Overflow,
    /// There is not one stopword flag for each word of the page.
    FlagCount,
}

/// The profile of a page whose words have the stopword flags `flags`.
pub open spec fn profile_holds(
    profile: PageProfile,
    lines: Seq<Seq<WordModel>>,
    flags: Seq<bool>,
) -> bool {
    &&& profile.counts@ == tally_page(lines)
    &&& profile.stopwords == count_true(flags)
    &&& profile.lines@ == line_shapes(lines)
    &&& profile.upper_starts@ == upper_starts(page_words(lines))
}

/// What `page_profile` owes for a page and its flags.
pub open spec fn profile_outcome(lines: Seq<Seq<WordModel>>, flags: Seq<bool>) -> Option<
    ProfileError,
> {
    if !tally_page(lines).fits() {
        Some(ProfileError::Overflow)
    } else if flags.len() != tally_page(lines).words {
        Some(ProfileError::FlagCount)
    } else {
        None
    }
}

/// The counts of the beginning of a line are within those of the line.
pub proof fn lemma_tally_line_grows(line: Seq<WordModel>, k: int)
    requires
        0 <= k <= line.len(),
    ensures
        tally_line(line.take(k)).within(tally_line(line)),
        tally_line(line).words == line.len(),
    decreases line.len(),
{
    if line.len() == 0 {
        assert(line.take(k) =~= line);
    } else if k == line.len() {
        assert(line.take(k) =~= line);
        lemma_tally_line_grows(line.drop_last(), k - 1);
    } else {
        lemma_tally_line_grows(line.drop_last(), k);
        assert(line.drop_last().take(k) =~= line.take(k));
    }
}

/// The counts of the first lines of a page are within those of the page,
/// and a page has as many words as its lines have together.
pub proof fn lemma_tally_page_grows(lines: Seq<Seq<WordModel>>, k: int)
    requires
        0 <= k <= lines.len(),
    ensures
        tally_page(lines.take(k)).within(tally_page(lines)),
        tally_page(lines).words == page_words(lines).len(),
    decreases lines.len(),
{
    if lines.len() == 0 {
        assert(lines.take(k) =~= lines);
    } else {
        lemma_tally_line_grows(lines.last(), 0);
        if k == lines.len() {
            assert(lines.take(k) =~= lines);
            lemma_tally_page_grows(lines.drop_last(), k - 1);
        } else {
            lemma_tally_page_grows(lines.drop_last(), k);
            assert(lines.drop_last().take(k) =~= lines.take(k));
        }
    }
}

/// Whether a text starts with an uppercase character.
pub fn word_starts_upper(text: &str) -> (yes: bool)
    ensures
        yes == starts_upper(text@),
{
    let mut chars = text.chars();
    match chars.next() {
        Some(c) => is_uppercase(c),
        None => false,
    }
}

/// The counts of one word.
pub fn word_counts(text: &str) -> (counts: Counts)
    ensures
        counts@ == tally_word(text@),
{
    let chars = chars_of(text);
    let n = chars.len();
    let mut upper: usize = 0;
    let mut digits: usize = 0;
    let mut alphanumeric: usize = 0;
    let mut punctuated: bool = false;
    let mut i: usize = 0;
    assert(text@.take(0) =~= Seq::empty());
    while i < n
        invariant
            i <= n,
            n == chars@.len(),
            chars@ == text@,
            upper <= i,
            digits <= i,
            alphanumeric <= i,
            punctuated == has_punctuation(text@.take(i as int)),
            tally_text(text@.take(i as int)) == (Tally {
                words: 0,
                punctuated: 0,
                letters: i as nat,
                upper: upper as nat,
                digits: digits as nat,
                alphanumeric: alphanumeric as nat,
            }),
        decreases n - i,
    {
        let c = chars[i];
        let ghost sofar = text@.take(i as int);
        let ghost longer = text@.take(i + 1);
        proof {
            assert(longer.drop_last() =~= sofar);
            assert(longer.last() == c);
            if has_punctuation(sofar) {
                let w = choose|w: int| 0 <= w < sofar.len() && ascii_punctuation(#[trigger] sofar[w]);
                assert(ascii_punctuation(longer[w]));
            }
            if has_punctuation(longer) && !ascii_punctuation(c) {
                let w = choose|w: int|
                    0 <= w < longer.len() && ascii_punctuation(#[trigger] longer[w]);
                assert(ascii_punctuation(sofar[w]));
            }
            if ascii_punctuation(c) {
                assert(ascii_punctuation(longer[i as int]));
            }
        }
        if is_uppercase(c) {
            upper = upper + 1;
        }
        if is_ascii_digit(c) {
            digits = digits + 1;
            alphanumeric = alphanumeric + 1;
        } else if is_alphabetic(c) {
            alphanumeric = alphanumeric + 1;
        }
        if is_ascii_punctuation(c) {
            punctuated = true;
        }
        i += 1;
    }
    assert(text@.take(n as int) =~= text@);
    Counts {
        words: 1,
        punctuated: if punctuated {
            1
        } else {
            0
        },
        letters: n,
        upper,
        digits,
        alphanumeric,
    }
}

/// The counts of a line, where they fit.
pub fn line_counts(line: &Vec<BookWord>) -> (counts: Option<Counts>)
    ensures
        match counts {
            Some(c) => c@ == tally_line(line_model(line@)),
            None => !tally_line(line_model(line@)).fits(),
        },
{
    let ghost model = line_model(line@);
    let mut total = Counts::zero();
    let mut k: usize = 0;
    assert(model.take(0) =~= Seq::empty());
    while k < line.len()
        invariant
            k <= line@.len(),
            model == line_model(line@),
            total@ == tally_line(model.take(k as int)),
        decreases line@.len() - k,
    {
        let word = word_counts(line[k].text.as_str());
        proof {
            assert(model.take(k + 1).drop_last() =~= model.take(k as int));
            assert(model.take(k + 1).last().text == line@[k as int].text@);
            lemma_tally_line_grows(model, k + 1);
        }
        total = match total.plus(&word) {
            Some(t) => t,
            None => {
                return None;
            },
        };
        k += 1;
    }
    assert(model.take(line@.len() as int) =~= model);
    Some(total)
}

/// The shape of a line.
pub fn line_profile(line: &Vec<BookWord>) -> (profile: LineProfile)
    ensures
        profile == line_shape(line_model(line@)),
{
    let n = line.len();
    if n == 0 {
        LineProfile { words: 0, left: 0, right: 0, starts_upper: false }
    } else {
        let first = &line[0];
        let last = &line[n - 1];
        LineProfile {
            words: n,
            left: if first.coords.x1 <= first.coords.x2 {
                first.coords.x1
            } else {
                first.coords.x2
            },
            right: if last.coords.x1 >= last.coords.x2 {
                last.coords.x1
            } else {
                last.coords.x2
            },
            starts_upper: word_starts_upper(first.text.as_str()),
        }
    }
}

/// The number of flags that are set.
pub fn count_flags(flags: &Vec<bool>) -> (n: usize)
    ensures
        n == count_true(flags@),
{
    let mut n: usize = 0;
    let mut i: usize = 0;
    assert(flags@.take(0) =~= Seq::empty());
    while i < flags.len()
        invariant
            i <= flags@.len(),
            n <= i,
            n == count_true(flags@.take(i as int)),
        decreases flags@.len() - i,
    {
        assert(flags@.take(i + 1).drop_last() =~= flags@.take(i as int));
        if flags[i] {
            n = n + 1;
        }
        i += 1;
    }
    assert(flags@.take(flags@.len() as int) =~= flags@);
    n
}

/// The token by which a word is looked up among the stopwords.
pub fn stopword_token(text: &str) -> (token: String)
    ensures
        token@ == lowercase(trimmed(text@)),
{
    to_lowercase(trim(text))
}

/// The stopword tokens of the words of a page, in reading order.
pub fn stopword_tokens(page: &BookPage) -> (tokens: Vec<String>)
    ensures
        texts_model(tokens@) == tokens_of(page_words(page@.lines)),
{
    let ghost lines = page@.lines;
    let mut tokens: Vec<String> = Vec::new();
    let mut j: usize = 0;
    assert(lines.take(0) =~= Seq::empty());
    assert(texts_model(tokens@) =~= tokens_of(page_words(lines.take(0))));
    while j < page.lines.len()
        invariant
            j <= page.lines@.len(),
            lines == lines_model(page.lines@),
            texts_model(tokens@) == tokens_of(page_words(lines.take(j as int))),
        decreases page.lines@.len() - j,
    {
        let line = &page.lines[j];
        let ghost before = page_words(lines.take(j as int));
        let ghost model = line_model(line@);
        let mut k: usize = 0;
        assert(before + model.take(0) =~= before);
        while k < line.len()
            invariant
                k <= line@.len(),
                model == line_model(line@),
                texts_model(tokens@) == tokens_of(before + model.take(k as int)),
            decreases line@.len() - k,
        {
            let ghost had = tokens@;
            let ghost words = before + model.take(k as int);
            assert(had.len() == words.len()) by {
                assert(texts_model(had).len() == tokens_of(words).len());
            }
            tokens.push(stopword_token(line[k].text.as_str()));
            assert(before + model.take(k + 1) =~= words.push(model[k as int]));
            assert(model[k as int].text == line@[k as int].text@);
            assert forall|i: int| 0 <= i < tokens@.len() implies texts_model(tokens@)[i]
                == tokens_of(words.push(model[k as int]))[i] by {
                if i < had.len() {
                    assert(texts_model(had)[i] == tokens_of(words)[i]);
                }
            }
            assert(texts_model(tokens@) =~= tokens_of(before + model.take(k + 1)));
            k += 1;
        }
        proof {
            assert(model.take(line@.len() as int) =~= model);
            assert(lines.take(j + 1).drop_last() =~= lines.take(j as int));
            assert(lines.take(j + 1).last() == model);
        }
        j += 1;
    }
    assert(lines.take(page.lines@.len() as int) =~= lines);
    tokens
}

/// For each word of a page in reading order, whether it starts with an
/// uppercase character.
pub fn page_upper_starts(page: &BookPage) -> (starts: Vec<bool>)
    ensures
        starts@ == upper_starts(page_words(page@.lines)),
{
    let ghost lines = page@.lines;
    let mut starts: Vec<bool> = Vec::new();
    let mut j: usize = 0;
    assert(lines.take(0) =~= Seq::empty());
    assert(starts@ =~= upper_starts(page_words(lines.take(0))));
    while j < page.lines.len()
        invariant
            j <= page.lines@.len(),
            lines == lines_model(page.lines@),
            starts@ == upper_starts(page_words(lines.take(j as int))),
        decreases page.lines@.len() - j,
    {
        let line = &page.lines[j];
        let ghost before = page_words(lines.take(j as int));
        let ghost model = line_model(line@);
        let mut k: usize = 0;
        assert(before + model.take(0) =~= before);
        while k < line.len()
            invariant
                k <= line@.len(),
                model == line_model(line@),
                starts@ == upper_starts(before + model.take(k as int)),
            decreases line@.len() - k,
        {
            starts.push(word_starts_upper(line[k].text.as_str()));
            assert(before + model.take(k + 1) =~= (before + model.take(k as int)).push(
                model[k as int],
            ));
            assert(starts@ =~= upper_starts(before + model.take(k + 1)));
            k += 1;
        }
        proof {
            assert(model.take(line@.len() as int) =~= model);
            assert(lines.take(j + 1).drop_last() =~= lines.take(j as int));
            assert(lines.take(j + 1).last() == model);
        }
        j += 1;
    }
    assert(lines.take(page.lines@.len() as int) =~= lines);
    starts
}

/// Counts a page. `flags` says of each word, in reading order, whether its
/// token is a stopword.
pub fn page_profile(page: &BookPage, flags: &Vec<bool>) -> (profile: Result<
    PageProfile,
    ProfileError,
>)
    ensures
        match profile {
            Ok(p) => profile_outcome(page@.lines, flags@) is None && profile_holds(
                p,
                page@.lines,
                flags@,
            ),
            Err(e) => profile_outcome(page@.lines, flags@) == Some(e),
        },
{
    let ghost model = page@.lines;
    let mut total = Counts::zero();
    let mut shapes: Vec<LineProfile> = Vec::new();
    let mut j: usize = 0;
    assert(model.take(0) =~= Seq::empty());
    while j < page.lines.len()
        invariant
            j <= page.lines@.len(),
            model == lines_model(page.lines@),
            total@ == tally_page(model.take(j as int)),
            shapes@ == line_shapes(model.take(j as int)),
        decreases page.lines@.len() - j,
    {
        let line = &page.lines[j];
        proof {
            assert(model.take(j + 1).drop_last() =~= model.take(j as int));
            assert(model.take(j + 1).last() == line_model(line@));
            lemma_tally_page_grows(model, j + 1);
        }
        let counts = match line_counts(line) {
            Some(c) => c,
            None => {
                return Err(ProfileError::Overflow);
            },
        };
        total = match total.plus(&counts) {
            Some(t) => t,
            None => {
                return Err(ProfileError::Overflow);
            },
        };
        shapes.push(line_profile(line));
        assert(shapes@ =~= line_shapes(model.take(j + 1)));
        j += 1;
    }
    assert(model.take(page.lines@.len() as int) =~= model);
    if flags.len() != total.words {
        return Err(ProfileError::FlagCount);
    }
    let stopwords = count_flags(flags);
    let upper_starts = page_upper_starts(page);
    Ok(PageProfile { counts: total, stopwords, lines: shapes, upper_starts })
}

/// The names of the six features that summarize the distribution `name`:
/// its maximum, minimum, mean, standard deviation, total and count.
pub open spec fn summary_names(name: Seq<char>) -> Seq<Seq<char>> {
    seq![
        name + "_max"@,
        name + "_min"@,
        name + "_mean"@,
        name + "_stddev"@,
        name + "_total"@,
        name + "_count"@,
    ]
}

/// The names of the six features that summarize a distribution, in the
/// order maximum, minimum, mean, standard deviation, total, count.
pub fn stat_feature_names(name: &str) -> (names: Vec<String>)
    ensures
        texts_model(names@) == summary_names(name@),
{
    let mut names: Vec<String> = Vec::new();
    names.push(name.to_owned().concat("_max"));
    names.push(name.to_owned().concat("_min"));
    names.push(name.to_owned().concat("_mean"));
    names.push(name.to_owned().concat("_stddev"));
    names.push(name.to_owned().concat("_total"));
    names.push(name.to_owned().concat("_count"));
    assert(texts_model(names@) =~= summary_names(name@));
    names
}

/// A ratio of two counts. The denominator of a ratio that this module
/// hands out is never 0.
#[derive(Debug, Copy, Clone, PartialEq, Eq, Structural)]
pub struct Ratio {
    pub numerator: u64,
    pub denominator: u64,
}

/// The ratio of `numerator` to `denominator`, the latter floored at 1.
pub open spec fn ratio(numerator: u64, denominator: u64) -> Ratio {
    Ratio {
        numerator,
        denominator: if denominator < 1 {
            1
        } else {
            denominator
        },
    }
}

/// One half.
pub open spec fn half() -> Ratio {
    Ratio { numerator: 1, denominator: 2 }
}

/// One for what holds, zero for what does not.
pub open spec fn flag(holds: bool) -> Ratio {
    Ratio { numerator: if holds {
        1
    } else {
        0
    }, denominator: 1 }
}

/// What was observed, or the default alone where nothing was.
pub open spec fn or_default(observed: Seq<Ratio>, default: Ratio) -> Seq<Ratio> {
    if observed.len() == 0 {
        seq![default]
    } else {
        observed
    }
}

/// How far to the left a line reaches, as a share of the page's width; one
/// half for an empty line.
pub open spec fn left_margin_of(line: LineProfile, width: u32) -> Ratio {
    if line.words == 0 {
        half()
    } else {
        ratio(line.left as u64, width as u64)
    }
}

/// How far to the right a line reaches, as a share of the page's width; one
/// half for an empty line.
pub open spec fn right_margin_of(line: LineProfile, width: u32) -> Ratio {
    if line.words == 0 {
        half()
    } else {
        ratio(line.right as u64, width as u64)
    }
}

/// The left margins of the lines of a page; one half alone on a page
/// without lines.
pub open spec fn left_margins(lines: Seq<LineProfile>, width: u32) -> Seq<Ratio> {
    or_default(Seq::new(lines.len(), |j: int| left_margin_of(lines[j], width)), half())
}

/// The right margins of the lines of a page; one half alone on a page
/// without lines.
pub open spec fn right_margins(lines: Seq<LineProfile>, width: u32) -> Seq<Ratio> {
    or_default(Seq::new(lines.len(), |j: int| right_margin_of(lines[j], width)), half())
}

/// The number of words of each line of a page; zero alone on a page
/// without lines.
pub open spec fn words_per_line(lines: Seq<LineProfile>) -> Seq<Ratio> {
    or_default(Seq::new(lines.len(), |j: int| ratio(lines[j].words as u64, 1)), flag(false))
}

/// For each line of a page, whether it starts with an uppercase character;
/// zero alone on a page without lines.
pub open spec fn cap_lines(lines: Seq<LineProfile>) -> Seq<Ratio> {
    or_default(Seq::new(lines.len(), |j: int| flag(lines[j].starts_upper)), flag(false))
}

/// For each word of a page, whether it starts with an uppercase character;
/// zero alone on a page without words.
pub open spec fn cap_words(starts: Seq<bool>) -> Seq<Ratio> {
    or_default(Seq::new(starts.len(), |k: int| flag(starts[k])), flag(false))
}

/// A default goes in where nothing was observed, and only there: it is
/// then the one observation. Once there is an observation, be it a
/// default, a default changes nothing.
pub proof fn lemma_default_only_when_empty(observed: Seq<Ratio>, default: Ratio, later: Ratio)
    ensures
        observed.len() == 0 ==> or_default(observed, default) == seq![default],
        observed.len() > 0 ==> or_default(observed, default) == observed,
        or_default(or_default(observed, default), later) == or_default(observed, default),
{
}

/// The ratio of `numerator` to `denominator`, the latter floored at 1.
pub fn fraction(numerator: u64, denominator: u64) -> (r: Ratio)
    ensures
        r == ratio(numerator, denominator),
{
    Ratio { numerator, denominator: if denominator < 1 {
        1
    } else {
        denominator
    } }
}

/// Where a page stands in its book: its index as a share of the number of
/// pages.
pub fn page_fraction(index: usize, pages: usize) -> (r: Ratio)
    ensures
        r == ratio(index as u64, pages as u64),
{
    fraction(index as u64, pages as u64)
}

/// What was observed, or the default alone where nothing was.
fn with_default(observed: Vec<Ratio>, default: Ratio) -> (all: Vec<Ratio>)
    ensures
        all@ == or_default(observed@, default),
{
    let mut all = observed;
    if all.len() == 0 {
        all.push(default);
        assert(all@ =~= seq![default]);
    }
    all
}

/// The five distributions of a page, each as the sequence of what is
/// observed of it line by line or word by word.
#[derive(Debug, Clone, PartialEq, Eq)]
pub struct Distributions {
    pub left_margin: Vec<Ratio>,
    pub right_margin: Vec<Ratio>,
    pub words_per_line: Vec<Ratio>,
    pub cap_lines: Vec<Ratio>,
    pub cap_words: Vec<Ratio>,
}

impl PageProfile {
    /// The share of uppercase characters among the characters of the page.
    pub fn cap_letters(&self) -> (r: Ratio)
        ensures
            r == ratio(self.counts.upper as u64, self.counts.letters as u64),
    {
        fraction(self.counts.upper as u64, self.counts.letters as u64)
    }

    /// The share of ASCII digits among the characters of the page.
    pub fn digits_letters(&self) -> (r: Ratio)
        ensures
            r == ratio(self.counts.digits as u64, self.counts.letters as u64),
    {
        fraction(self.counts.digits as u64, self.counts.letters as u64)
    }

    /// The share of letters and digits among the characters of the page.
    pub fn alphanum_letters(&self) -> (r: Ratio)
        ensures
            r == ratio(self.counts.alphanumeric as u64, self.counts.letters as u64),
    {
        fraction(self.counts.alphanumeric as u64, self.counts.letters as u64)
    }

    /// The share of stopwords among the words of the page.
    pub fn stopword_share(&self) -> (r: Ratio)
        ensures
            r == ratio(self.stopwords as u64, self.counts.words as u64),
    {
        fraction(self.stopwords as u64, self.counts.words as u64)
    }

    /// The share of words with punctuation among the words of the page.
    pub fn punctuation_share(&self) -> (r: Ratio)
        ensures
            r == ratio(self.counts.punctuated as u64, self.counts.words as u64),
    {
        fraction(self.counts.punctuated as u64, self.counts.words as u64)
    }

    /// The distributions of the page, whose width is `width`.
    pub fn distributions(&self, width: u32) -> (d: Distributions)
        ensures
            d.left_margin@ == left_margins(self.lines@, width),
            d.right_margin@ == right_margins(self.lines@, width),
            d.words_per_line@ == words_per_line(self.lines@),
            d.cap_lines@ == cap_lines(self.lines@),
            d.cap_words@ == cap_words(self.upper_starts@),
    {
        let mut left: Vec<Ratio> = Vec::new();
        let mut right: Vec<Ratio> = Vec::new();
        let mut words: Vec<Ratio> = Vec::new();
        let mut caps: Vec<Ratio> = Vec::new();
        let mut j: usize = 0;
        while j < self.lines.len()
            invariant
                j <= self.lines@.len(),
                left@ == Seq::new(j as nat, |i: int| left_margin_of(self.lines@[i], width)),
                right@ == Seq::new(j as nat, |i: int| right_margin_of(self.lines@[i], width)),
                words@ == Seq::new(j as nat, |i: int| ratio(self.lines@[i].words as u64, 1)),
                caps@ == Seq::new(j as nat, |i: int| flag(self.lines@[i].starts_upper)),
            decreases self.lines@.len() - j,
        {
            let line = &self.lines[j];
            if line.words == 0 {
                left.push(Ratio { numerator: 1, denominator: 2 });
                right.push(Ratio { numerator: 1, denominator: 2 });
            } else {
                left.push(fraction(line.left as u64, width as u64));
                right.push(fraction(line.right as u64, width as u64));
            }
            words.push(fraction(line.words as u64, 1));
            caps.push(Ratio { numerator: if line.starts_upper {
                1
            } else {
                0
            }, denominator: 1 });
            j += 1;
            assert(left@ =~= Seq::new(j as nat, |i: int| left_margin_of(self.lines@[i], width)));
            assert(right@ =~= Seq::new(
                j as nat,
                |i: int| right_margin_of(self.lines@[i], width),
            ));
            assert(words@ =~= Seq::new(
                j as nat,
                |i: int| ratio(self.lines@[i].words as u64, 1),
            ));
            assert(caps@ =~= Seq::new(j as nat, |i: int| flag(self.lines@[i].starts_upper)));
        }
        let mut starts: Vec<Ratio> = Vec::new();
        let mut k: usize = 0;
        while k < self.upper_starts.len()
            invariant
                k <= self.upper_starts@.len(),
                starts@ == Seq::new(k as nat, |i: int| flag(self.upper_starts@[i])),
            decreases self.upper_starts@.len() - k,
        {
            starts.push(Ratio { numerator: if self.upper_starts[k] {
                1
            } else {
                0
            }, denominator: 1 });
            k += 1;
            assert(starts@ =~= Seq::new(k as nat, |i: int| flag(self.upper_starts@[i])));
        }
        Distributions {
            left_margin: with_default(left, Ratio { numerator: 1, denominator: 2 }),
            right_margin: with_default(right, Ratio { numerator: 1, denominator: 2 }),
            words_per_line: with_default(words, Ratio { numerator: 0, denominator: 1 }),
            cap_lines: with_default(caps, Ratio { numerator: 0, denominator: 1 }),
            cap_words: with_default(starts, Ratio { numerator: 0, denominator: 1 }),
        }
    }
}

} // verus!
