//! The identifier of a book, as it is read off the path of its document.

use crate::text::chars_of;
use vstd::prelude::*;
use vstd::string::StrSliceExecFns;

verus! {

/// Whether `s` ends with `suffix`.
pub open spec fn ends_with(s: Seq<char>, suffix: Seq<char>) -> bool {
    s.len() >= suffix.len() && s.skip(s.len() - suffix.len()) == suffix
}

/// `s` without `suffix` at its end, however often it is repeated there.
pub open spec fn without_suffix(s: Seq<char>, suffix: Seq<char>) -> Seq<char>
    decreases s.len(),
{
    if suffix.len() > 0 && ends_with(s, suffix) {
        without_suffix(s.take(s.len() - suffix.len()), suffix)
    } else {
        s
    }
}

/// Where the last slash of `s` stands; -1 where it has none.
pub open spec fn last_slash(s: Seq<char>) -> int
    decreases s.len(),
{
    if s.len() == 0 {
        -1
    } else if s.last() == '/' {
        s.len() - 1
    } else {
        last_slash(s.drop_last())
    }
}

/// What follows the last slash of a path; the path where it has none.
pub open spec fn file_name(path: Seq<char>) -> Seq<char> {
    path.skip(last_slash(path) + 1)
}

/// The identifier of the book whose document lies at `path`: the file's
/// name without `.xml`, and without `_djvu.xml` before that.
pub open spec fn book_id(path: Seq<char>) -> Seq<char> {
    file_name(without_suffix(without_suffix(path, "_djvu.xml"@), ".xml"@))
}

/// Whether the first `end` characters end with `suffix`.
fn ends_with_at(chars: &Vec<char>, end: usize, suffix: &Vec<char>) -> (yes: bool)
    requires
        end <= chars@.len(),
    ensures
        yes == ends_with(chars@.take(end as int), suffix@),
{
    let m = suffix.len();
    if end < m {
        return false;
    }
    let ghost tail = chars@.take(end as int).skip(end - m);
    let mut i: usize = 0;
    while i < m
        invariant
            i <= m,
            m == suffix@.len(),
            m <= end <= chars@.len(),
            tail == chars@.take(end as int).skip(end - m),
            tail.take(i as int) == suffix@.take(i as int),
        decreases m - i,
    {
        if chars[end - m + i] != suffix[i] {
            assert(tail[i as int] != suffix@[i as int]);
            return false;
        }
        i += 1;
        assert(tail.take(i as int) =~= tail.take(i - 1).push(tail[i - 1]));
        assert(suffix@.take(i as int) =~= suffix@.take(i - 1).push(suffix@[i - 1]));
    }
    assert(tail.take(m as int) =~= tail);
    assert(suffix@.take(m as int) =~= suffix@);
    true
}

/// How many of the first `from` characters are left without `suffix` at
/// their end.
fn strip_end(chars: &Vec<char>, from: usize, suffix: &Vec<char>) -> (end: usize)
    requires
        from <= chars@.len(),
        suffix@.len() > 0,
    ensures
        end <= from,
        chars@.take(end as int) == without_suffix(chars@.take(from as int), suffix@),
{
    let mut end = from;
    while ends_with_at(chars, end, suffix)
        invariant
            end <= from <= chars@.len(),
            suffix@.len() > 0,
            without_suffix(chars@.take(from as int), suffix@) == without_suffix(
                chars@.take(end as int),
                suffix@,
            ),
        decreases end,
    {
        assert(chars@.take(end as int).take(end - suffix@.len()) =~= chars@.take(
            end - suffix@.len(),
        ));
        end = end - suffix.len();
    }
    end
}

/// The identifier of the book whose document lies at `input`, a path such
/// as `inex500/abelincjohn02morsrich_djvu.xml`.
pub fn trim_book(input: &str) -> (id: &str)
    ensures
        id@ == book_id(input@),
{
    proof {
        reveal_strlit("_djvu.xml");
        reveal_strlit(".xml");
    }
    let chars = chars_of(input);
    let long = chars_of("_djvu.xml");
    let short = chars_of(".xml");
    let n = chars.len();
    assert(chars@.take(n as int) =~= chars@);
    let first = strip_end(&chars, n, &long);
    let end = strip_end(&chars, first, &short);
    let ghost stem = chars@.take(end as int);
    let mut start: usize = end;
    assert(stem.take(end as int) =~= stem);
    while start > 0 && chars[start - 1] != '/'
        invariant
            start <= end <= chars@.len(),
            stem == chars@.take(end as int),
            last_slash(stem) == last_slash(stem.take(start as int)),
        decreases start,
    {
        assert(stem.take(start as int).drop_last() =~= stem.take(start - 1));
        start -= 1;
    }
    assert(last_slash(stem) == start - 1);
    assert(stem.skip(start as int) =~= input@.subrange(start as int, end as int));
    input.substring_char(start, end)
}

} // verus!
