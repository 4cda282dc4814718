//! From rich events to the book: the events are applied one by one to the
//! book's current page and current line.

use crate::parser::{parse_rich_xml, rich_model, RichParser};
use crate::text::texts_model;
use crate::types::{
    line_model, lines_model, Book, BookWord, PageModel, RichDjVu, RichEvent, WordModel,
};
use crate::xml::xml_tokens;
use vstd::prelude::*;

verus! {

/// Whether `event` finds its place in a book with these pages: a word that
/// has coordinates needs a line on the current page to stand in.
pub open spec fn placed(pages: Seq<PageModel>, event: RichEvent) -> bool {
    event matches RichEvent::Word(Some(_), _) ==> pages.last().lines.len() > 0
}

/// The diagnostic for a word that has coordinates and comes before any
/// line of its page.
pub open spec fn unplaced() -> Seq<char> {
    "a word stands outside any line"@
}

/// The pages of a book after `event`.
///
/// The dimensions and the resolution go to the current page. A line start
/// opens an empty line on it. A word with coordinates joins the current
/// line; it is dropped where the page has no line yet, and so is a word
/// without coordinates. A page end appends an empty page, which becomes the
/// current one. Nothing else changes the book.
pub open spec fn after_event(pages: Seq<PageModel>, event: RichEvent) -> Seq<PageModel> {
    let at = pages.len() - 1;
    let page = pages.last();
    match event {
        RichEvent::PageDimensions(width, height) => pages.update(
            at,
            PageModel { width, height, ..page },
        ),
        RichEvent::PageDPI(dpi) => pages.update(at, PageModel { dpi, ..page }),
        RichEvent::StartLine => pages.update(
            at,
            PageModel { lines: page.lines.push(Seq::empty()), ..page },
        ),
        RichEvent::Word(Some(coords), text) => if page.lines.len() > 0 {
            pages.update(
                at,
                PageModel {
                    lines: page.lines.update(
                        page.lines.len() - 1,
                        page.lines.last().push(WordModel { coords, text }),
                    ),
                    ..page
                },
            )
        } else {
            pages
        },
        RichEvent::EndPage => pages.push(PageModel::empty()),
        _ => pages,
    }
}

/// The pages of a book that started with one empty page, after `events`.
pub open spec fn after_events(events: Seq<RichEvent>) -> Seq<PageModel>
    decreases events.len(),
{
    if events.len() == 0 {
        seq![PageModel::empty()]
    } else {
        after_event(after_events(events.drop_last()), events.last())
    }
}

/// The diagnostics after `event`, which met a book with these pages: a
/// diagnostic of the document joins them, and so does the diagnostic for a
/// word that does not find its place.
pub open spec fn diagnostics_after(
    pages: Seq<PageModel>,
    errors: Seq<Seq<char>>,
    event: RichEvent,
) -> Seq<Seq<char>> {
    match event {
        RichEvent::Error(message) => errors.push(message),
        _ => if placed(pages, event) {
            errors
        } else {
            errors.push(unplaced())
        },
    }
}

/// The diagnostics that building a book from `events` gives, in order.
pub open spec fn diagnostics_of(events: Seq<RichEvent>) -> Seq<Seq<char>>
    decreases events.len(),
{
    if events.len() == 0 {
        Seq::empty()
    } else {
        diagnostics_after(
            after_events(events.drop_last()),
            diagnostics_of(events.drop_last()),
            events.last(),
        )
    }
}

/// The pages without the last one, where that one is not valid.
pub open spec fn without_invalid_end(pages: Seq<PageModel>) -> Seq<PageModel> {
    if pages.len() > 0 && !pages.last().valid() {
        pages.drop_last()
    } else {
        pages
    }
}

/// The book that `events` describe.
pub open spec fn book_of(events: Seq<RichEvent>) -> Seq<PageModel> {
    without_invalid_end(after_events(events))
}

/// The number of page ends among `events`.
pub open spec fn page_ends(events: Seq<RichEvent>) -> nat
    decreases events.len(),
{
    if events.len() == 0 {
        0
    } else {
        page_ends(events.drop_last()) + if events.last() is EndPage {
            1nat
        } else {
            0nat
        }
    }
}

/// A book starts with one page and gains one with each page end; no event
/// takes a page away. Right after a page end the current page is empty.
pub proof fn lemma_one_page_per_page_end(events: Seq<RichEvent>)
    ensures
        after_events(events).len() == 1 + page_ends(events),
        events.len() > 0 && events.last() is EndPage ==> after_events(events).last()
            == PageModel::empty(),
    decreases events.len(),
{
    if events.len() > 0 {
        lemma_one_page_per_page_end(events.drop_last());
    }
}

/// A book is never without a page while it is built.
pub proof fn lemma_after_events_has_page(events: Seq<RichEvent>)
    ensures
        after_events(events).len() > 0,
    decreases events.len(),
{
    if events.len() > 0 {
        lemma_after_events_has_page(events.drop_last());
    }
}

impl Book {
    /// Applies one event to the book.
    pub fn apply(&mut self, event: &RichDjVu)
        requires
            old(self)@.len() > 0,
        ensures
            final(self)@ == after_event(old(self)@, event@),
            final(self)@.len() > 0,
    {
        match event {
            RichDjVu::PageDimensions(width, height) => {
                let page = self.current_page();
                page.width = *width;
                page.height = *height;
            },
            RichDjVu::PageDPI(dpi) => {
                let page = self.current_page();
                page.dpi = *dpi;
            },
            RichDjVu::StartLine => {
                let page = self.current_page();
                let line: Vec<BookWord> = Vec::new();
                assert(line_model(line@) =~= Seq::empty());
                page.lines.push(line);
                assert(lines_model(page.lines@) =~= lines_model(old(self).pages@.last().lines@).push(
                    Seq::empty(),
                ));
            },
            RichDjVu::Word(Some(coords), text) => {
                assert(old(self)@.last() == old(self).pages@.last()@);
                let n = self.pages.len();
                if self.pages[n - 1].lines.len() > 0 {
                    let ghost lines = old(self).pages@.last().lines@;
                    let word = BookWord::new(*coords, text.clone());
                    let line = self.current_line();
                    line.push(word);
                    assert(line_model(line@) =~= line_model(lines.last()@).push(word@));
                    assert(lines_model(lines.update(lines.len() - 1, *line)) =~= lines_model(
                        lines,
                    ).update(lines.len() - 1, line_model(line@)));
                }
            },
            RichDjVu::EndPage => {
                self.end_page();
            },
            _ => {},
        }
        assert(self@ =~= after_event(old(self)@, event@));
    }
}

/// A book under construction, and the diagnostics met on the way.
pub struct BookBuilder {
    pub book: Book,
    pub errors: Vec<String>,
}

impl BookBuilder {
    /// Whether the builder is what `events` lead to.
    pub open spec fn holds(self, events: Seq<RichEvent>) -> bool {
        &&& self.book@ == after_events(events)
        &&& texts_model(self.errors@) == diagnostics_of(events)
    }

    /// A builder before the first event: a book of one empty page, and no
    /// diagnostics.
    pub fn new() -> (builder: BookBuilder)
        ensures
            builder.holds(Seq::empty()),
            builder.book@ == seq![PageModel::empty()],
            builder.errors@ == Seq::<String>::empty(),
    {
        let builder = BookBuilder { book: Book::new(), errors: Vec::new() };
        assert(texts_model(builder.errors@) =~= Seq::empty());
        builder
    }

    /// Whether a word with coordinates can be placed now.
    pub fn has_line(&self) -> (yes: bool)
        requires
            self.book@.len() > 0,
        ensures
            yes == (self.book@.last().lines.len() > 0),
    {
        let n = self.book.pages.len();
        self.book.pages[n - 1].lines.len() > 0
    }

    /// Applies one event: to the book, or, if it is a diagnostic, to the
    /// list of diagnostics. A word that has coordinates and finds no line
    /// to stand in is dropped, and a diagnostic says so.
    pub fn apply(&mut self, event: &RichDjVu)
        requires
            old(self).book@.len() > 0,
        ensures
            final(self).book@ == after_event(old(self).book@, event@),
            final(self).book@.len() > 0,
            texts_model(final(self).errors@) == diagnostics_after(
                old(self).book@,
                texts_model(old(self).errors@),
                event@,
            ),
    {
        match event {
            RichDjVu::Error(message) => {
                self.errors.push(message.clone());
                assert(texts_model(self.errors@) =~= texts_model(old(self).errors@).push(message@));
            },
            RichDjVu::Word(Some(_), _) => {
                if !self.has_line() {
                    let message = "a word stands outside any line".to_owned();
                    self.errors.push(message);
                    assert(texts_model(self.errors@) =~= texts_model(old(self).errors@).push(
                        unplaced(),
                    ));
                }
            },
            _ => {},
        }
        self.book.apply(event);
    }

    /// Ends the construction: a last page that is not valid is left out.
    pub fn finish(self) -> (out: (Book, Vec<String>))
        ensures
            out.0@ == without_invalid_end(self.book@),
            out.1 == self.errors,
    {
        let mut book = self.book;
        let n = book.pages.len();
        if n > 0 && !book.pages[n - 1].valid() {
            book.pages.pop();
            assert(book@ =~= self.book@.drop_last());
        }
        (book, self.errors)
    }
}

/// Builds the book that `events` describe, and hands out the diagnostics
/// met on the way: those of the document, and one for each word that has
/// coordinates and comes before any line of its page. Such a word is
/// dropped.
pub fn build_book(events: &Vec<RichDjVu>) -> (built: (Book, Vec<String>))
    ensures
        built.0@ == book_of(rich_model(events@)),
        texts_model(built.1@) == diagnostics_of(rich_model(events@)),
{
    let ghost all = rich_model(events@);
    let mut builder = BookBuilder::new();
    let mut i: usize = 0;
    assert(all.take(0) =~= Seq::empty());
    while i < events.len()
        invariant
            i <= events@.len(),
            all == rich_model(events@),
            builder.holds(all.take(i as int)),
        decreases events@.len() - i,
    {
        proof {
            lemma_after_events_has_page(all.take(i as int));
            assert(all.take(i + 1).drop_last() =~= all.take(i as int));
        }
        builder.apply(&events[i]);
        i += 1;
    }
    assert(all.take(events@.len() as int) =~= all);
    builder.finish()
}

/// Reads a document and builds its book. The diagnostics are passed over:
/// [`build_book`] hands them out.
pub fn process_book(xml: &[u8]) -> (built: Result<Book, String>)
    ensures
        built matches Ok(book) && book@ == book_of(RichParser::run(xml_tokens(xml@, true)).1),
{
    let events = parse_rich_xml(xml);
    let built = build_book(&events);
    Ok(built.0)
}

} // verus!
