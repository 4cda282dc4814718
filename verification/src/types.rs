//! The data model: word coordinates, the two event vocabularies, and the
//! book built from the rich one.

use vstd::prelude::*;
use vstd::string::StringExecFns;

verus! {

/// The bounding box and baseline of a word, in page pixels.
#[derive(Debug, Copy, Clone, PartialEq, Eq, Structural)]
pub struct WordCoords {
    pub x1: u16,
    pub y1: u16,
    pub x2: u16,
    pub y2: u16,
    pub base: u16,
}

/// A word on a page: where it stands and what it says.
#[derive(Debug, Clone, PartialEq, Eq)]
pub struct BookWord {
    pub coords: WordCoords,
    pub text: String,
}

/// The mathematical model of a [`BookWord`].
pub struct WordModel {
    pub coords: WordCoords,
    pub text: Seq<char>,
}

impl View for BookWord {
    type V = WordModel;

    open spec fn view(&self) -> WordModel {
        WordModel { coords: self.coords, text: self.text@ }
    }
}

/// The model of a line: its words in reading order.
pub open spec fn line_model(line: Seq<BookWord>) -> Seq<WordModel> {
    Seq::new(line.len(), |k: int| line[k]@)
}

/// The model of the lines of a page, in reading order.
pub open spec fn lines_model(lines: Seq<Vec<BookWord>>) -> Seq<Seq<WordModel>> {
    Seq::new(lines.len(), |j: int| line_model(lines[j]@))
}

impl BookWord {
    /// A word at `coords` that reads `text`.
    pub fn new(coords: WordCoords, text: String) -> (word: Self)
        ensures
            word.coords == coords,
            word.text == text,
            word@ == (WordModel { coords, text: text@ }),
    {
        BookWord { coords, text }
    }
}

/// A page under construction or finished: its metadata and its lines.
#[derive(Debug, Clone, PartialEq, Eq)]
pub struct BookPage {
    pub width: u32,
    pub height: u32,
    pub dpi: u32,
    pub lines: Vec<Vec<BookWord>>,
}

/// The mathematical model of a [`BookPage`].
pub struct PageModel {
    pub width: u32,
    pub height: u32,
    pub dpi: u32,
    pub lines: Seq<Seq<WordModel>>,
}

impl PageModel {
    /// The page that every book starts with and every page end appends.
    pub open spec fn empty() -> PageModel {
        PageModel { width: 0, height: 0, dpi: 0, lines: Seq::empty() }
    }

    /// A page counts once its width, height and resolution are known and it
    /// holds at least one line.
    pub open spec fn valid(self) -> bool {
        self.width != 0 && self.height != 0 && self.dpi != 0 && self.lines.len() > 0
    }
}

impl View for BookPage {
    type V = PageModel;

    open spec fn view(&self) -> PageModel {
        PageModel {
            width: self.width,
            height: self.height,
            dpi: self.dpi,
            lines: lines_model(self.lines@),
        }
    }
}

impl BookPage {
    /// A page of which nothing is known yet: no metadata, no lines.
    pub fn new() -> (page: Self)
        ensures
            page@ == PageModel::empty(),
    {
        let page = BookPage { width: 0, height: 0, dpi: 0, lines: Vec::new() };
        assert(page@.lines =~= Seq::empty());
        page
    }

    /// Whether the page has its width, height and resolution, and a line.
    pub fn valid(&self) -> (ok: bool)
        ensures
            ok == self@.valid(),
    {
        self.width != 0 && self.height != 0 && self.dpi != 0 && self.lines.len() > 0
    }
}

/// A book: its pages in order. While it is built the last page is the
/// current one, and that page's last line the current line.
#[derive(Debug, Clone, PartialEq, Eq)]
pub struct Book {
    pub pages: Vec<BookPage>,
}

impl View for Book {
    type V = Seq<PageModel>;

    open spec fn view(&self) -> Seq<PageModel> {
        Seq::new(self.pages@.len(), |i: int| self.pages@[i]@)
    }
}

impl Book {
    /// A book of one empty page, which is the current one.
    pub fn new() -> (book: Book)
        ensures
            book@ == seq![PageModel::empty()],
            book.pages@.len() == 1,
    {
        let mut pages = Vec::new();
        pages.push(BookPage::new());
        let book = Book { pages };
        assert(book@ =~= seq![PageModel::empty()]);
        book
    }

    /// The page that events currently apply to.
    pub fn current_page(&mut self) -> (page: &mut BookPage)
        requires
            old(self)@.len() > 0,
        ensures
            *page == old(self).pages@.last(),
            final(self).pages@ == old(self).pages@.update(
                old(self).pages@.len() - 1,
                *final(page),
            ),
    {
        let n = self.pages.len();
        &mut self.pages[n - 1]
    }

    /// The line that words are currently appended to.
    pub fn current_line(&mut self) -> (line: &mut Vec<BookWord>)
        requires
            old(self)@.len() > 0,
            old(self)@.last().lines.len() > 0,
        ensures
            *line == old(self).pages@.last().lines@.last(),
            final(self).pages@.len() == old(self).pages@.len(),
            forall|i: int|
                0 <= i < old(self).pages@.len() - 1 ==> final(self).pages@[i] == old(
                    self,
                ).pages@[i],
            final(self).pages@.last().width == old(self).pages@.last().width,
            final(self).pages@.last().height == old(self).pages@.last().height,
            final(self).pages@.last().dpi == old(self).pages@.last().dpi,
            final(self).pages@.last().lines@ == old(self).pages@.last().lines@.update(
                old(self).pages@.last().lines@.len() - 1,
                *final(line),
            ),
    {
        assert(self@.last() == self.pages@.last()@);
        let n = self.pages.len();
        let page = &mut self.pages[n - 1];
        let m = page.lines.len();
        &mut page.lines[m - 1]
    }

    /// Ends the current page: an empty page follows it and is the current
    /// one from now on.
    pub fn end_page(&mut self)
        ensures
            final(self)@ == old(self)@.push(PageModel::empty()),
            final(self).pages@.len() == old(self).pages@.len() + 1,
    {
        self.pages.push(BookPage::new());
        assert(self@ =~= old(self)@.push(PageModel::empty()));
    }

    /// The transcript of one page: the words of a line joined by tabs, the
    /// lines joined by newlines.
    pub fn get_page_text(&self, index: usize) -> (text: String)
        requires
            index < self@.len(),
        ensures
            text@ == transcript(self@[index as int].lines),
    {
        let mut words = String::new();
        let lines = &self.pages[index].lines;
        let ghost model = lines_model(lines@);
        let mut j: usize = 0;
        while j < lines.len()
            invariant
                j <= lines@.len(),
                model == lines_model(lines@),
                words@ == transcript(model.take(j as int)),
            decreases lines@.len() - j,
        {
            let line = &lines[j];
            let ghost before = words@;
            if j > 0 {
                proof {
                    reveal_strlit("\n");
                }
                words.append("\n");
            }
            let ghost start = words@;
            let mut k: usize = 0;
            while k < line.len()
                invariant
                    k <= line@.len(),
                    words@ == start + joined_words(line_model(line@).take(k as int)),
                decreases line@.len() - k,
            {
                let ghost sofar = line_model(line@).take(k as int);
                if k > 0 {
                    proof {
                        reveal_strlit("\t");
                    }
                    words.append("\t");
                }
                words.append(line[k].text.as_str());
                k += 1;
                proof {
                    let next = line_model(line@).take(k as int);
                    assert(next.drop_last() =~= sofar);
                    assert(next.last().text == line@[k - 1].text@);
                    if k == 1 {
                        assert(sofar =~= Seq::empty());
                        assert(words@ =~= start + joined_words(next));
                    } else {
                        assert(words@ =~= start + joined_words(next));
                    }
                }
            }
            j += 1;
            proof {
                assert(line_model(line@).take(line@.len() as int) =~= line_model(line@));
                let next = model.take(j as int);
                assert(next.drop_last() =~= model.take(j - 1));
                assert(next.last() == line_model(line@));
                if j == 1 {
                    assert(model.take(0) =~= Seq::empty());
                    assert(before =~= Seq::empty());
                    assert(words@ =~= transcript(next));
                } else {
                    assert(words@ =~= transcript(next));
                }
            }
        }
        assert(model.take(lines@.len() as int) =~= model);
        words
    }
}

/// The words of a line joined by tabs.
pub open spec fn joined_words(line: Seq<WordModel>) -> Seq<char>
    decreases line.len(),
{
    if line.len() == 0 {
        Seq::empty()
    } else if line.len() == 1 {
        line[0].text
    } else {
        joined_words(line.drop_last()) + seq!['\t'] + line.last().text
    }
}

/// The lines of a page, each with its words joined by tabs, joined by
/// newlines.
pub open spec fn transcript(lines: Seq<Seq<WordModel>>) -> Seq<char>
    decreases lines.len(),
{
    if lines.len() == 0 {
        Seq::empty()
    } else if lines.len() == 1 {
        joined_words(lines[0])
    } else {
        transcript(lines.drop_last()) + seq!['\n'] + joined_words(lines.last())
    }
}

/// The events that most consumers want of a document: pages, lines and the
/// text of words. Everything else in the markup is passed over.
#[derive(Debug, Clone, PartialEq, Eq)]
pub enum FastDjVu {
    StartPage,
    StartLine,
    Word(String),
    EndLine,
    EndPage,
    Error(String),
}

/// The mathematical model of a [`FastDjVu`] event.
pub enum FastEvent {
    StartPage,
    StartLine,
    Word(Seq<char>),
    EndLine,
    EndPage,
    Error(Seq<char>),
}

impl View for FastDjVu {
    type V = FastEvent;

    open spec fn view(&self) -> FastEvent {
        match self {
            FastDjVu::StartPage => FastEvent::StartPage,
            FastDjVu::StartLine => FastEvent::StartLine,
            FastDjVu::Word(text) => FastEvent::Word(text@),
            FastDjVu::EndLine => FastEvent::EndLine,
            FastDjVu::EndPage => FastEvent::EndPage,
            FastDjVu::Error(message) => FastEvent::Error(message@),
        }
    }
}

impl FastDjVu {
    /// A copy of the event.
    pub fn duplicate(&self) -> (copy: FastDjVu)
        ensures
            copy == *self,
    {
        match self {
            FastDjVu::StartPage => FastDjVu::StartPage,
            FastDjVu::StartLine => FastDjVu::StartLine,
            FastDjVu::Word(text) => FastDjVu::Word(text.clone()),
            FastDjVu::EndLine => FastDjVu::EndLine,
            FastDjVu::EndPage => FastDjVu::EndPage,
            FastDjVu::Error(message) => FastDjVu::Error(message.clone()),
        }
    }
}

/// The fast events together with what the model of a book needs: the
/// coordinates of each word, where they could be decoded, and the metadata
/// of each page.
#[derive(Debug, Clone, PartialEq, Eq)]
pub enum RichDjVu {
    /// The start of a page. The parser marks the start of a page by the
    /// page's dimensions and does not hand this event out; a stream that
    /// holds it is accepted, and the event changes nothing.
    StartPage,
    /// The width and the height of the page that starts.
    PageDimensions(u32, u32),
    PageDPI(u32),
    StartLine,
    Word(Option<WordCoords>, String),
    EndLine,
    EndPage,
    Error(String),
}

/// The mathematical model of a [`RichDjVu`] event.
pub enum RichEvent {
    StartPage,
    PageDimensions(u32, u32),
    PageDPI(u32),
    StartLine,
    Word(Option<WordCoords>, Seq<char>),
    EndLine,
    EndPage,
    Error(Seq<char>),
}

impl View for RichDjVu {
    type V = RichEvent;

    open spec fn view(&self) -> RichEvent {
        match self {
            RichDjVu::StartPage => RichEvent::StartPage,
            RichDjVu::PageDimensions(width, height) => RichEvent::PageDimensions(*width, *height),
            RichDjVu::PageDPI(dpi) => RichEvent::PageDPI(*dpi),
            RichDjVu::StartLine => RichEvent::StartLine,
            RichDjVu::Word(coords, text) => RichEvent::Word(*coords, text@),
            RichDjVu::EndLine => RichEvent::EndLine,
            RichDjVu::EndPage => RichEvent::EndPage,
            RichDjVu::Error(message) => RichEvent::Error(message@),
        }
    }
}

} // verus!
