//! Windows around numeric words. The fast events of a document pass
//! through a buffer of 65 places; whenever a numeric word stands in the
//! middle of it, the buffer is written down as a record: the word's page and
//! index, and the 32 events on either side of it.

use crate::decimal::{decimal_text, push_decimal};
use crate::parser::fast_model;
use crate::text::{
    is_numeric, lemma_numeric_is_trimmed, numeric, texts_model, trim, trimmed,
};
use crate::types::{FastDjVu, FastEvent};
use std::collections::VecDeque;
use vstd::prelude::*;
use vstd::string::StringExecFns;

verus! {

/// The number of events on either side of the middle of a window.
pub const WINDOW_SIZE: usize = 32;

/// The number of events in a window.
pub const CAPACITY: usize = 65;

/// An event together with the page it belongs to and the number of words
/// that came before it on that page.
#[derive(Debug, Clone, PartialEq, Eq)]
pub struct PositionedEvent {
    pub page: u32,
    pub word: u32,
    pub event: FastDjVu,
}

/// The mathematical model of a [`PositionedEvent`].
pub struct PositionedModel {
    pub page: u32,
    pub word: u32,
    pub event: FastEvent,
}

impl View for PositionedEvent {
    type V = PositionedModel;

    open spec fn view(&self) -> PositionedModel {
        PositionedModel { page: self.page, word: self.word, event: self.event@ }
    }
}

impl PositionedEvent {
    /// An event at its place.
    pub fn new(page: u32, word: u32, event: FastDjVu) -> (positioned: PositionedEvent)
        ensures
            positioned.page == page,
            positioned.word == word,
            positioned.event == event,
    {
        PositionedEvent { page, word, event }
    }
}

/// The models of the events in a buffer.
pub open spec fn buffer_model(buffer: Seq<PositionedEvent>) -> Seq<PositionedModel> {
    Seq::new(buffer.len(), |i: int| buffer[i]@)
}

/// How an event is written in a record: a word by its text without the
/// white space around it, a boundary by its mark, a diagnostic by nothing.
pub open spec fn rendering(event: FastEvent) -> Seq<char> {
    match event {
        FastEvent::Word(text) => trimmed(text),
        FastEvent::StartPage => "<P>"@,
        FastEvent::StartLine => "<L>"@,
        FastEvent::EndLine => "</L>"@,
        FastEvent::EndPage => "</P>"@,
        FastEvent::Error(_) => ""@,
    }
}

/// How an event is written in a record.
pub fn as_str(x: &FastDjVu) -> (text: &str)
    ensures
        text@ == rendering(x@),
{
    match x {
        FastDjVu::Word(w) => trim(w.as_str()),
        FastDjVu::StartPage => "<P>",
        FastDjVu::StartLine => "<L>",
        FastDjVu::EndLine => "</L>",
        FastDjVu::EndPage => "</P>",
        FastDjVu::Error(_) => "",
    }
}

/// A window with a numeric word in its middle.
#[derive(Debug, Clone, PartialEq, Eq)]
pub struct WindowRecord {
    /// The page of the numeric word.
    pub page: u32,
    /// The number of words before it on its page.
    pub word: u32,
    /// The events of the window as they are written, in order.
    pub tokens: Vec<String>,
}

/// The mathematical model of a [`WindowRecord`].
pub struct RecordModel {
    pub page: u32,
    pub word: u32,
    pub tokens: Seq<Seq<char>>,
}

impl View for WindowRecord {
    type V = RecordModel;

    open spec fn view(&self) -> RecordModel {
        RecordModel { page: self.page, word: self.word, tokens: texts_model(self.tokens@) }
    }
}

/// The texts, each after a tab.
pub open spec fn tabbed(texts: Seq<Seq<char>>) -> Seq<char>
    decreases texts.len(),
{
    if texts.len() == 0 {
        Seq::empty()
    } else {
        tabbed(texts.drop_last()) + seq!['\t'] + texts.last()
    }
}

/// The line that a record is written as: the book, the page and the word
/// index of the numeric word, then the events of the window, all between
/// tabs, and a newline.
pub open spec fn record_line(book: Seq<char>, record: RecordModel) -> Seq<char> {
    book + seq!['\t'] + decimal_text(record.page as nat) + seq!['\t'] + decimal_text(
        record.word as nat,
    ) + tabbed(record.tokens) + seq!['\n']
}

impl WindowRecord {
    /// The line that the record is written as for the book `book`.
    pub fn line(&self, book: &str) -> (text: String)
        ensures
            text@ == record_line(book@, self@),
    {
        proof {
            reveal_strlit("\t");
            reveal_strlit("\n");
        }
        let mut text = book.to_owned();
        text.append("\t");
        push_decimal(&mut text, self.page);
        text.append("\t");
        push_decimal(&mut text, self.word);
        let ghost head = text@;
        let ghost tokens = texts_model(self.tokens@);
        let mut i: usize = 0;
        assert(tokens.take(0) =~= Seq::empty());
        assert(text@ =~= head + tabbed(tokens.take(0)));
        while i < self.tokens.len()
            invariant
                i <= self.tokens@.len(),
                tokens == texts_model(self.tokens@),
                text@ == head + tabbed(tokens.take(i as int)),
            decreases self.tokens@.len() - i,
        {
            text.append("\t");
            text.append(self.tokens[i].as_str());
            proof {
                reveal_strlit("\t");
                assert(tokens.take(i + 1).drop_last() =~= tokens.take(i as int));
                assert(tokens.take(i + 1).last() == self.tokens@[i as int]@);
                assert(text@ =~= head + tabbed(tokens.take(i + 1)));
            }
            i += 1;
        }
        assert(tokens.take(self.tokens@.len() as int) =~= tokens);
        text.append("\n");
        assert(text@ =~= record_line(book@, self@));
        text
    }
}

/// The model of a record that may not be there.
pub open spec fn record_model(record: Option<WindowRecord>) -> Option<RecordModel> {
    match record {
        Some(r) => Some(r@),
        None => None,
    }
}

/// The models of a sequence of records.
pub open spec fn records_model(records: Seq<WindowRecord>) -> Seq<RecordModel> {
    Seq::new(records.len(), |i: int| records[i]@)
}

/// The events of a window as they are written.
pub open spec fn renderings(window: Seq<PositionedModel>) -> Seq<Seq<char>> {
    Seq::new(window.len(), |i: int| rendering(window[i].event))
}

/// The record of a window: there is one where a numeric word stands in the
/// middle.
pub open spec fn record_of(window: Seq<PositionedModel>) -> Option<RecordModel> {
    let center = window[WINDOW_SIZE as int];
    match center.event {
        FastEvent::Word(text) => if numeric(text) {
            Some(RecordModel { page: center.page, word: center.word, tokens: renderings(window) })
        } else {
            None
        },
        _ => None,
    }
}

/// Looks at a full buffer and writes the record down if there is one.
pub fn consider(buffer: &VecDeque<PositionedEvent>) -> (record: Option<WindowRecord>)
    requires
        buffer@.len() == CAPACITY,
    ensures
        record_model(record) == record_of(buffer_model(buffer@)),
{
    let center = &buffer[WINDOW_SIZE];
    match &center.event {
        FastDjVu::Word(center_word) => {
            if is_numeric(center_word.as_str()) {
                let mut tokens: Vec<String> = Vec::new();
                let mut i: usize = 0;
                while i < CAPACITY
                    invariant
                        i <= CAPACITY,
                        buffer@.len() == CAPACITY,
                        tokens@.len() == i,
                        forall|j: int|
                            0 <= j < i ==> (#[trigger] tokens@[j])@ == rendering(buffer@[j]@.event),
                    decreases CAPACITY - i,
                {
                    tokens.push(as_str(&buffer[i].event).to_owned());
                    i += 1;
                }
                let record = WindowRecord { page: center.page, word: center.word, tokens };
                assert(record@.tokens =~= renderings(buffer_model(buffer@)));
                Some(record)
            } else {
                None
            }
        },
        _ => None,
    }
}

/// The mark in a buffer before the document: the start of a page.
pub open spec fn start_pad() -> PositionedModel {
    PositionedModel { page: 0, word: 0, event: FastEvent::StartPage }
}

/// The mark in a buffer after the document: the end of a page.
pub open spec fn end_pad(page: u32) -> PositionedModel {
    PositionedModel { page, word: 0, event: FastEvent::EndPage }
}

/// A count as the 32 bits of a counter hold it: past the largest number
/// they start again at 0.
pub open spec fn wrapped(count: int) -> u32 {
    (count % 0x1_0000_0000) as u32
}

/// The mathematical model of a [`WindowExtractor`].
pub struct WindowModel {
    pub buffer: Seq<PositionedModel>,
    pub page: u32,
    pub word: u32,
}

impl WindowModel {
    /// The extractor before the first event: a buffer of start marks.
    pub open spec fn start() -> WindowModel {
        WindowModel {
            buffer: Seq::new(CAPACITY as nat, |i: int| start_pad()),
            page: 0,
            word: 0,
        }
    }

    /// The extractor after `event`: the oldest place of the buffer is given
    /// up, the event takes the newest with the page and the word index of
    /// the moment, and then the counters move: a word counts, the end of a
    /// page starts the next page at word 0. Both counters are 32 bits wide.
    pub open spec fn pushed(self, event: FastEvent) -> WindowModel {
        WindowModel {
            buffer: self.buffer.drop_first().push(
                PositionedModel { page: self.page, word: self.word, event },
            ),
            page: if event is EndPage {
                wrapped(self.page + 1)
            } else {
                self.page
            },
            word: match event {
                FastEvent::EndPage => 0,
                FastEvent::Word(_) => wrapped(self.word + 1),
                _ => self.word,
            },
        }
    }
}

/// The records of the windows of `stream` that start at its places 1 to
/// `last`, in order.
pub open spec fn windows_upto(stream: Seq<PositionedModel>, last: int) -> Seq<RecordModel>
    decreases last,
{
    if last <= 0 {
        Seq::empty()
    } else {
        let before = windows_upto(stream, last - 1);
        match record_of(stream.subrange(last, last + CAPACITY)) {
            Some(record) => before.push(record),
            None => before,
        }
    }
}

/// The buffer through which the events of a document pass.
pub struct WindowExtractor {
    pub circ: VecDeque<PositionedEvent>,
    pub page: u32,
    pub word_index: u32,
}

impl View for WindowExtractor {
    type V = WindowModel;

    open spec fn view(&self) -> WindowModel {
        WindowModel { buffer: buffer_model(self.circ@), page: self.page, word: self.word_index }
    }
}

impl WindowExtractor {
    /// The buffer is always full.
    pub open spec fn wf(self) -> bool {
        self.circ@.len() == CAPACITY
    }

    /// An extractor before the first event: a buffer of start marks.
    pub fn new() -> (extractor: WindowExtractor)
        ensures
            extractor.wf(),
            extractor@ == WindowModel::start(),
    {
        let mut circ: VecDeque<PositionedEvent> = VecDeque::with_capacity(CAPACITY);
        let mut i: usize = 0;
        while i < CAPACITY
            invariant
                i <= CAPACITY,
                circ@.len() == i,
                forall|j: int| 0 <= j < i ==> (#[trigger] circ@[j])@ == start_pad(),
            decreases CAPACITY - i,
        {
            circ.push_back(PositionedEvent::new(0, 0, FastDjVu::StartPage));
            i += 1;
        }
        let extractor = WindowExtractor { circ, page: 0, word_index: 0 };
        assert(extractor@.buffer =~= WindowModel::start().buffer);
        extractor
    }

    /// Takes one event of the document in, and hands out the record of the
    /// buffer as it then stands.
    pub fn push(&mut self, item: FastDjVu) -> (record: Option<WindowRecord>)
        requires
            old(self).wf(),
        ensures
            final(self).wf(),
            final(self)@ == old(self)@.pushed(item@),
            record_model(record) == record_of(final(self)@.buffer),
    {
        let ends_page = match item {
            FastDjVu::EndPage => true,
            _ => false,
        };
        let is_word = match item {
            FastDjVu::Word(_) => true,
            _ => false,
        };
        let _ = self.circ.pop_front();
        self.circ.push_back(PositionedEvent::new(self.page, self.word_index, item));
        assert(buffer_model(self.circ@) =~= old(self)@.pushed(item@).buffer);
        let record = consider(&self.circ);
        if ends_page {
            self.page = self.page.wrapping_add(1);
            self.word_index = 0;
        } else if is_word {
            self.word_index = self.word_index.wrapping_add(1);
        }
        record
    }

    /// Ends the document: as many end marks as the buffer has places pass
    /// through it, so that the last words of the document reach the middle.
    /// The marks belong to the page after the current one.
    pub fn finish(&mut self) -> (records: Vec<WindowRecord>)
        requires
            old(self).wf(),
        ensures
            final(self).wf(),
            final(self)@ == (WindowModel {
                buffer: Seq::new(CAPACITY as nat, |i: int| end_pad(wrapped(old(self).page + 1))),
                page: old(self).page,
                word: old(self).word_index,
            }),
            records_model(records@) == windows_upto(
                old(self)@.buffer + Seq::new(
                    CAPACITY as nat,
                    |i: int| end_pad(wrapped(old(self).page + 1)),
                ),
                CAPACITY as int,
            ),
    {
        let page = self.page.wrapping_add(1);
        let ghost stream = old(self)@.buffer + Seq::new(CAPACITY as nat, |i: int| end_pad(page));
        let mut records: Vec<WindowRecord> = Vec::new();
        let mut k: usize = 0;
        assert(buffer_model(self.circ@) =~= stream.subrange(0, CAPACITY as int));
        assert(records_model(records@) =~= Seq::empty());
        while k < CAPACITY
            invariant
                k <= CAPACITY,
                self.wf(),
                self.page == old(self).page,
                self.word_index == old(self).word_index,
                page == wrapped(old(self).page + 1),
                stream.len() == 2 * CAPACITY,
                forall|i: int| CAPACITY <= i < 2 * CAPACITY ==> stream[i] == end_pad(page),
                buffer_model(self.circ@) == stream.subrange(k as int, k + CAPACITY),
                records_model(records@) == windows_upto(stream, k as int),
            decreases CAPACITY - k,
        {
            let ghost before = records_model(records@);
            let ghost full = self.circ@;
            let _ = self.circ.pop_front();
            self.circ.push_back(PositionedEvent::new(page, 0, FastDjVu::EndPage));
            assert forall|j: int| 0 <= j < CAPACITY implies buffer_model(self.circ@)[j]
                == stream[k + 1 + j] by {
                if j < CAPACITY - 1 {
                    assert(self.circ@[j] == full[j + 1]);
                    assert(buffer_model(full)[j + 1] == stream.subrange(
                        k as int,
                        k + CAPACITY,
                    )[j + 1]);
                }
            }
            assert(buffer_model(self.circ@) =~= stream.subrange(k + 1, k + 1 + CAPACITY));
            match consider(&self.circ) {
                Some(record) => {
                    records.push(record);
                    assert(records_model(records@) =~= before.push(record@));
                },
                None => {},
            }
            k += 1;
        }
        assert(self@.buffer =~= Seq::new(CAPACITY as nat, |i: int| end_pad(page)));
        records
    }
}

/// The number of page ends among `events`.
pub open spec fn page_after(events: Seq<FastEvent>) -> nat
    decreases events.len(),
{
    if events.len() == 0 {
        0
    } else {
        page_after(events.drop_last()) + if events.last() is EndPage {
            1nat
        } else {
            0nat
        }
    }
}

/// The number of words among `events` since the last page end.
pub open spec fn word_after(events: Seq<FastEvent>) -> nat
    decreases events.len(),
{
    if events.len() == 0 {
        0
    } else {
        match events.last() {
            FastEvent::EndPage => 0,
            FastEvent::Word(_) => word_after(events.drop_last()) + 1,
            _ => word_after(events.drop_last()),
        }
    }
}

/// The event at place `i` with its page and its word index.
pub open spec fn positioned(events: Seq<FastEvent>, i: int) -> PositionedModel {
    PositionedModel {
        page: wrapped(page_after(events.take(i)) as int),
        word: wrapped(word_after(events.take(i)) as int),
        event: events[i],
    }
}

/// What passes through the buffer for a document: start marks, the
/// positioned events, end marks.
pub open spec fn stream_of(events: Seq<FastEvent>) -> Seq<PositionedModel> {
    Seq::new(CAPACITY as nat, |i: int| start_pad()) + Seq::new(
        events.len(),
        |i: int| positioned(events, i),
    ) + Seq::new(CAPACITY as nat, |i: int| end_pad(wrapped((page_after(events) + 1) as int)))
}

/// The records of a document: one for each window of what passes through
/// the buffer, the first window apart, that has a numeric word in its
/// middle.
pub open spec fn windows(events: Seq<FastEvent>) -> Seq<RecordModel> {
    windows_upto(stream_of(events), events.len() + CAPACITY)
}

/// The number of numeric words among `events`.
pub open spec fn numeric_words(events: Seq<FastEvent>) -> nat
    decreases events.len(),
{
    if events.len() == 0 {
        0
    } else {
        numeric_words(events.drop_last()) + match events.last() {
            FastEvent::Word(text) => if numeric(text) {
                1nat
            } else {
                0nat
            },
            _ => 0nat,
        }
    }
}

/// The windows of a stream up to `n + k` are those up to `n`, then those of
/// the stream without its first `n` places up to `k`.
pub proof fn lemma_windows_shift(stream: Seq<PositionedModel>, n: int, k: int)
    requires
        0 <= n,
        0 <= k,
        n + k + CAPACITY <= stream.len(),
    ensures
        windows_upto(stream, n + k) == windows_upto(stream, n) + windows_upto(stream.skip(n), k),
    decreases k,
{
    if k == 0 {
        assert(windows_upto(stream, n) + Seq::<RecordModel>::empty() =~= windows_upto(stream, n));
    } else {
        lemma_windows_shift(stream, n, k - 1);
        assert(stream.skip(n).subrange(k, k + CAPACITY) =~= stream.subrange(
            n + k,
            n + k + CAPACITY,
        ));
        let before = windows_upto(stream, n + k - 1);
        let head = windows_upto(stream, n);
        let tail = windows_upto(stream.skip(n), k - 1);
        match record_of(stream.subrange(n + k, n + k + CAPACITY)) {
            Some(record) => {
                assert(before.push(record) =~= head + tail.push(record));
            },
            None => {},
        }
    }
}

/// The record of the window in whose middle the event at place `at` stands.
pub open spec fn record_at(events: Seq<FastEvent>, at: int) -> RecordModel {
    RecordModel {
        page: positioned(events, at).page,
        word: positioned(events, at).word,
        tokens: renderings(
            stream_of(events).subrange(
                at + CAPACITY - WINDOW_SIZE,
                at + 2 * CAPACITY - WINDOW_SIZE,
            ),
        ),
    }
}

/// The records of the numeric words among the first `upto` events, in the
/// order of the words.
pub open spec fn records_by_word(events: Seq<FastEvent>, upto: int) -> Seq<RecordModel>
    decreases upto,
{
    if upto <= 0 {
        Seq::empty()
    } else {
        let before = records_by_word(events, upto - 1);
        match events[upto - 1] {
            FastEvent::Word(text) => if numeric(text) {
                before.push(record_at(events, upto - 1))
            } else {
                before
            },
            _ => before,
        }
    }
}

/// How many events have stood in the middle of the buffer once the window
/// that starts at place `last` has been looked at.
pub open spec fn passed(events: Seq<FastEvent>, last: int) -> int {
    if last <= WINDOW_SIZE {
        0
    } else if last - WINDOW_SIZE >= events.len() {
        events.len() as int
    } else {
        last - WINDOW_SIZE
    }
}

/// The windows up to `last` give the records of the numeric words that have
/// stood in the middle by then: the marks before and after the document
/// give none.
pub proof fn lemma_windows_by_word(events: Seq<FastEvent>, last: int)
    requires
        0 <= last <= events.len() + CAPACITY,
    ensures
        windows_upto(stream_of(events), last) == records_by_word(events, passed(events, last)),
    decreases last,
{
    let stream = stream_of(events);
    let n = events.len() as int;
    if last > 0 {
        lemma_windows_by_word(events, last - 1);
        let window = stream.subrange(last, last + CAPACITY);
        let middle = last + WINDOW_SIZE;
        assert(window[WINDOW_SIZE as int] == stream[middle]);
        if last <= WINDOW_SIZE {
            assert(stream[middle] == start_pad());
        } else if last - WINDOW_SIZE <= n {
            let at = last - WINDOW_SIZE - 1;
            assert(stream[middle] == positioned(events, at));
            assert(passed(events, last) == at + 1);
            assert(passed(events, last - 1) == at);
        } else {
            assert(stream[middle] == end_pad(wrapped((page_after(events) + 1) as int)));
        }
    }
}

/// There are as many records by word as there are numeric words.
pub proof fn lemma_records_by_word_count(events: Seq<FastEvent>, upto: int)
    requires
        0 <= upto <= events.len(),
    ensures
        records_by_word(events, upto).len() == numeric_words(events.take(upto)),
    decreases upto,
{
    if upto > 0 {
        lemma_records_by_word_count(events, upto - 1);
        assert(events.take(upto).drop_last() =~= events.take(upto - 1));
        assert(events.take(upto).last() == events[upto - 1]);
    } else {
        assert(events.take(upto) =~= Seq::empty());
    }
}

/// A document gives one record for each of its numeric words and no other:
/// the records are those of the numeric words, in the order of the words,
/// each with its word in the middle of the window. A document with one
/// numeric word gives one record, however near the word stands to either
/// end.
pub proof fn lemma_one_record_per_numeric_word(events: Seq<FastEvent>)
    ensures
        windows(events) == records_by_word(events, events.len() as int),
        windows(events).len() == numeric_words(events),
{
    lemma_windows_by_word(events, events.len() + CAPACITY);
    lemma_records_by_word_count(events, events.len() as int);
    assert(events.take(events.len() as int) =~= events);
}

/// How the place `offset` of the window around the event at place `at` is
/// written: as the event that stands there, or as the mark of a page start
/// before the document and of a page end after it.
pub open spec fn token_around(events: Seq<FastEvent>, at: int, offset: int) -> Seq<char> {
    let place = at - WINDOW_SIZE + offset;
    if place < 0 {
        "<P>"@
    } else if place >= events.len() {
        "</P>"@
    } else {
        rendering(events[place])
    }
}

/// A numeric word is written as it is.
pub proof fn lemma_numeric_word_as_written(text: Seq<char>)
    requires
        numeric(text),
    ensures
        rendering(FastEvent::Word(text)) == text,
{
    lemma_numeric_is_trimmed(text);
}

/// The record of an event holds the event in its middle, the 32 events
/// before it and the 32 events after it, each as it is written; where the
/// document has fewer on a side, marks of a page start or of a page end
/// stand for what is missing. A numeric word in the middle is written as it
/// is.
pub proof fn lemma_record_tokens(events: Seq<FastEvent>, at: int)
    requires
        0 <= at < events.len(),
    ensures
        record_at(events, at).tokens == Seq::new(
            CAPACITY as nat,
            |offset: int| token_around(events, at, offset),
        ),
        record_at(events, at).tokens[WINDOW_SIZE as int] == rendering(events[at]),
        events[at] matches FastEvent::Word(text) ==> numeric(text) ==> record_at(
            events,
            at,
        ).tokens[WINDOW_SIZE as int] == text,
{
    let stream = stream_of(events);
    let window = stream.subrange(at + CAPACITY - WINDOW_SIZE, at + 2 * CAPACITY - WINDOW_SIZE);
    let around = Seq::new(CAPACITY as nat, |offset: int| token_around(events, at, offset));
    assert forall|offset: int| 0 <= offset < CAPACITY implies renderings(window)[offset]
        == around[offset] by {
        let place = at - WINDOW_SIZE + offset;
        assert(window[offset] == stream[place + CAPACITY]);
        if place < 0 {
            assert(stream[place + CAPACITY] == start_pad());
        } else if place >= events.len() {
            assert(stream[place + CAPACITY].event == FastEvent::EndPage);
        } else {
            assert(stream[place + CAPACITY] == positioned(events, place));
        }
    }
    assert(renderings(window) =~= around);
    match events[at] {
        FastEvent::Word(text) => {
            if numeric(text) {
                lemma_numeric_word_as_written(text);
            }
        },
        _ => {},
    }
}

/// Where no event of `events` but the one at place `at` is a numeric word,
/// the records by word are none before that place and one after it.
proof fn lemma_records_of_single_word(events: Seq<FastEvent>, at: int, upto: int)
    requires
        0 <= at < events.len(),
        0 <= upto <= events.len(),
        events[at] matches FastEvent::Word(text) && numeric(text),
        forall|j: int|
            0 <= j < events.len() && j != at ==> !(#[trigger] events[j] matches FastEvent::Word(
                text,
            ) && numeric(text)),
    ensures
        records_by_word(events, upto) == if upto <= at {
            Seq::<RecordModel>::empty()
        } else {
            seq![record_at(events, at)]
        },
    decreases upto,
{
    if upto > 0 {
        lemma_records_of_single_word(events, at, upto - 1);
    }
}

/// A document with exactly one numeric word gives exactly one record: that
/// of the word, with the word's page and word index, and with the word, as
/// it is, in the middle of the window.
pub proof fn lemma_single_numeric_word(events: Seq<FastEvent>, at: int)
    requires
        0 <= at < events.len(),
        events[at] matches FastEvent::Word(text) && numeric(text),
        forall|j: int|
            0 <= j < events.len() && j != at ==> !(#[trigger] events[j] matches FastEvent::Word(
                text,
            ) && numeric(text)),
    ensures
        windows(events) == seq![record_at(events, at)],
        record_at(events, at).page == positioned(events, at).page,
        record_at(events, at).word == positioned(events, at).word,
        events[at] matches FastEvent::Word(text) && record_at(events, at).tokens[WINDOW_SIZE as int]
            == text,
{
    lemma_one_record_per_numeric_word(events);
    lemma_records_of_single_word(events, at, events.len() as int);
    lemma_record_tokens(events, at);
}

/// The records of the numeric words of a document, in the order of the
/// words.
pub fn numeric_windows(events: &Vec<FastDjVu>) -> (records: Vec<WindowRecord>)
    ensures
        records_model(records@) == windows(fast_model(events@)),
{
    let ghost all = fast_model(events@);
    let ghost stream = stream_of(all);
    let n = events.len();
    let mut extractor = WindowExtractor::new();
    let mut records: Vec<WindowRecord> = Vec::new();
    let mut i: usize = 0;
    assert(all.take(0) =~= Seq::empty());
    assert(extractor@.buffer =~= stream.subrange(0, CAPACITY as int));
    assert(records_model(records@) =~= Seq::empty());
    while i < n
        invariant
            i <= n,
            n == events@.len(),
            all == fast_model(events@),
            stream == stream_of(all),
            extractor.wf(),
            extractor@.buffer == stream.subrange(i as int, i + CAPACITY),
            extractor.page == wrapped(page_after(all.take(i as int)) as int),
            extractor.word_index == wrapped(word_after(all.take(i as int)) as int),
            records_model(records@) == windows_upto(stream, i as int),
        decreases n - i,
    {
        let ghost before = records_model(records@);
        proof {
            assert(all.take(i + 1).drop_last() =~= all.take(i as int));
            assert(all.take(i + 1).last() == events@[i as int]@);
            assert(stream[i + CAPACITY] == positioned(all, i as int));
        }
        let ghost full = extractor@.buffer;
        let record = extractor.push(events[i].duplicate());
        assert forall|j: int| 0 <= j < CAPACITY implies extractor@.buffer[j] == stream[i + 1
            + j] by {
            if j < CAPACITY - 1 {
                assert(extractor@.buffer[j] == full[j + 1]);
                assert(full[j + 1] == stream.subrange(i as int, i + CAPACITY)[j + 1]);
            }
        }
        assert(extractor@.buffer =~= stream.subrange(i + 1, i + 1 + CAPACITY));
        match record {
            Some(record) => {
                records.push(record);
                assert(records_model(records@) =~= before.push(record@));
            },
            None => {},
        }
        i += 1;
    }
    proof {
        assert(all.take(n as int) =~= all);
        lemma_windows_shift(stream, n as int, CAPACITY as int);
        assert(stream.skip(n as int) =~= extractor@.buffer + Seq::new(
            CAPACITY as nat,
            |i: int| end_pad(wrapped(extractor.page + 1)),
        ));
    }
    let ghost before = records_model(records@);
    let mut last = extractor.finish();
    let ghost added = records_model(last@);
    records.append(&mut last);
    assert(records_model(records@) =~= before + added);
    records
}

} // verus!
