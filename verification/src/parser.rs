//! From tokens to events. A parser is a small state machine: it looks at
//! one token at a time and remembers only whether it stands inside a word
//! and, in the rich vocabulary, what the word's start tag said of its
//! coordinates.

use crate::bytes::{ascii_bytes, is_named};
use crate::coords::decoded;
use crate::params::{
    find_attribute, find_value, page_event, param_event, process, process_page, ParamError,
};
use crate::types::{FastDjVu, FastEvent, RichDjVu, RichEvent, WordCoords};
use crate::xml::{
    attributes_model, next_token, open_reader, pending_tokens, tokens_model, xml_tokens,
    AttributeModel, TokenModel, XmlAttribute, XmlToken,
};
use vstd::prelude::*;

verus! {

/// The name of the element that holds a word.
pub open spec fn word_tag() -> Seq<u8> {
    ascii_bytes("WORD"@)
}

/// The name of the element that holds a line.
pub open spec fn line_tag() -> Seq<u8> {
    ascii_bytes("LINE"@)
}

/// The name of the element that holds a page.
pub open spec fn page_tag() -> Seq<u8> {
    ascii_bytes("OBJECT"@)
}

/// The name of the element that holds a parameter of a page.
pub open spec fn param_tag() -> Seq<u8> {
    ascii_bytes("PARAM"@)
}

/// The diagnostic for the text of a word that the reader could not decode.
pub open spec fn undecodable() -> Seq<char> {
    "text of a word cannot be decoded"@
}

/// No two of the four element names are the same.
pub proof fn lemma_tags_differ()
    ensures
        word_tag() != line_tag(),
        word_tag() != page_tag(),
        word_tag() != param_tag(),
        line_tag() != page_tag(),
        line_tag() != param_tag(),
        page_tag() != param_tag(),
{
    reveal_strlit("WORD");
    reveal_strlit("LINE");
    reveal_strlit("OBJECT");
    reveal_strlit("PARAM");
    assert(word_tag().len() == 4 && word_tag()[0] == 87);
    assert(line_tag().len() == 4 && line_tag()[0] == 76);
    assert(page_tag().len() == 6);
    assert(param_tag().len() == 5);
}

/// The models of a sequence of fast events.
pub open spec fn fast_model(events: Seq<FastDjVu>) -> Seq<FastEvent> {
    Seq::new(events.len(), |i: int| events[i]@)
}

/// The models of a sequence of rich events.
pub open spec fn rich_model(events: Seq<RichDjVu>) -> Seq<RichEvent> {
    Seq::new(events.len(), |i: int| events[i]@)
}

/// The coordinates that a word's start tag gives: those of its first
/// well-formed `coords` attribute, where they can be decoded.
pub open spec fn word_coords(attributes: Seq<Option<AttributeModel>>) -> Option<WordCoords> {
    match find_attribute(attributes, ascii_bytes("coords"@)) {
        None => None,
        Some(value) => match decoded(value) {
            Ok(coords) => Some(coords),
            Err(_) => None,
        },
    }
}

/// The events that stand for what an element says of its page: the
/// metadata, nothing, or a diagnostic.
pub open spec fn outcome_events(outcome: Result<Option<RichEvent>, ParamError>) -> Seq<RichEvent> {
    match outcome {
        Ok(Some(event)) => seq![event],
        Ok(None) => Seq::empty(),
        Err(e) => seq![RichEvent::Error(e.text())],
    }
}

/// The parser of the fast vocabulary.
#[derive(Debug, Copy, Clone, PartialEq, Eq, Structural)]
pub struct FastParser {
    /// Whether the last word that started has not ended yet.
    pub in_word: bool,
}

impl FastParser {
    /// The parser's state before the first token.
    pub open spec fn start() -> FastParser {
        FastParser { in_word: false }
    }

    /// The parser's state after `token`.
    pub open spec fn next(self, token: TokenModel) -> FastParser {
        match token {
            TokenModel::Start { name, attributes } => if name == word_tag() {
                FastParser { in_word: true }
            } else {
                self
            },
            TokenModel::End { name } => if name == word_tag() {
                FastParser { in_word: false }
            } else {
                self
            },
            _ => self,
        }
    }

    /// The events that `token` gives rise to.
    pub open spec fn emitted(self, token: TokenModel) -> Seq<FastEvent> {
        match token {
            TokenModel::Start { name, attributes } => if name == page_tag() {
                seq![FastEvent::StartPage]
            } else if name == line_tag() {
                seq![FastEvent::StartLine]
            } else {
                Seq::empty()
            },
            TokenModel::End { name } => if name == line_tag() {
                seq![FastEvent::EndLine]
            } else if name == page_tag() {
                seq![FastEvent::EndPage]
            } else {
                Seq::empty()
            },
            TokenModel::Text { content } => if self.in_word {
                match content {
                    Some(text) => seq![FastEvent::Word(text)],
                    None => seq![FastEvent::Error(undecodable())],
                }
            } else {
                Seq::empty()
            },
            _ => Seq::empty(),
        }
    }

    /// The parser's state after `tokens`, and the events up to there.
    pub open spec fn run(tokens: Seq<TokenModel>) -> (FastParser, Seq<FastEvent>)
        decreases tokens.len(),
    {
        if tokens.len() == 0 {
            (FastParser::start(), Seq::empty())
        } else {
            let (parser, events) = FastParser::run(tokens.drop_last());
            (parser.next(tokens.last()), events + parser.emitted(tokens.last()))
        }
    }

    /// A parser before the first token.
    pub fn new() -> (parser: FastParser)
        ensures
            parser == FastParser::start(),
    {
        FastParser { in_word: false }
    }

    /// Takes one token in and hands out the events it gives rise to.
    pub fn step(&mut self, token: &XmlToken) -> (events: Vec<FastDjVu>)
        ensures
            *final(self) == old(self).next(token@),
            fast_model(events@) == old(self).emitted(token@),
    {
        proof {
            reveal_strlit("WORD");
            reveal_strlit("LINE");
            reveal_strlit("OBJECT");
            lemma_tags_differ();
        }
        let mut events: Vec<FastDjVu> = Vec::new();
        match token {
            XmlToken::Start { name, attributes } => {
                if is_named(name.as_slice(), "WORD") {
                    self.in_word = true;
                } else if is_named(name.as_slice(), "OBJECT") {
                    events.push(FastDjVu::StartPage);
                } else if is_named(name.as_slice(), "LINE") {
                    events.push(FastDjVu::StartLine);
                }
            },
            XmlToken::End { name } => {
                if is_named(name.as_slice(), "WORD") {
                    self.in_word = false;
                } else if is_named(name.as_slice(), "LINE") {
                    events.push(FastDjVu::EndLine);
                } else if is_named(name.as_slice(), "OBJECT") {
                    events.push(FastDjVu::EndPage);
                }
            },
            XmlToken::Text { content } => {
                if self.in_word {
                    match content {
                        Some(text) => {
                            events.push(FastDjVu::Word(text.clone()));
                        },
                        None => {
                            events.push(
                                FastDjVu::Error("text of a word cannot be decoded".to_owned()),
                            );
                        },
                    }
                }
            },
            _ => {},
        }
        assert(fast_model(events@) =~= old(self).emitted(token@));
        events
    }

    /// The events of a whole sequence of tokens.
    pub fn events(tokens: &Vec<XmlToken>) -> (events: Vec<FastDjVu>)
        ensures
            fast_model(events@) == FastParser::run(tokens_model(tokens@)).1,
    {
        let ghost all = tokens_model(tokens@);
        let mut parser = FastParser::new();
        let mut events: Vec<FastDjVu> = Vec::new();
        let mut i: usize = 0;
        assert(all.take(0) =~= Seq::empty());
        assert(fast_model(events@) =~= Seq::empty());
        while i < tokens.len()
            invariant
                i <= tokens@.len(),
                all == tokens_model(tokens@),
                (parser, fast_model(events@)) == FastParser::run(all.take(i as int)),
            decreases tokens@.len() - i,
        {
            let ghost before = fast_model(events@);
            let mut emitted = parser.step(&tokens[i]);
            let ghost added = fast_model(emitted@);
            events.append(&mut emitted);
            i += 1;
            proof {
                assert(all.take(i as int).drop_last() =~= all.take(i - 1));
                assert(all.take(i as int).last() == tokens@[i - 1]@);
                assert(fast_model(events@) =~= before + added);
            }
        }
        assert(all.take(tokens@.len() as int) =~= all);
        events
    }
}

/// The parser of the rich vocabulary.
#[derive(Debug, Copy, Clone, PartialEq, Eq, Structural)]
pub struct RichParser {
    /// Whether the last word that started has not ended yet.
    pub in_word: bool,
    /// What the start tag of the last word said of its coordinates.
    pub recent_coords: Option<WordCoords>,
}

impl RichParser {
    /// The parser's state before the first token.
    pub open spec fn start() -> RichParser {
        RichParser { in_word: false, recent_coords: None }
    }

    /// The parser's state after `token`.
    pub open spec fn next(self, token: TokenModel) -> RichParser {
        match token {
            TokenModel::Start { name, attributes } => if name == word_tag() {
                RichParser { in_word: true, recent_coords: word_coords(attributes) }
            } else {
                self
            },
            TokenModel::End { name } => if name == word_tag() {
                RichParser { in_word: false, recent_coords: self.recent_coords }
            } else {
                self
            },
            _ => self,
        }
    }

    /// The events that `token` gives rise to.
    pub open spec fn emitted(self, token: TokenModel) -> Seq<RichEvent> {
        match token {
            TokenModel::Start { name, attributes } => if name == param_tag() {
                outcome_events(param_event(attributes))
            } else if name == page_tag() {
                outcome_events(page_event(attributes))
            } else if name == line_tag() {
                seq![RichEvent::StartLine]
            } else {
                Seq::empty()
            },
            TokenModel::End { name } => if name == line_tag() {
                seq![RichEvent::EndLine]
            } else if name == page_tag() {
                seq![RichEvent::EndPage]
            } else {
                Seq::empty()
            },
            TokenModel::Text { content } => if self.in_word {
                match content {
                    Some(text) => seq![RichEvent::Word(self.recent_coords, text)],
                    None => seq![RichEvent::Error(undecodable())],
                }
            } else {
                Seq::empty()
            },
            _ => Seq::empty(),
        }
    }

    /// The parser's state after `tokens`, and the events up to there.
    pub open spec fn run(tokens: Seq<TokenModel>) -> (RichParser, Seq<RichEvent>)
        decreases tokens.len(),
    {
        if tokens.len() == 0 {
            (RichParser::start(), Seq::empty())
        } else {
            let (parser, events) = RichParser::run(tokens.drop_last());
            (parser.next(tokens.last()), events + parser.emitted(tokens.last()))
        }
    }

    /// A parser before the first token.
    pub fn new() -> (parser: RichParser)
        ensures
            parser == RichParser::start(),
    {
        RichParser { in_word: false, recent_coords: None }
    }

    /// Takes one token in and hands out the events it gives rise to.
    pub fn step(&mut self, token: &XmlToken) -> (events: Vec<RichDjVu>)
        ensures
            *final(self) == old(self).next(token@),
            rich_model(events@) == old(self).emitted(token@),
    {
        proof {
            reveal_strlit("WORD");
            reveal_strlit("LINE");
            reveal_strlit("OBJECT");
            reveal_strlit("PARAM");
            lemma_tags_differ();
        }
        let mut events: Vec<RichDjVu> = Vec::new();
        match token {
            XmlToken::Start { name, attributes } => {
                if is_named(name.as_slice(), "WORD") {
                    self.in_word = true;
                    self.recent_coords = read_coords(attributes);
                } else if is_named(name.as_slice(), "PARAM") {
                    push_outcome(&mut events, process(attributes));
                } else if is_named(name.as_slice(), "OBJECT") {
                    push_outcome(&mut events, process_page(attributes));
                } else if is_named(name.as_slice(), "LINE") {
                    events.push(RichDjVu::StartLine);
                }
            },
            XmlToken::End { name } => {
                if is_named(name.as_slice(), "WORD") {
                    self.in_word = false;
                } else if is_named(name.as_slice(), "LINE") {
                    events.push(RichDjVu::EndLine);
                } else if is_named(name.as_slice(), "OBJECT") {
                    events.push(RichDjVu::EndPage);
                }
            },
            XmlToken::Text { content } => {
                if self.in_word {
                    match content {
                        Some(text) => {
                            events.push(RichDjVu::Word(self.recent_coords, text.clone()));
                        },
                        None => {
                            events.push(
                                RichDjVu::Error("text of a word cannot be decoded".to_owned()),
                            );
                        },
                    }
                }
            },
            _ => {},
        }
        assert(rich_model(events@) =~= old(self).emitted(token@));
        events
    }

    /// The events of a whole sequence of tokens.
    pub fn events(tokens: &Vec<XmlToken>) -> (events: Vec<RichDjVu>)
        ensures
            rich_model(events@) == RichParser::run(tokens_model(tokens@)).1,
    {
        let ghost all = tokens_model(tokens@);
        let mut parser = RichParser::new();
        let mut events: Vec<RichDjVu> = Vec::new();
        let mut i: usize = 0;
        assert(all.take(0) =~= Seq::empty());
        assert(rich_model(events@) =~= Seq::empty());
        while i < tokens.len()
            invariant
                i <= tokens@.len(),
                all == tokens_model(tokens@),
                (parser, rich_model(events@)) == RichParser::run(all.take(i as int)),
            decreases tokens@.len() - i,
        {
            let ghost before = rich_model(events@);
            let mut emitted = parser.step(&tokens[i]);
            let ghost added = rich_model(emitted@);
            events.append(&mut emitted);
            i += 1;
            proof {
                assert(all.take(i as int).drop_last() =~= all.take(i - 1));
                assert(all.take(i as int).last() == tokens@[i - 1]@);
                assert(rich_model(events@) =~= before + added);
            }
        }
        assert(all.take(tokens@.len() as int) =~= all);
        events
    }
}

/// The parser hands out no page start: a page starts with its dimensions,
/// or with the diagnostic that stands in their place.
pub proof fn lemma_no_page_start(parser: RichParser, token: TokenModel)
    ensures
        forall|i: int|
            0 <= i < parser.emitted(token).len() ==> #[trigger] parser.emitted(token)[i]
                != RichEvent::StartPage,
        token matches TokenModel::Start { name, attributes } ==> name == page_tag()
            ==> parser.emitted(token).len() == 1,
{
    lemma_tags_differ();
}

/// Reads the coordinates off the attributes of a word's start tag.
pub fn read_coords(attributes: &Vec<Option<XmlAttribute>>) -> (coords: Option<WordCoords>)
    ensures
        coords == word_coords(attributes_model(attributes@)),
{
    proof {
        reveal_strlit("coords");
    }
    match find_value(attributes, "coords") {
        None => None,
        Some(value) => WordCoords::parse_opt(value.as_slice()),
    }
}

/// Appends the events that stand for what an element says of its page.
fn push_outcome(events: &mut Vec<RichDjVu>, outcome: Result<Option<RichDjVu>, ParamError>)
    ensures
        rich_model(final(events)@) == rich_model(old(events)@) + outcome_events(
            crate::params::outcome_model(outcome),
        ),
{
    match outcome {
        Ok(Some(event)) => {
            events.push(event);
        },
        Ok(None) => {},
        Err(e) => {
            events.push(RichDjVu::Error(e.message()));
        },
    }
    assert(rich_model(events@) =~= rich_model(old(events)@) + outcome_events(
        crate::params::outcome_model(outcome),
    ));
}

/// The fast events of a document.
pub fn parse_fast_xml(xml: &[u8]) -> (events: Vec<FastDjVu>)
    ensures
        fast_model(events@) == FastParser::run(xml_tokens(xml@, false)).1,
{
    let ghost all = xml_tokens(xml@, false);
    let mut reader = open_reader(xml, false);
    let mut parser = FastParser::new();
    let mut events: Vec<FastDjVu> = Vec::new();
    let ghost mut seen: Seq<TokenModel> = Seq::empty();
    assert(fast_model(events@) =~= Seq::empty());
    assert(seen + pending_tokens(&reader) =~= all);
    loop
        invariant
            seen + pending_tokens(&reader) == all,
            (parser, fast_model(events@)) == FastParser::run(seen),
        ensures
            fast_model(events@) == FastParser::run(all).1,
        decreases pending_tokens(&reader).len(),
    {
        let ghost pending = pending_tokens(&reader);
        let token = next_token(&mut reader);
        if let XmlToken::Eof = token {
            assert(seen + pending =~= seen);
            break ;
        }
        let ghost before = fast_model(events@);
        let mut emitted = parser.step(&token);
        let ghost added = fast_model(emitted@);
        events.append(&mut emitted);
        proof {
            let longer = seen.push(token@);
            assert(longer.drop_last() =~= seen);
            assert(longer + pending.drop_first() =~= seen + pending);
            assert(fast_model(events@) =~= before + added);
            seen = longer;
        }
    }
    events
}

/// The rich events of a document. Empty elements count as a start tag and
/// an end tag.
pub fn parse_rich_xml(xml: &[u8]) -> (events: Vec<RichDjVu>)
    ensures
        rich_model(events@) == RichParser::run(xml_tokens(xml@, true)).1,
{
    let ghost all = xml_tokens(xml@, true);
    let mut reader = open_reader(xml, true);
    let mut parser = RichParser::new();
    let mut events: Vec<RichDjVu> = Vec::new();
    let ghost mut seen: Seq<TokenModel> = Seq::empty();
    assert(rich_model(events@) =~= Seq::empty());
    assert(seen + pending_tokens(&reader) =~= all);
    loop
        invariant
            seen + pending_tokens(&reader) == all,
            (parser, rich_model(events@)) == RichParser::run(seen),
        ensures
            rich_model(events@) == RichParser::run(all).1,
        decreases pending_tokens(&reader).len(),
    {
        let ghost pending = pending_tokens(&reader);
        let token = next_token(&mut reader);
        if let XmlToken::Eof = token {
            assert(seen + pending =~= seen);
            break ;
        }
        let ghost before = rich_model(events@);
        let mut emitted = parser.step(&token);
        let ghost added = rich_model(emitted@);
        events.append(&mut emitted);
        proof {
            let longer = seen.push(token@);
            assert(longer.drop_last() =~= seen);
            assert(longer + pending.drop_first() =~= seen + pending);
            assert(rich_model(events@) =~= before + added);
            seen = longer;
        }
    }
    events
}

} // verus!
