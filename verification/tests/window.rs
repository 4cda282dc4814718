use djvuxml::types::FastDjVu;
use djvuxml::window::{
    as_str, consider, numeric_windows, PositionedEvent, WindowExtractor, WindowRecord, CAPACITY,
    WINDOW_SIZE,
};
use std::collections::VecDeque;

fn word(text: &str) -> FastDjVu {
    FastDjVu::Word(text.to_string())
}

fn words(n: usize) -> Vec<FastDjVu> {
    (0..n).map(|i| word(&format!("w{}", i))).collect()
}

#[test]
fn one_numeric_word_far_from_both_ends() {
    let mut events = words(40);
    events.push(word("42"));
    events.extend(words(40));
    let records = numeric_windows(&events);
    assert_eq!(records.len(), 1);
    let record = &records[0];
    assert_eq!(record.page, 0);
    assert_eq!(record.word, 40);
    assert_eq!(record.tokens.len(), CAPACITY);
    assert_eq!(record.tokens[WINDOW_SIZE], "42");
    assert_eq!(record.tokens[0], "w8");
    assert_eq!(record.tokens[31], "w39");
    assert_eq!(record.tokens[33], "w0");
    assert_eq!(record.tokens[64], "w31");
}

#[test]
fn one_numeric_word_near_both_ends() {
    let mut events = words(3);
    events.push(word("42"));
    events.extend(words(2));
    let records = numeric_windows(&events);
    assert_eq!(records.len(), 1);
    let record = &records[0];
    assert_eq!((record.page, record.word), (0, 3));
    assert_eq!(record.tokens.len(), 65);
    for i in 0..29 {
        assert_eq!(record.tokens[i], "<P>");
    }
    assert_eq!(record.tokens[29..35], ["w0", "w1", "w2", "42", "w0", "w1"].map(String::from));
    for i in 35..65 {
        assert_eq!(record.tokens[i], "</P>");
    }
}

#[test]
fn a_record_for_each_numeric_word_with_its_place() {
    let events = vec![
        FastDjVu::StartPage,
        FastDjVu::StartLine,
        word("1"),
        word("a"),
        FastDjVu::Error("e".to_string()),
        word(" 2 "),
        word("3"),
        FastDjVu::EndLine,
        FastDjVu::EndPage,
        FastDjVu::StartPage,
        word("x"),
        word("44"),
        FastDjVu::EndPage,
        word(""),
        word("5"),
    ];
    let records = numeric_windows(&events);
    let places: Vec<(u32, u32)> = records.iter().map(|r| (r.page, r.word)).collect();
    assert_eq!(places, vec![(0, 0), (0, 3), (1, 1), (2, 1)]);
    let centers: Vec<&str> = records.iter().map(|r| r.tokens[32].as_str()).collect();
    assert_eq!(centers, vec!["1", "3", "44", "5"]);
    let first = &records[0].tokens;
    assert_eq!(first[30..40], ["<P>", "<L>", "1", "a", "", "2", "3", "</L>", "</P>", "<P>"].map(String::from));
    assert!(numeric_windows(&vec![]).is_empty());
    assert!(numeric_windows(&words(100)).is_empty());
}

#[test]
fn events_as_they_are_written() {
    assert_eq!(as_str(&FastDjVu::StartPage), "<P>");
    assert_eq!(as_str(&FastDjVu::StartLine), "<L>");
    assert_eq!(as_str(&FastDjVu::EndLine), "</L>");
    assert_eq!(as_str(&FastDjVu::EndPage), "</P>");
    assert_eq!(as_str(&FastDjVu::Error("lost".to_string())), "");
    assert_eq!(as_str(&word("  spaced out \n")), "spaced out");
}

#[test]
fn a_buffer_is_written_down_for_a_numeric_middle() {
    let fill = |middle: FastDjVu| -> VecDeque<PositionedEvent> {
        let mut buffer = VecDeque::new();
        for i in 0..65u32 {
            let event = if i == 32 { middle.clone() } else { FastDjVu::StartLine };
            buffer.push_back(PositionedEvent::new(7, i, event));
        }
        buffer
    };
    let record = consider(&fill(word("1900"))).unwrap();
    assert_eq!((record.page, record.word), (7, 32));
    assert_eq!(record.tokens[32], "1900");
    assert_eq!(record.tokens.iter().filter(|t| t.as_str() == "<L>").count(), 64);
    assert_eq!(consider(&fill(word("190o"))), None);
    assert_eq!(consider(&fill(word(" 1900"))), None);
    assert_eq!(consider(&fill(word(""))), None);
    assert_eq!(consider(&fill(FastDjVu::EndPage)), None);
    assert_eq!(consider(&fill(FastDjVu::Error("1900".to_string()))), None);
}

#[test]
fn the_extractor_step_by_step() {
    let mut extractor = WindowExtractor::new();
    assert_eq!(extractor.circ.len(), 65);
    assert!(extractor.circ.iter().all(|p| *p == PositionedEvent::new(0, 0, FastDjVu::StartPage)));
    assert_eq!(extractor.push(word("7")), None);
    assert_eq!((extractor.page, extractor.word_index), (0, 1));
    assert_eq!(extractor.push(FastDjVu::StartLine), None);
    assert_eq!((extractor.page, extractor.word_index), (0, 1));
    assert_eq!(extractor.push(FastDjVu::EndPage), None);
    assert_eq!((extractor.page, extractor.word_index), (1, 0));
    assert_eq!(extractor.circ.len(), 65);
    assert_eq!(extractor.circ[62], PositionedEvent::new(0, 0, word("7")));
    assert_eq!(extractor.circ[63], PositionedEvent::new(0, 1, FastDjVu::StartLine));
    assert_eq!(extractor.circ[64], PositionedEvent::new(0, 1, FastDjVu::EndPage));
    for _ in 0..29 {
        assert_eq!(extractor.push(FastDjVu::StartLine), None);
    }
    let record = extractor.push(FastDjVu::StartLine).unwrap();
    assert_eq!((record.page, record.word), (0, 0));
    assert_eq!(extractor.push(word("8")), None);
    let records = extractor.finish();
    assert_eq!(records.len(), 1);
    assert_eq!((records[0].page, records[0].word), (1, 0));
    assert_eq!(records[0].tokens[33], "</P>");
    assert!(extractor.circ.iter().all(|p| *p == PositionedEvent::new(2, 0, FastDjVu::EndPage)));
}

#[test]
fn a_record_as_a_line() {
    let record = WindowRecord {
        page: 12,
        word: 0,
        tokens: vec!["<P>".to_string(), "1900".to_string(), "".to_string(), "</P>".to_string()],
    };
    assert_eq!(record.line("hamlet"), "hamlet\t12\t0\t<P>\t1900\t\t</P>\n");
    let bare = WindowRecord { page: 4294967295, word: 10, tokens: vec![] };
    assert_eq!(bare.line(""), "\t4294967295\t10\n");
}

#[test]
fn the_counters_are_32_bits_wide() {
    let mut extractor = WindowExtractor::new();
    extractor.page = u32::MAX;
    extractor.word_index = u32::MAX;
    assert_eq!(extractor.push(word("a")), None);
    assert_eq!((extractor.page, extractor.word_index), (u32::MAX, 0));
    assert_eq!(extractor.circ[64], PositionedEvent::new(u32::MAX, u32::MAX, word("a")));
    assert_eq!(extractor.push(FastDjVu::EndPage), None);
    assert_eq!((extractor.page, extractor.word_index), (0, 0));
    let _ = extractor.finish();
    assert_eq!(extractor.circ[0], PositionedEvent::new(1, 0, FastDjVu::EndPage));
}
