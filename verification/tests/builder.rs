use djvuxml::builder::BookBuilder;
use djvuxml::types::{Book, BookPage, BookWord, RichDjVu, WordCoords};
use djvuxml::{build_book, process_book};

fn coords() -> WordCoords {
    WordCoords { x1: 814, y2: 1248, x2: 1012, y1: 1168, base: 1247 }
}

fn word(text: &str) -> RichDjVu {
    RichDjVu::Word(Some(coords()), text.to_string())
}

#[test]
fn a_page_with_one_word() {
    let events = vec![
        RichDjVu::StartPage,
        RichDjVu::StartLine,
        word("Hi"),
        RichDjVu::EndLine,
        RichDjVu::EndPage,
    ];
    let (book, errors) = build_book(&events);
    assert!(errors.is_empty());
    assert_eq!(book.pages.len(), 1);
    assert_eq!(book.pages[0].lines.len(), 1);
    assert_eq!(book.pages[0].lines[0], vec![BookWord::new(coords(), "Hi".to_string())]);
}

#[test]
fn metadata_goes_to_the_current_page() {
    let events = vec![
        RichDjVu::PageDimensions(2000, 3000),
        RichDjVu::PageDPI(400),
        RichDjVu::StartLine,
        word("a"),
        word("b"),
        RichDjVu::EndLine,
        RichDjVu::StartLine,
        RichDjVu::EndLine,
        RichDjVu::EndPage,
        RichDjVu::PageDPI(72),
        RichDjVu::PageDimensions(10, 20),
        RichDjVu::StartLine,
        RichDjVu::Word(None, "dropped".to_string()),
        word("c"),
    ];
    let (book, errors) = build_book(&events);
    assert!(errors.is_empty());
    let w = |t: &str| BookWord::new(coords(), t.to_string());
    assert_eq!(
        book,
        Book {
            pages: vec![
                BookPage {
                    width: 2000,
                    height: 3000,
                    dpi: 400,
                    lines: vec![vec![w("a"), w("b")], vec![]],
                },
                BookPage { width: 10, height: 20, dpi: 72, lines: vec![vec![w("c")]] },
            ],
        }
    );
}

#[test]
fn a_last_page_that_is_not_valid_is_left_out() {
    assert_eq!(build_book(&vec![]).0.pages.len(), 0);
    let no_dpi = vec![RichDjVu::PageDimensions(1, 2), RichDjVu::StartLine];
    assert_eq!(build_book(&no_dpi).0.pages.len(), 0);
    let no_line = vec![RichDjVu::PageDimensions(1, 2), RichDjVu::PageDPI(3)];
    assert_eq!(build_book(&no_line).0.pages.len(), 0);
    let valid = vec![RichDjVu::PageDimensions(1, 2), RichDjVu::PageDPI(3), RichDjVu::StartLine];
    assert_eq!(build_book(&valid).0.pages.len(), 1);
    let mut two = valid.clone();
    two.push(RichDjVu::EndPage);
    two.push(RichDjVu::StartLine);
    let book = build_book(&two).0;
    assert_eq!(book.pages.len(), 1);
    assert_eq!(book.pages[0].dpi, 3);
    let early = vec![RichDjVu::EndPage, RichDjVu::EndPage];
    let book = build_book(&early).0;
    assert_eq!(book.pages, vec![BookPage::new(), BookPage::new()]);
}

#[test]
fn diagnostics_are_collected_in_order() {
    let events = vec![
        RichDjVu::Error("first".to_string()),
        RichDjVu::StartLine,
        RichDjVu::Error("second".to_string()),
    ];
    let (_, errors) = build_book(&events);
    assert_eq!(errors, vec!["first".to_string(), "second".to_string()]);
}

#[test]
fn a_word_outside_any_line_is_dropped_with_a_diagnostic() {
    let lost = "a word stands outside any line".to_string();
    let (book, errors) = build_book(&vec![word("a")]);
    assert_eq!(book.pages.len(), 0);
    assert_eq!(errors, vec![lost.clone()]);
    let events = vec![
        RichDjVu::PageDimensions(1, 2),
        RichDjVu::PageDPI(3),
        word("before"),
        RichDjVu::Error("e".to_string()),
        RichDjVu::StartLine,
        word("in"),
        RichDjVu::EndLine,
        word("after"),
        RichDjVu::EndPage,
        word("next"),
        RichDjVu::Word(None, "bare".to_string()),
    ];
    let (book, errors) = build_book(&events);
    assert_eq!(errors, vec![lost.clone(), "e".to_string(), lost]);
    assert_eq!(book.pages.len(), 1);
    let texts: Vec<&str> = book.pages[0].lines[0].iter().map(|w| w.text.as_str()).collect();
    assert_eq!(texts, vec!["in", "after"]);
}

#[test]
fn the_builder_step_by_step() {
    let mut builder = BookBuilder::new();
    assert_eq!(builder.book, Book::new());
    assert!(!builder.has_line());
    builder.apply(&RichDjVu::StartLine);
    assert!(builder.has_line());
    builder.apply(&word("a"));
    builder.apply(&RichDjVu::Error("e".to_string()));
    builder.apply(&RichDjVu::PageDimensions(1, 2));
    builder.apply(&RichDjVu::PageDPI(3));
    builder.apply(&RichDjVu::EndPage);
    assert!(!builder.has_line());
    builder.apply(&word("lost"));
    assert_eq!(builder.book.pages.len(), 2);
    assert!(builder.book.pages[1].lines.is_empty());
    let (book, errors) = builder.finish();
    assert_eq!(book.pages.len(), 1);
    assert_eq!(book.pages[0].lines[0][0].text, "a");
    assert_eq!(errors, vec!["e".to_string(), "a word stands outside any line".to_string()]);
}

#[test]
fn a_book_from_its_document() {
    let xml = b"<OBJECT width=\"20\" height=\"30\"><PARAM name=\"DPI\" value=\"300\"/>\
<LINE><WORD coords=\"814,1248,1012,1168,1247\">Hi</WORD><WORD coords=\"?\">lost</WORD></LINE></OBJECT>";
    let book = process_book(xml).unwrap();
    assert_eq!(
        book,
        Book {
            pages: vec![BookPage {
                width: 20,
                height: 30,
                dpi: 300,
                lines: vec![vec![BookWord::new(coords(), "Hi".to_string())]],
            }],
        }
    );
    assert_eq!(book.get_page_text(0), "Hi");
    assert_eq!(process_book(b"<WORD coords=\"1,2,3,4\">a</WORD>").unwrap().pages.len(), 0);
    assert_eq!(process_book(b"").unwrap().pages.len(), 0);
}

#[test]
fn a_page_start_changes_nothing() {
    let with = vec![
        RichDjVu::StartPage,
        RichDjVu::PageDimensions(1, 2),
        RichDjVu::StartPage,
        RichDjVu::PageDPI(3),
        RichDjVu::StartLine,
        RichDjVu::StartPage,
        word("a"),
    ];
    let without: Vec<RichDjVu> =
        with.iter().filter(|e| **e != RichDjVu::StartPage).cloned().collect();
    assert_eq!(without.len(), 4);
    assert_eq!(build_book(&with), build_book(&without));
    assert_eq!(build_book(&with).0.pages[0].lines[0].len(), 1);
}
