use djvuxml::types::{Book, BookPage, BookWord, FastDjVu, WordCoords};

fn at(x1: u16, x2: u16) -> WordCoords {
    WordCoords { x1, y1: 10, x2, y2: 20, base: 20 }
}

fn word(text: &str) -> BookWord {
    BookWord::new(at(1, 2), text.to_string())
}

#[test]
fn a_new_book_has_one_empty_page() {
    let book = Book::new();
    assert_eq!(book.pages.len(), 1);
    assert_eq!(book.pages[0], BookPage::new());
    assert_eq!(book.pages[0].width, 0);
    assert_eq!(book.pages[0].height, 0);
    assert_eq!(book.pages[0].dpi, 0);
    assert!(book.pages[0].lines.is_empty());
}

#[test]
fn a_page_is_valid_with_metadata_and_a_line() {
    let mut page = BookPage::new();
    assert!(!page.valid());
    page.width = 100;
    page.height = 200;
    page.dpi = 300;
    assert!(!page.valid());
    page.lines.push(Vec::new());
    assert!(page.valid());
    page.dpi = 0;
    assert!(!page.valid());
    page.dpi = 1;
    page.width = 0;
    assert!(!page.valid());
    page.width = 1;
    page.height = 0;
    assert!(!page.valid());
}

#[test]
fn the_cursor_is_the_last_page_and_its_last_line() {
    let mut book = Book::new();
    book.current_page().width = 7;
    book.current_page().lines.push(Vec::new());
    book.current_line().push(word("a"));
    book.current_page().lines.push(Vec::new());
    book.current_line().push(word("b"));
    book.current_line().push(word("c"));
    book.end_page();
    book.current_page().width = 9;
    assert_eq!(book.pages.len(), 2);
    assert_eq!(book.pages[0].width, 7);
    assert_eq!(book.pages[0].lines, vec![vec![word("a")], vec![word("b"), word("c")]]);
    assert_eq!(book.pages[1].width, 9);
    assert!(book.pages[1].lines.is_empty());
}

#[test]
fn a_transcript_joins_words_by_tabs_and_lines_by_newlines() {
    let mut book = Book::new();
    assert_eq!(book.get_page_text(0), "");
    book.pages[0].lines = vec![vec![word("THE"), word("TRAGEDY")], vec![], vec![word("OF")]];
    book.end_page();
    book.pages[1].lines = vec![vec![word("HAMLET")]];
    assert_eq!(book.get_page_text(0), "THE\tTRAGEDY\n\nOF");
    assert_eq!(book.get_page_text(1), "HAMLET");
}

#[test]
fn a_word_keeps_what_it_was_made_of() {
    let w = BookWord::new(at(3, 4), "Music".to_string());
    assert_eq!(w.coords, at(3, 4));
    assert_eq!(w.text, "Music");
}

#[test]
fn a_duplicate_is_the_same_event() {
    let events = vec![
        FastDjVu::StartPage,
        FastDjVu::StartLine,
        FastDjVu::Word("w".to_string()),
        FastDjVu::EndLine,
        FastDjVu::EndPage,
        FastDjVu::Error("e".to_string()),
    ];
    for e in &events {
        assert_eq!(&e.duplicate(), e);
    }
}
