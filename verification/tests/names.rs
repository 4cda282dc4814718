use djvuxml::trim_book;

#[test]
fn the_identifier_is_the_file_name_without_its_endings() {
    assert_eq!("abelincjohn02morsrich", trim_book("inex500/abelincjohn02morsrich_djvu.xml"));
    assert_eq!("abelincjohn02morsrich", trim_book("inex500/abelincjohn02morsrich.xml"));
    assert_eq!("abelincjohn02morsrich", trim_book("abelincjohn02morsrich_djvu.xml"));
    assert_eq!("abelincjohn02morsrich", trim_book("abelincjohn02morsrich.xml"));
}

#[test]
fn repeated_endings_and_odd_paths() {
    assert_eq!("a", trim_book("a.xml.xml"));
    assert_eq!("a", trim_book("a_djvu.xml_djvu.xml"));
    assert_eq!("a_djvu", trim_book("a_djvu.xml.xml"));
    assert_eq!("a", trim_book("x/y/a"));
    assert_eq!("", trim_book("x/y/"));
    assert_eq!("", trim_book(""));
    assert_eq!("", trim_book(".xml"));
    assert_eq!("b", trim_book("a.xml/b"));
    assert_eq!("\u{e9}", trim_book("\u{e0}/\u{e9}.xml"));
    assert_eq!("a.txt", trim_book("a.txt"));
}
