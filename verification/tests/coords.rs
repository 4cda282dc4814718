use djvuxml::coords::CoordsParsingErr;
use djvuxml::types::WordCoords;

#[test]
fn abiographicaldi01bakegoog_djvu_line_50817() {
    let t1 = WordCoords::parse_opt(b"1329,2598,1495,255!").unwrap();
    let e1 = WordCoords {
        x1: 1329,
        y2: 2598,
        x2: 1495,
        y1: 2551,
        base: 2598,
    };
    assert_eq!(t1, e1);
}

#[test]
fn happy_path() {
    let t1 = WordCoords::parse_opt(b"814,1248,1012,1168,1247").unwrap();
    let e1 = WordCoords {
        x1: 814,
        y2: 1248,
        x2: 1012,
        y1: 1168,
        base: 1247,
    };
    assert_eq!(t1, e1);

    let t2 = WordCoords::parse_opt(b"1068,1250,1548,1168,1248").unwrap();
    let e2 = WordCoords {
        x1: 1068,
        y2: 1250,
        x2: 1548,
        y1: 1168,
        base: 1248,
    };
    assert_eq!(t2, e2);
}

#[test]
fn four_fields_take_the_lower_edge_as_baseline() {
    let c = WordCoords::parse(b"1523,2613,1801,2551").unwrap();
    assert_eq!(c, WordCoords { x1: 1523, y2: 2613, x2: 1801, y1: 2551, base: 2613 });
    let c = WordCoords::parse(b"1,2,3,4").unwrap();
    assert_eq!(c.base, 4);
}

#[test]
fn each_error_has_its_input() {
    assert_eq!(WordCoords::parse(b"1,2,3"), Err(CoordsParsingErr::NumberOfNumbers));
    assert_eq!(WordCoords::parse(b"1,2,3,4,5,6"), Err(CoordsParsingErr::NumberOfNumbers));
    assert_eq!(WordCoords::parse(b""), Err(CoordsParsingErr::Number));
    assert_eq!(WordCoords::parse(b"1,2,,4"), Err(CoordsParsingErr::Number));
    assert_eq!(WordCoords::parse(b"1,2,x,4"), Err(CoordsParsingErr::Number));
    assert_eq!(WordCoords::parse(b"1,2,65536,4"), Err(CoordsParsingErr::Number));
    assert_eq!(WordCoords::parse(b"1,2,-3,4"), Err(CoordsParsingErr::Number));
    assert_eq!(WordCoords::parse(b"1, 2,3,4"), Err(CoordsParsingErr::Number));
    assert_eq!(WordCoords::parse(b"1,\xff,3,4"), Err(CoordsParsingErr::Unicode));
    assert_eq!(WordCoords::parse(b"x,\xff,3,4"), Err(CoordsParsingErr::Number));
    assert_eq!(WordCoords::parse(b"1,\xff,3"), Err(CoordsParsingErr::Unicode));
    assert_eq!(WordCoords::parse_opt(b"1,2,3"), None);
}

#[test]
fn numbers_are_read_as_std_reads_them() {
    let c = WordCoords::parse(b"+1,0002,65535,0").unwrap();
    assert_eq!(c, WordCoords { x1: 1, y2: 2, x2: 65535, y1: 0, base: 2 });
    assert_eq!(WordCoords::parse(b"!,!!,!0!,2").unwrap(), WordCoords {
        x1: 1,
        y2: 11,
        x2: 101,
        y1: 2,
        base: 11,
    });
    assert_eq!(WordCoords::parse(b"+,2,3,4"), Err(CoordsParsingErr::Number));
    assert_eq!(WordCoords::parse(b"1+,2,3,4"), Err(CoordsParsingErr::Number));
}
