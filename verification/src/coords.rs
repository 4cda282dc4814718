//! The decoder of word coordinates: four or five numbers between commas,
//! in which the scanner now and then wrote `!` for a digit `1`.

use crate::bytes::is_utf8;
use crate::decimal::{parse_u16, unsigned_decimal};
use crate::types::WordCoords;
use vstd::prelude::*;
use vstd::utf8::valid_utf8;

verus! {

/// Why a text holds no coordinates.
#[derive(Debug, Copy, Clone, PartialEq, Eq, Structural)]
pub enum CoordsParsingErr {
    /// A field is not UTF-8.
    Unicode,
    /// A field is not an unsigned 16-bit number.
    Number,
    /// There are neither four fields nor five.
    NumberOfNumbers,
}

/// The byte that separates fields.
pub open spec fn comma() -> u8 {
    44
}

/// The byte that stands where a digit `1` was meant.
pub open spec fn sentinel() -> u8 {
    33
}

/// Where the first comma of `bytes` stands; its length where it has none.
pub open spec fn first_comma(bytes: Seq<u8>) -> int
    decreases bytes.len(),
{
    if bytes.len() == 0 || bytes[0] == comma() {
        0
    } else {
        1 + first_comma(bytes.drop_first())
    }
}

/// The fields of `bytes`: what stands before, between and after its commas.
/// There is always at least one.
pub open spec fn split_fields(bytes: Seq<u8>) -> Seq<Seq<u8>>
    decreases bytes.len(),
{
    let k = first_comma(bytes);
    if 0 <= k < bytes.len() {
        seq![bytes.take(k)] + split_fields(bytes.skip(k + 1))
    } else {
        seq![bytes]
    }
}

/// A field with a digit `1` in place of each sentinel.
pub open spec fn mended(field: Seq<u8>) -> Seq<u8> {
    Seq::new(
        field.len(),
        |i: int|
            if field[i] == sentinel() {
                49u8
            } else {
                field[i]
            },
    )
}

/// The number of one field.
pub open spec fn field_value(field: Seq<u8>) -> Result<u16, CoordsParsingErr> {
    if !valid_utf8(field) {
        Err(CoordsParsingErr::Unicode)
    } else {
        match unsigned_decimal(mended(field), 0xffff) {
            Some(v) => Ok(v as u16),
            None => Err(CoordsParsingErr::Number),
        }
    }
}

/// The numbers of the fields, or what is wrong with the first field that
/// holds none.
pub open spec fn field_values(fields: Seq<Seq<u8>>) -> Result<Seq<u16>, CoordsParsingErr>
    decreases fields.len(),
{
    if fields.len() == 0 {
        Ok(Seq::empty())
    } else {
        match field_values(fields.drop_last()) {
            Err(e) => Err(e),
            Ok(values) => match field_value(fields.last()) {
                Err(e) => Err(e),
                Ok(v) => Ok(values.push(v)),
            },
        }
    }
}

/// The coordinates that four or five numbers stand for. They come in the
/// order x1, y2, x2, y1, baseline; without a fifth the baseline is the
/// lower of the two edges.
pub open spec fn coords_of(values: Seq<u16>) -> Result<WordCoords, CoordsParsingErr> {
    if values.len() == 5 {
        Ok(
            WordCoords {
                x1: values[0],
                y2: values[1],
                x2: values[2],
                y1: values[3],
                base: values[4],
            },
        )
    } else if values.len() == 4 {
        Ok(
            WordCoords {
                x1: values[0],
                y2: values[1],
                x2: values[2],
                y1: values[3],
                base: if values[1] >= values[3] {
                    values[1]
                } else {
                    values[3]
                },
            },
        )
    } else {
        Err(CoordsParsingErr::NumberOfNumbers)
    }
}

/// What a coordinate text decodes to.
pub open spec fn decoded(bytes: Seq<u8>) -> Result<WordCoords, CoordsParsingErr> {
    match field_values(split_fields(bytes)) {
        Err(e) => Err(e),
        Ok(values) => coords_of(values),
    }
}

/// The first comma stands where a comma stands and none stands before.
proof fn lemma_first_comma(bytes: Seq<u8>, k: int)
    requires
        0 <= k <= bytes.len(),
        forall|i: int| 0 <= i < k ==> bytes[i] != comma(),
        k < bytes.len() ==> bytes[k] == comma(),
    ensures
        first_comma(bytes) == k,
    decreases k,
{
    if k > 0 {
        let rest = bytes.drop_first();
        assert forall|i: int| 0 <= i < k - 1 implies rest[i] != comma() by {
            assert(rest[i] == bytes[i + 1]);
        }
        lemma_first_comma(rest, k - 1);
    }
}

/// A field with a digit `1` in place of each sentinel.
fn mend(field: &[u8]) -> (out: Vec<u8>)
    ensures
        out@ == mended(field@),
{
    let mut out: Vec<u8> = Vec::new();
    let mut i: usize = 0;
    while i < field.len()
        invariant
            i <= field@.len(),
            out@ == mended(field@).take(i as int),
        decreases field@.len() - i,
    {
        let b = field[i];
        out.push(if b == 33 { 49 } else { b });
        i += 1;
        assert(mended(field@).take(i as int) =~= mended(field@).take(i - 1).push(
            mended(field@)[i - 1],
        ));
    }
    assert(mended(field@).take(field@.len() as int) =~= mended(field@));
    out
}

/// Reads the number of one field.
pub fn parse_field(field: &[u8]) -> (value: Result<u16, CoordsParsingErr>)
    ensures
        value == field_value(field@),
{
    if !is_utf8(field) {
        return Err(CoordsParsingErr::Unicode);
    }
    let text = mend(field);
    match parse_u16(text.as_slice()) {
        Some(v) => Ok(v),
        None => Err(CoordsParsingErr::Number),
    }
}

impl WordCoords {
    /// Decodes coordinates as the markup writes them, for example
    /// `814,1248,1012,1168,1247` or, without a baseline and with a
    /// sentinel, `1329,2598,1495,255!`.
    pub fn parse(bytes: &[u8]) -> (coords: Result<WordCoords, CoordsParsingErr>)
        ensures
            coords == decoded(bytes@),
    {
        let n = bytes.len();
        let mut values: Vec<u16> = Vec::new();
        let mut start: usize = 0;
        let mut i: usize = 0;
        let ghost mut done: Seq<Seq<u8>> = Seq::empty();
        assert(bytes@.skip(0) =~= bytes@);
        while i < n
            invariant
                start <= i <= n,
                n == bytes@.len(),
                split_fields(bytes@) == done + split_fields(bytes@.skip(start as int)),
                field_values(done) == Ok::<Seq<u16>, CoordsParsingErr>(values@),
                forall|j: int| start <= j < i ==> bytes@[j] != comma(),
            decreases n - i,
        {
            if bytes[i] == 44 {
                let field = &bytes[start..i];
                let ghost rest = bytes@.skip(start as int);
                proof {
                    assert forall|j: int| 0 <= j < i - start implies rest[j] != comma() by {
                        assert(rest[j] == bytes@[start + j]);
                    }
                    lemma_first_comma(rest, i - start);
                    assert(rest.take(i - start) =~= field@);
                    assert(rest.skip(i - start + 1) =~= bytes@.skip(i + 1));
                    assert(split_fields(bytes@) =~= done.push(field@) + split_fields(
                        bytes@.skip(i + 1),
                    ));
                    assert(done.push(field@).drop_last() =~= done);
                }
                match parse_field(field) {
                    Err(e) => {
                        proof {
                            lemma_field_values_fail(
                                done.push(field@),
                                split_fields(bytes@.skip(i + 1)),
                                e,
                            );
                        }
                        return Err(e);
                    },
                    Ok(v) => {
                        values.push(v);
                    },
                }
                proof {
                    done = done.push(field@);
                }
                start = i + 1;
            }
            i += 1;
        }
        let field = &bytes[start..n];
        proof {
            let rest = bytes@.skip(start as int);
            assert forall|j: int| 0 <= j < n - start implies rest[j] != comma() by {
                assert(rest[j] == bytes@[start + j]);
            }
            lemma_first_comma(rest, n - start);
            assert(rest =~= field@);
            assert(split_fields(bytes@) =~= done.push(field@));
            assert(done.push(field@).drop_last() =~= done);
        }
        match parse_field(field) {
            Err(e) => {
                return Err(e);
            },
            Ok(v) => {
                values.push(v);
            },
        }
        if values.len() == 5 {
            Ok(
                WordCoords {
                    x1: values[0],
                    y2: values[1],
                    x2: values[2],
                    y1: values[3],
                    base: values[4],
                },
            )
        } else if values.len() == 4 {
            let base = if values[1] >= values[3] {
                values[1]
            } else {
                values[3]
            };
            Ok(WordCoords { x1: values[0], y2: values[1], x2: values[2], y1: values[3], base })
        } else {
            Err(CoordsParsingErr::NumberOfNumbers)
        }
    }

    /// As [`WordCoords::parse`], for callers that drop a word whose
    /// coordinates cannot be read.
    pub fn parse_opt(bytes: &[u8]) -> (coords: Option<WordCoords>)
        ensures
            coords == match decoded(bytes@) {
                Ok(c) => Some(c),
                Err(_) => None,
            },
    {
        match WordCoords::parse(bytes) {
            Ok(c) => Some(c),
            Err(_) => None,
        }
    }
}

/// Coordinates come of four numbers or of five, in the order x1, y2, x2,
/// y1, baseline; where there are four, the baseline is the larger of y1
/// and y2.
pub proof fn lemma_coords_of_fields(values: Seq<u16>)
    ensures
        coords_of(values) is Ok <==> values.len() == 4 || values.len() == 5,
        coords_of(values) matches Ok(c) ==> c.x1 == values[0] && c.y2 == values[1] && c.x2
            == values[2] && c.y1 == values[3],
        coords_of(values) matches Ok(c) ==> (values.len() == 5 ==> c.base == values[4]),
        coords_of(values) matches Ok(c) ==> (values.len() == 4 ==> c.base >= c.y1 && c.base
            >= c.y2 && (c.base == c.y1 || c.base == c.y2)),
{
}

/// Once a field holds no number, the fields after it change nothing.
proof fn lemma_field_values_fail(
    head: Seq<Seq<u8>>,
    tail: Seq<Seq<u8>>,
    e: CoordsParsingErr,
)
    requires
        field_values(head) == Err::<Seq<u16>, CoordsParsingErr>(e),
    ensures
        field_values(head + tail) == Err::<Seq<u16>, CoordsParsingErr>(e),
    decreases tail.len(),
{
    if tail.len() == 0 {
        assert(head + tail =~= head);
    } else {
        lemma_field_values_fail(head, tail.drop_last(), e);
        assert((head + tail).drop_last() =~= head + tail.drop_last());
    }
}

} // verus!
