//! The attributes that carry the metadata of a page: the resolution in a
//! `PARAM` element, the dimensions on the page object itself.

use crate::bytes::{ascii_bytes, is_named, is_utf8};
use crate::decimal::{parse_u32, unsigned_decimal};
use crate::types::{RichDjVu, RichEvent};
use crate::xml::{attributes_model, AttributeModel, XmlAttribute};
use vstd::prelude::*;
use vstd::utf8::valid_utf8;

verus! {

/// The attributes that the metadata is read from.
#[derive(Debug, Copy, Clone, PartialEq, Eq, Structural)]
pub enum AttributeKey {
    Name,
    Value,
    Width,
    Height,
}

impl AttributeKey {
    /// The attribute's name in the markup.
    pub open spec fn text(self) -> Seq<char> {
        match self {
            AttributeKey::Name => "name"@,
            AttributeKey::Value => "value"@,
            AttributeKey::Width => "width"@,
            AttributeKey::Height => "height"@,
        }
    }

    /// The attribute's name in the markup.
    pub fn as_str(&self) -> (name: &'static str)
        ensures
            name@ == self.text(),
            name.is_ascii(),
    {
        proof {
            reveal_strlit("name");
            reveal_strlit("value");
            reveal_strlit("width");
            reveal_strlit("height");
        }
        match self {
            AttributeKey::Name => "name",
            AttributeKey::Value => "value",
            AttributeKey::Width => "width",
            AttributeKey::Height => "height",
        }
    }
}

/// Why an element yields no metadata.
#[derive(Debug, Copy, Clone, PartialEq, Eq, Structural)]
pub enum ParamError {
    /// The attribute's value is not UTF-8.
    BadUnicode,
    /// The attribute's value is not an unsigned 32-bit number.
    BadNumber,
    /// The element has no such attribute.
    Missing(AttributeKey),
}

impl ParamError {
    /// The diagnostic that stands for the error in an event stream.
    pub open spec fn text(self) -> Seq<char> {
        match self {
            ParamError::BadUnicode => "attribute value is not UTF-8"@,
            ParamError::BadNumber => "attribute value is not a number"@,
            ParamError::Missing(AttributeKey::Name) => "attribute name is missing"@,
            ParamError::Missing(AttributeKey::Value) => "attribute value is missing"@,
            ParamError::Missing(AttributeKey::Width) => "attribute width is missing"@,
            ParamError::Missing(AttributeKey::Height) => "attribute height is missing"@,
        }
    }

    /// The diagnostic that stands for the error in an event stream.
    pub fn message(&self) -> (text: String)
        ensures
            text@ == self.text(),
    {
        match self {
            ParamError::BadUnicode => "attribute value is not UTF-8".to_owned(),
            ParamError::BadNumber => "attribute value is not a number".to_owned(),
            ParamError::Missing(AttributeKey::Name) => "attribute name is missing".to_owned(),
            ParamError::Missing(AttributeKey::Value) => "attribute value is missing".to_owned(),
            ParamError::Missing(AttributeKey::Width) => "attribute width is missing".to_owned(),
            ParamError::Missing(AttributeKey::Height) => "attribute height is missing".to_owned(),
        }
    }
}

/// The value of the first well-formed attribute named `key`.
pub open spec fn find_attribute(attributes: Seq<Option<AttributeModel>>, key: Seq<u8>) -> Option<
    Seq<u8>,
>
    decreases attributes.len(),
{
    if attributes.len() == 0 {
        None
    } else if attributes[0] is Some && attributes[0]->0.key == key {
        Some(attributes[0]->0.value)
    } else {
        find_attribute(attributes.drop_first(), key)
    }
}

/// The value of the attribute `key`, which must be there and be UTF-8.
pub open spec fn attribute_text(attributes: Seq<Option<AttributeModel>>, key: AttributeKey) -> Result<
    Seq<u8>,
    ParamError,
> {
    match find_attribute(attributes, ascii_bytes(key.text())) {
        None => Err(ParamError::Missing(key)),
        Some(value) => if valid_utf8(value) {
            Ok(value)
        } else {
            Err(ParamError::BadUnicode)
        },
    }
}

/// The number that the attribute `key` holds.
pub open spec fn attribute_number(
    attributes: Seq<Option<AttributeModel>>,
    key: AttributeKey,
) -> Result<u32, ParamError> {
    match attribute_text(attributes, key) {
        Err(e) => Err(e),
        Ok(text) => match unsigned_decimal(text, 0xffff_ffff) {
            Some(v) => Ok(v as u32),
            None => Err(ParamError::BadNumber),
        },
    }
}

/// What a `PARAM` element says: the resolution where it is named `DPI`,
/// nothing where it has another name.
pub open spec fn param_event(attributes: Seq<Option<AttributeModel>>) -> Result<
    Option<RichEvent>,
    ParamError,
> {
    match attribute_text(attributes, AttributeKey::Name) {
        Err(e) => Err(e),
        Ok(name) => if name == ascii_bytes("DPI"@) {
            match attribute_number(attributes, AttributeKey::Value) {
                Err(e) => Err(e),
                Ok(dpi) => Ok(Some(RichEvent::PageDPI(dpi))),
            }
        } else {
            Ok(None)
        },
    }
}

/// What a page object says: its width and height.
pub open spec fn page_event(attributes: Seq<Option<AttributeModel>>) -> Result<
    Option<RichEvent>,
    ParamError,
> {
    match attribute_number(attributes, AttributeKey::Width) {
        Err(e) => Err(e),
        Ok(width) => match attribute_number(attributes, AttributeKey::Height) {
            Err(e) => Err(e),
            Ok(height) => Ok(Some(RichEvent::PageDimensions(width, height))),
        },
    }
}

/// The model of what an element says.
pub open spec fn outcome_model(outcome: Result<Option<RichDjVu>, ParamError>) -> Result<
    Option<RichEvent>,
    ParamError,
> {
    match outcome {
        Ok(Some(event)) => Ok(Some(event@)),
        Ok(None) => Ok(None),
        Err(e) => Err(e),
    }
}

/// The value of the first well-formed attribute named `key`.
pub(crate) fn find_value<'a>(attributes: &'a Vec<Option<XmlAttribute>>, key: &str) -> (value: Option<
    &'a Vec<u8>,
>)
    requires
        key.is_ascii(),
    ensures
        find_attribute(attributes_model(attributes@), ascii_bytes(key@)) == match value {
            Some(v) => Some(v@),
            None => None,
        },
{
    let ghost model = attributes_model(attributes@);
    let mut i: usize = 0;
    assert(model.skip(0) =~= model);
    while i < attributes.len()
        invariant
            i <= attributes@.len(),
            key.is_ascii(),
            model == attributes_model(attributes@),
            find_attribute(model, ascii_bytes(key@)) == find_attribute(
                model.skip(i as int),
                ascii_bytes(key@),
            ),
        decreases attributes@.len() - i,
    {
        assert(model.skip(i as int)[0] == model[i as int]);
        assert(model.skip(i as int).drop_first() =~= model.skip(i + 1));
        match &attributes[i] {
            Some(a) => {
                if is_named(a.key.as_slice(), key) {
                    return Some(&a.value);
                }
            },
            None => {},
        }
        i += 1;
    }
    None
}

/// The value of the attribute `key`, which must be there and be UTF-8.
pub fn get_attribute<'a>(attributes: &'a Vec<Option<XmlAttribute>>, key: AttributeKey) -> (value:
    Result<&'a Vec<u8>, ParamError>)
    ensures
        attribute_text(attributes_model(attributes@), key) == match value {
            Ok(v) => Ok::<Seq<u8>, ParamError>(v@),
            Err(e) => Err(e),
        },
{
    match find_value(attributes, key.as_str()) {
        None => Err(ParamError::Missing(key)),
        Some(v) => if is_utf8(v.as_slice()) {
            Ok(v)
        } else {
            Err(ParamError::BadUnicode)
        },
    }
}

/// The number that the attribute `key` holds.
pub fn get_number(attributes: &Vec<Option<XmlAttribute>>, key: AttributeKey) -> (value: Result<
    u32,
    ParamError,
>)
    ensures
        value == attribute_number(attributes_model(attributes@), key),
{
    match get_attribute(attributes, key) {
        Err(e) => Err(e),
        Ok(text) => match parse_u32(text.as_slice()) {
            Some(v) => Ok(v),
            None => Err(ParamError::BadNumber),
        },
    }
}

/// Reads a `PARAM` element.
pub fn process(attributes: &Vec<Option<XmlAttribute>>) -> (outcome: Result<
    Option<RichDjVu>,
    ParamError,
>)
    ensures
        outcome_model(outcome) == param_event(attributes_model(attributes@)),
{
    proof {
        reveal_strlit("DPI");
    }
    match get_attribute(attributes, AttributeKey::Name) {
        Err(e) => Err(e),
        Ok(name) => if is_named(name.as_slice(), "DPI") {
            match get_number(attributes, AttributeKey::Value) {
                Err(e) => Err(e),
                Ok(dpi) => Ok(Some(RichDjVu::PageDPI(dpi))),
            }
        } else {
            Ok(None)
        },
    }
}

/// Reads the start tag of a page object.
pub fn process_page(attributes: &Vec<Option<XmlAttribute>>) -> (outcome: Result<
    Option<RichDjVu>,
    ParamError,
>)
    ensures
        outcome_model(outcome) == page_event(attributes_model(attributes@)),
{
    match get_number(attributes, AttributeKey::Width) {
        Err(e) => Err(e),
        Ok(width) => match get_number(attributes, AttributeKey::Height) {
            Err(e) => Err(e),
            Ok(height) => Ok(Some(RichDjVu::PageDimensions(width, height))),
        },
    }
}

} // verus!
