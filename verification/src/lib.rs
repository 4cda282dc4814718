//! Structured access to DjVu XML, the OCR markup of scanned books.
//!
//! A document is read into tokens ([`xml`]), the tokens give events
//! ([`parser`], with [`coords`] and [`params`] for what the attributes
//! say), and the rich events give a book ([`builder`], [`types`]). A page
//! of a book is counted ([`features`]) and scored by decision forests
//! ([`forest`]); the fast events give the windows around numeric words
//! ([`window`]).
//!
//! Everything here is exact: counts are integers and ratios are pairs of
//! integers. What a caller makes of them in floating point is the caller's.

pub mod builder;
pub mod bytes;
pub mod coords;
pub mod decimal;
pub mod features;
pub mod forest;
pub mod names;
pub mod params;
pub mod parser;
pub mod text;
pub mod types;
pub mod window;
pub mod xml;

pub use crate::builder::{build_book, process_book};
pub use crate::names::trim_book;
pub use crate::parser::{parse_fast_xml, parse_rich_xml};
