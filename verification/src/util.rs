//! Byte classification and confidence levels.
use vstd::prelude::*;
use crate::cbor_tree::ConfidenceLevel;
use crate::config::{CONFIDENCE_HIGH, CONFIDENCE_LOW, CONFIDENCE_MEDIUM};
use crate::theme::Color;

verus! {

/// How a byte is coloured in the hex view.
#[derive(Debug, Clone, Copy, PartialEq, Eq)]
pub enum ByteType {
    Null,
    AsciiPrintable,
    AsciiWhitespace,
    AsciiOther,
    NonAscii,
}

/// ASCII whitespace as `u8::is_ascii_whitespace` defines it: space, tab,
/// line feed, form feed and carriage return.
pub open spec fn is_ascii_whitespace_byte(b: u8) -> bool {
    b == 0x20 || b == 0x09 || b == 0x0A || b == 0x0C || b == 0x0D
}

/// The class of a byte.
pub open spec fn byte_type_of(b: u8) -> ByteType {
    if b == 0 {
        ByteType::Null
    } else if 0x20 <= b <= 0x7E {
        ByteType::AsciiPrintable
    } else if is_ascii_whitespace_byte(b) {
        ByteType::AsciiWhitespace
    } else if b < 0x80 {
        ByteType::AsciiOther
    } else {
        ByteType::NonAscii
    }
}

pub fn get_byte_type(byte: u8) -> (r: ByteType)
    ensures
        r == byte_type_of(byte),
{
    if byte == 0x00 {
        ByteType::Null
    } else if (0x21 <= byte && byte <= 0x7E) || byte == 0x20 {
        ByteType::AsciiPrintable
    } else if byte == 0x20 || byte == 0x09 || byte == 0x0A || byte == 0x0C || byte == 0x0D {
        ByteType::AsciiWhitespace
    } else if byte < 0x80 {
        ByteType::AsciiOther
    } else {
        ByteType::NonAscii
    }
}

/// The confidence rating of a chunk score.
pub open spec fn confidence_of(score: int) -> ConfidenceLevel {
    if score >= CONFIDENCE_HIGH {
        ConfidenceLevel::Highest
    } else if score >= CONFIDENCE_MEDIUM {
        ConfidenceLevel::High
    } else if score >= CONFIDENCE_LOW {
        ConfidenceLevel::Low
    } else {
        ConfidenceLevel::Garbage
    }
}

pub fn get_confidence_level(score: usize) -> (r: ConfidenceLevel)
    ensures
        r == confidence_of(score as int),
{
    if score >= CONFIDENCE_HIGH {
        ConfidenceLevel::Highest
    } else if score >= CONFIDENCE_MEDIUM {
        ConfidenceLevel::High
    } else if score >= CONFIDENCE_LOW {
        ConfidenceLevel::Low
    } else {
        ConfidenceLevel::Garbage
    }
}


/// The colours that mark each confidence level.
#[derive(Debug, Clone, Copy, PartialEq, Eq, Structural)]
pub struct ConfidenceColors {
    pub highest: Color,
    pub high: Color,
    pub low: Color,
    pub garbage: Color,
}

/// The mark of a confidence level: a symbol and a space.
pub open spec fn confidence_symbol(level: ConfidenceLevel) -> Seq<char> {
    match level {
        ConfidenceLevel::Highest => seq!['\u{25CF}', ' '],
        ConfidenceLevel::High => seq!['\u{25CE}', ' '],
        ConfidenceLevel::Low => seq!['\u{25CB}', ' '],
        ConfidenceLevel::Garbage => seq!['\u{00D7}', ' '],
    }
}

/// The colour of a confidence level.
pub open spec fn confidence_color(level: ConfidenceLevel, colors: ConfidenceColors) -> Color {
    match level {
        ConfidenceLevel::Highest => colors.highest,
        ConfidenceLevel::High => colors.high,
        ConfidenceLevel::Low => colors.low,
        ConfidenceLevel::Garbage => colors.garbage,
    }
}

/// How a confidence level is shown: its symbol and its colour.
pub fn get_confidence_appearance(level: ConfidenceLevel, colors: &ConfidenceColors) -> (r: (String, Color))
    ensures
        r.0@ == confidence_symbol(level),
        r.1 == confidence_color(level, *colors),
{
    let mut s = String::new();
    let c = match level {
        ConfidenceLevel::Highest => {
            s.push('\u{25CF}');
            colors.highest
        },
        ConfidenceLevel::High => {
            s.push('\u{25CE}');
            colors.high
        },
        ConfidenceLevel::Low => {
            s.push('\u{25CB}');
            colors.low
        },
        ConfidenceLevel::Garbage => {
            s.push('\u{00D7}');
            colors.garbage
        },
    };
    s.push(' ');
    assert(s@ =~= confidence_symbol(level));
    (s, c)
}

} // verus!
