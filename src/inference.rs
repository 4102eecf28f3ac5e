//! Classification of single cells and the widening of column types.

use vstd::prelude::*;

verus! {

/// The type shown for a column, ordered by generality:
/// `Unknown < Boolean < Int64 < Float64 < Utf8`.
#[derive(Debug, Clone, Copy, PartialEq, Eq, Structural)]
pub enum DataType {
    Utf8,
    Int64,
    Float64,
    Boolean,
    Unknown,
}

impl DataType {
    /// Position of the type in the widening lattice.
    pub open spec fn rank(self) -> nat {
        match self {
            DataType::Unknown => 0,
            DataType::Boolean => 1,
            DataType::Int64 => 2,
            DataType::Float64 => 3,
            DataType::Utf8 => 4,
        }
    }

    pub open spec fn label_spec(self) -> Seq<char> {
        match self {
            DataType::Boolean => "Boolean"@,
            DataType::Float64 => "Float"@,
            DataType::Int64 => "Int"@,
            DataType::Utf8 => "String"@,
            DataType::Unknown => "Unknown"@,
        }
    }

    pub fn level(&self) -> (r: u8)
        ensures
            r as nat == self.rank(),
    {
        match self {
            DataType::Unknown => 0,
            DataType::Boolean => 1,
            DataType::Int64 => 2,
            DataType::Float64 => 3,
            DataType::Utf8 => 4,
        }
    }

    /// The name under which the type is displayed.
    pub fn label(&self) -> (r: &'static str)
        ensures
            r@ == self.label_spec(),
    {
        match self {
            DataType::Boolean => "Boolean",
            DataType::Float64 => "Float",
            DataType::Int64 => "Int",
            DataType::Utf8 => "String",
            DataType::Unknown => "Unknown",
        }
    }
}

/// The least upper bound of two types in the widening lattice.
pub open spec fn wider(a: DataType, b: DataType) -> DataType {
    if a.rank() >= b.rank() {
        a
    } else {
        b
    }
}

/// Whether the regular expression `pattern` (case-insensitive when asked)
/// matches somewhere in `text`.
pub uninterp spec fn regex_match(pattern: Seq<char>, case_insensitive: bool, text: Seq<char>) -> bool;

pub const BOOLEAN_PATTERN: &'static str = r"^\s*(true|false)\s*$";

pub const FLOAT_PATTERN: &'static str = r"^\s*[-+]?(\d*\.\d+([eE][-+]?\d+)?|\d+[eE][-+]?\d+|inf|nan)$";

pub const INTEGER_PATTERN: &'static str = r"^\s*[-+]?\d+$";

/// The type of one cell, by the first rule that applies: empty text is
/// `Unknown`, then a boolean literal, then a float, then an integer, and any
/// other text is `Utf8`.
pub open spec fn classify_spec(text: Seq<char>) -> DataType {
    if text.len() == 0 {
        DataType::Unknown
    } else if regex_match(BOOLEAN_PATTERN@, true, text) {
        DataType::Boolean
    } else if regex_match(FLOAT_PATTERN@, true, text) {
        DataType::Float64
    } else if regex_match(INTEGER_PATTERN@, false, text) {
        DataType::Int64
    } else {
        DataType::Utf8
    }
}

/// Relies on regex::RegexBuilder::build and regex::Regex::is_match: the
/// answer depends on the pattern, the flag and the text alone. A pattern that
/// does not compile matches nothing.
#[verifier::external_body]
fn pattern_matches(pattern: &str, case_insensitive: bool, text: &str) -> (r: bool)
    ensures
        r == regex_match(pattern@, case_insensitive, text@),
{
    match regex::RegexBuilder::new(pattern).case_insensitive(case_insensitive).build() {
        Ok(re) => re.is_match(text),
        Err(_) => false,
    }
}

/// Classifies the text of one cell.
pub fn classify(text: &str) -> (r: DataType)
    ensures
        r == classify_spec(text@),
{
    if text.is_empty() {
        DataType::Unknown
    } else if pattern_matches(BOOLEAN_PATTERN, true, text) {
        DataType::Boolean
    } else if pattern_matches(FLOAT_PATTERN, true, text) {
        DataType::Float64
    } else if pattern_matches(INTEGER_PATTERN, false, text) {
        DataType::Int64
    } else {
        DataType::Utf8
    }
}

/// Folds one more observation into a column's current type.
pub fn widen(current: DataType, observed: DataType) -> (r: DataType)
    ensures
        r == wider(current, observed),
        r.rank() >= current.rank(),
        r.rank() >= observed.rank(),
{
    if current.level() >= observed.level() {
        current
    } else {
        observed
    }
}

} // verus!
