//! What can be wrong with the lines of a manifest.

use vstd::prelude::*;
use vstd::string::StringExecFns;
use crate::number::{append_natural, natural_text, NumberError};

verus! {

/// Why a manifest could not be read. Every error names the line at fault;
/// one about a single property also gives the text of that property and the
/// reason why it is not the value that was expected.
#[derive(Debug, PartialEq)]
pub enum Error {
    /// A line starts neither with a digit nor with one of the keywords
    /// `NATURAL`, `SHORT_TO_LONG`, `LONG_TO_SHORT`.
    InputStringShouldStartWithNumberOrKeyWord { input: String },
    /// A line holds pack information although it is not the first line.
    /// `current_line_index` counts the lines before it.
    InputContainsDuplicatePackInformation { current_line: String, current_line_index: usize },
    /// A line of pack information does not have three properties.
    InvalidNumberOfPropertiesForPacks { input: String, property_count: usize },
    /// The sort order of the packs is none of the three keywords.
    InvalidPackSortOrder { input: String, property_value: String, source: strum::ParseError },
    /// The number of pieces in a pack is no whole number.
    InvalidPackItemCount { input: String, property_value: String, source: NumberError },
    /// The weight of a pack is no decimal.
    InvalidPackWeight { input: String, property_value: String, source: NumberError },
    /// A line of item information does not have four properties.
    InvalidNumberOfPropertiesForItem { input: String, property_count: usize },
    /// The length of an item is no decimal.
    InvalidItemLength { input: String, property_value: String, source: NumberError },
    /// The weight of an item is no decimal.
    InvalidItemWeight { input: String, property_value: String, source: NumberError },
    /// The number of items in a batch is no whole number.
    InvalidItemCount { input: String, property_value: String, source: NumberError },
}

/// The mathematical content of an [`Error`]: its texts as sequences of
/// characters.
pub enum ErrorView {
    InputStringShouldStartWithNumberOrKeyWord { input: Seq<char> },
    InputContainsDuplicatePackInformation { current_line: Seq<char>, current_line_index: int },
    InvalidNumberOfPropertiesForPacks { input: Seq<char>, property_count: int },
    InvalidPackSortOrder { input: Seq<char>, property_value: Seq<char> },
    InvalidPackItemCount { input: Seq<char>, property_value: Seq<char>, source: NumberError },
    InvalidPackWeight { input: Seq<char>, property_value: Seq<char>, source: NumberError },
    InvalidNumberOfPropertiesForItem { input: Seq<char>, property_count: int },
    InvalidItemLength { input: Seq<char>, property_value: Seq<char>, source: NumberError },
    InvalidItemWeight { input: Seq<char>, property_value: Seq<char>, source: NumberError },
    InvalidItemCount { input: Seq<char>, property_value: Seq<char>, source: NumberError },
}

impl View for Error {
    type V = ErrorView;

    open spec fn view(&self) -> ErrorView {
        match *self {
            Error::InputStringShouldStartWithNumberOrKeyWord { input } => {
                ErrorView::InputStringShouldStartWithNumberOrKeyWord { input: input@ }
            },
            Error::InputContainsDuplicatePackInformation { current_line, current_line_index } => {
                ErrorView::InputContainsDuplicatePackInformation {
                    current_line: current_line@,
                    current_line_index: current_line_index as int,
                }
            },
            Error::InvalidNumberOfPropertiesForPacks { input, property_count } => {
                ErrorView::InvalidNumberOfPropertiesForPacks {
                    input: input@,
                    property_count: property_count as int,
                }
            },
            Error::InvalidPackSortOrder { input, property_value, source } => {
                ErrorView::InvalidPackSortOrder { input: input@, property_value: property_value@ }
            },
            Error::InvalidPackItemCount { input, property_value, source } => {
                ErrorView::InvalidPackItemCount {
                    input: input@,
                    property_value: property_value@,
                    source,
                }
            },
            Error::InvalidPackWeight { input, property_value, source } => {
                ErrorView::InvalidPackWeight {
                    input: input@,
                    property_value: property_value@,
                    source,
                }
            },
            Error::InvalidNumberOfPropertiesForItem { input, property_count } => {
                ErrorView::InvalidNumberOfPropertiesForItem {
                    input: input@,
                    property_count: property_count as int,
                }
            },
            Error::InvalidItemLength { input, property_value, source } => {
                ErrorView::InvalidItemLength {
                    input: input@,
                    property_value: property_value@,
                    source,
                }
            },
            Error::InvalidItemWeight { input, property_value, source } => {
                ErrorView::InvalidItemWeight {
                    input: input@,
                    property_value: property_value@,
                    source,
                }
            },
            Error::InvalidItemCount { input, property_value, source } => {
                ErrorView::InvalidItemCount {
                    input: input@,
                    property_value: property_value@,
                    source,
                }
            },
        }
    }
}

/// What `core::fmt::Debug` writes for the text `text`: the text between
/// double quotes, with escapes where the standard library sets them.
pub uninterp spec fn debug_quoted(text: Seq<char>) -> Seq<char>;

/// `core::fmt::Debug` for `str`, as `format!` with `{:?}` calls it. The
/// result depends on the text alone; no more is claimed of it.
#[verifier::external_body]
fn quote(text: &str) -> (quoted: String)
    ensures
        quoted@ == debug_quoted(text@),
{
    format!("{:?}", text)
}

/// The line that an error names.
pub open spec fn line_of(error: ErrorView) -> Seq<char> {
    match error {
        ErrorView::InputStringShouldStartWithNumberOrKeyWord { input } => input,
        ErrorView::InputContainsDuplicatePackInformation { current_line, .. } => current_line,
        ErrorView::InvalidNumberOfPropertiesForPacks { input, .. } => input,
        ErrorView::InvalidPackSortOrder { input, .. } => input,
        ErrorView::InvalidPackItemCount { input, .. } => input,
        ErrorView::InvalidPackWeight { input, .. } => input,
        ErrorView::InvalidNumberOfPropertiesForItem { input, .. } => input,
        ErrorView::InvalidItemLength { input, .. } => input,
        ErrorView::InvalidItemWeight { input, .. } => input,
        ErrorView::InvalidItemCount { input, .. } => input,
    }
}

/// The text of the property that an error names, empty where it names none.
pub open spec fn value_of(error: ErrorView) -> Seq<char> {
    match error {
        ErrorView::InvalidPackSortOrder { property_value, .. } => property_value,
        ErrorView::InvalidPackItemCount { property_value, .. } => property_value,
        ErrorView::InvalidPackWeight { property_value, .. } => property_value,
        ErrorView::InvalidItemLength { property_value, .. } => property_value,
        ErrorView::InvalidItemWeight { property_value, .. } => property_value,
        ErrorView::InvalidItemCount { property_value, .. } => property_value,
        _ => Seq::empty(),
    }
}

/// A message about a line: the quoted line, what is wrong with it, the detail
/// that shows it, and what was expected.
pub open spec fn composed(
    line: Seq<char>,
    fault: Seq<char>,
    detail: Seq<char>,
    expected: Seq<char>,
) -> Seq<char> {
    "The provided input string "@ + line + fault + detail + expected
}

/// The message of an error, with the line it names and the property it
/// names already quoted. A count or an index is written in decimal digits.
pub open spec fn message_text(error: ErrorView, line: Seq<char>, value: Seq<char>) -> Seq<char> {
    match error {
        ErrorView::InputStringShouldStartWithNumberOrKeyWord { .. } => composed(
            line,
            " was not valid. Expected the string to start with a number or one of [NATURAL, SHORT_TO_LONG, LONG_TO_SHORT]."@,
            ""@,
            ""@,
        ),
        ErrorView::InputContainsDuplicatePackInformation { current_line_index, .. } => composed(
            line,
            " contains pack information, but this line is not the first line of the input stream. It is the "@,
            natural_text(current_line_index),
            " line. This means there is duplicate header information."@,
        ),
        ErrorView::InvalidNumberOfPropertiesForPacks { property_count, .. } => composed(
            line,
            " contains too few or too many property values. Expecting 3 values, but got "@,
            natural_text(property_count),
            ""@,
        ),
        ErrorView::InvalidPackSortOrder { .. } => composed(
            line,
            " contains an invalid value for the sort order of a pack: "@,
            value,
            ". Expected one of [NATURAL, SHORT_TO_LONG, LONG_TO_SHORT]."@,
        ),
        ErrorView::InvalidPackItemCount { .. } => composed(
            line,
            " contains an invalid value for the number of the items in a pack: "@,
            value,
            ". Expected a positive integer number."@,
        ),
        ErrorView::InvalidPackWeight { .. } => composed(
            line,
            " contains an invalid value for the weight of a pack: "@,
            value,
            ". Expected a positive floating point number."@,
        ),
        ErrorView::InvalidNumberOfPropertiesForItem { property_count, .. } => composed(
            line,
            " contains too few or too many property values. Expecting 4 values, but got "@,
            natural_text(property_count),
            ""@,
        ),
        ErrorView::InvalidItemLength { .. } => composed(
            line,
            " contains an invalid value for the length of the item: "@,
            value,
            ". Expected a positive floating point number."@,
        ),
        ErrorView::InvalidItemWeight { .. } => composed(
            line,
            " contains an invalid value for the weight of the item: "@,
            value,
            ". Expected a positive floating point number."@,
        ),
        ErrorView::InvalidItemCount { .. } => composed(
            line,
            " contains an invalid value for the number of the items: "@,
            value,
            ". Expected a positive integer number."@,
        ),
    }
}

/// Puts a message about a line together.
fn compose(line: &str, fault: &str, detail: &str, expected: &str) -> (message: String)
    ensures
        message@ == composed(line@, fault@, detail@, expected@),
{
    let mut message = String::from_str("The provided input string ");
    message.append(line);
    message.append(fault);
    message.append(detail);
    message.append(expected);
    message
}

/// Puts a message together that ends with a count or an index.
fn compose_counted(line: &str, fault: &str, count: usize, expected: &str) -> (message: String)
    ensures
        message@ == composed(line@, fault@, natural_text(count as int), expected@),
{
    let mut digits = String::new();
    append_natural(&mut digits, count as u64);
    assert(digits@ =~= natural_text(count as int));
    compose(line, fault, digits.as_str(), expected)
}

impl Error {
    /// The message of this error, where `line` is the line that it names and
    /// `value` the property that it names, both as they shall stand in the
    /// message, quotes and all.
    pub fn message_with(&self, line: &str, value: &str) -> (message: String)
        ensures
            message@ == message_text(self@, line@, value@),
    {
        match self {
            Error::InputStringShouldStartWithNumberOrKeyWord { .. } => compose(
                line,
                " was not valid. Expected the string to start with a number or one of [NATURAL, SHORT_TO_LONG, LONG_TO_SHORT].",
                "",
                "",
            ),
            Error::InputContainsDuplicatePackInformation { current_line_index, .. } => {
                compose_counted(
                    line,
                    " contains pack information, but this line is not the first line of the input stream. It is the ",
                    *current_line_index,
                    " line. This means there is duplicate header information.",
                )
            },
            Error::InvalidNumberOfPropertiesForPacks { property_count, .. } => compose_counted(
                line,
                " contains too few or too many property values. Expecting 3 values, but got ",
                *property_count,
                "",
            ),
            Error::InvalidPackSortOrder { .. } => compose(
                line,
                " contains an invalid value for the sort order of a pack: ",
                value,
                ". Expected one of [NATURAL, SHORT_TO_LONG, LONG_TO_SHORT].",
            ),
            Error::InvalidPackItemCount { .. } => compose(
                line,
                " contains an invalid value for the number of the items in a pack: ",
                value,
                ". Expected a positive integer number.",
            ),
            Error::InvalidPackWeight { .. } => compose(
                line,
                " contains an invalid value for the weight of a pack: ",
                value,
                ". Expected a positive floating point number.",
            ),
            Error::InvalidNumberOfPropertiesForItem { property_count, .. } => compose_counted(
                line,
                " contains too few or too many property values. Expecting 4 values, but got ",
                *property_count,
                "",
            ),
            Error::InvalidItemLength { .. } => compose(
                line,
                " contains an invalid value for the length of the item: ",
                value,
                ". Expected a positive floating point number.",
            ),
            Error::InvalidItemWeight { .. } => compose(
                line,
                " contains an invalid value for the weight of the item: ",
                value,
                ". Expected a positive floating point number.",
            ),
            Error::InvalidItemCount { .. } => compose(
                line,
                " contains an invalid value for the number of the items: ",
                value,
                ". Expected a positive integer number.",
            ),
        }
    }

    /// The message of this error. The line and the property that it names
    /// stand in the message as `Debug` writes them.
    pub fn message(&self) -> (message: String)
        ensures
            message@ == message_text(
                self@,
                debug_quoted(line_of(self@)),
                debug_quoted(value_of(self@)),
            ),
    {
        let (line, value): (String, String) = match self {
            Error::InputStringShouldStartWithNumberOrKeyWord { input } => (
                quote(input.as_str()),
                quote(""),
            ),
            Error::InputContainsDuplicatePackInformation { current_line, .. } => (
                quote(current_line.as_str()),
                quote(""),
            ),
            Error::InvalidNumberOfPropertiesForPacks { input, .. } => (
                quote(input.as_str()),
                quote(""),
            ),
            Error::InvalidPackSortOrder { input, property_value, .. } => (
                quote(input.as_str()),
                quote(property_value.as_str()),
            ),
            Error::InvalidPackItemCount { input, property_value, .. } => (
                quote(input.as_str()),
                quote(property_value.as_str()),
            ),
            Error::InvalidPackWeight { input, property_value, .. } => (
                quote(input.as_str()),
                quote(property_value.as_str()),
            ),
            Error::InvalidNumberOfPropertiesForItem { input, .. } => (
                quote(input.as_str()),
                quote(""),
            ),
            Error::InvalidItemLength { input, property_value, .. } => (
                quote(input.as_str()),
                quote(property_value.as_str()),
            ),
            Error::InvalidItemWeight { input, property_value, .. } => (
                quote(input.as_str()),
                quote(property_value.as_str()),
            ),
            Error::InvalidItemCount { input, property_value, .. } => (
                quote(input.as_str()),
                quote(property_value.as_str()),
            ),
        };
        self.message_with(line.as_str(), value.as_str())
    }
}

} // verus!
