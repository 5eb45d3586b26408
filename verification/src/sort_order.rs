//! The order in which the batches of a manifest are packed, and its keywords.

use vstd::prelude::*;
use vstd::string::StringExecFns;
use crate::text::same_text;

verus! {

/// The error with which `strum` answers a text that names no variant.
#[verifier::external_type_specification]
#[verifier::external_body]
pub struct ExParseError(strum::ParseError);

/// The ways in which the batches can be ordered before they are packed.
#[derive(Clone, Copy, Debug, PartialEq, Eq, Structural)]
pub enum PackSortOrder {
    /// No order was given yet. A manifest without a header leaves this value.
    NotSet,
    /// The batches stay in the order of the manifest.
    Natural,
    /// The batches are ordered by rising length.
    ShortToLong,
    /// The batches are ordered by falling length.
    LongToShort,
}

/// The order that the keyword `s` names, if it names one. A keyword is
/// written in capitals, exactly as here.
pub open spec fn parsed_order(s: Seq<char>) -> Option<PackSortOrder> {
    if s == "NATURAL"@ {
        Some(PackSortOrder::Natural)
    } else if s == "SHORT_TO_LONG"@ {
        Some(PackSortOrder::ShortToLong)
    } else if s == "LONG_TO_SHORT"@ {
        Some(PackSortOrder::LongToShort)
    } else {
        None
    }
}

/// The keyword of an order. `NotSet` has none.
pub open spec fn keyword_of(order: PackSortOrder) -> Option<Seq<char>> {
    match order {
        PackSortOrder::NotSet => None,
        PackSortOrder::Natural => Some("NATURAL"@),
        PackSortOrder::ShortToLong => Some("SHORT_TO_LONG"@),
        PackSortOrder::LongToShort => Some("LONG_TO_SHORT"@),
    }
}

/// The value `strum::ParseError::VariantNotFound`, the only one that
/// `strum::ParseError` has. Nothing is claimed of it.
#[verifier::external_body]
fn variant_not_found() -> (error: strum::ParseError) {
    strum::ParseError::VariantNotFound
}

impl PackSortOrder {
    /// The order that the keyword `s` names. Any other text is an error:
    /// there is no match on a part of a keyword or in another case.
    pub fn from_str(s: &str) -> (order: Result<PackSortOrder, strum::ParseError>)
        ensures
            match parsed_order(s@) {
                Some(named) => order == Ok::<PackSortOrder, strum::ParseError>(named),
                None => order is Err,
            },
    {
        if same_text(s, "NATURAL") {
            Ok(PackSortOrder::Natural)
        } else if same_text(s, "SHORT_TO_LONG") {
            Ok(PackSortOrder::ShortToLong)
        } else if same_text(s, "LONG_TO_SHORT") {
            Ok(PackSortOrder::LongToShort)
        } else {
            Err(variant_not_found())
        }
    }

    /// The keyword of this order.
    pub fn to_string(&self) -> (text: String)
        requires
            *self != PackSortOrder::NotSet,
        ensures
            keyword_of(*self) == Some(text@),
    {
        match self {
            PackSortOrder::Natural => String::from_str("NATURAL"),
            PackSortOrder::ShortToLong => String::from_str("SHORT_TO_LONG"),
            _ => String::from_str("LONG_TO_SHORT"),
        }
    }

    /// The three keywords are different texts: each names its own order, and
    /// the keyword of the order that a text names is that text.
    pub proof fn lemma_keywords_round_trip()
        ensures
            forall|order: PackSortOrder|
                order != PackSortOrder::NotSet ==> parsed_order(
                    #[trigger] keyword_of(order).unwrap(),
                ) == Some(order),
            forall|s: Seq<char>|
                parsed_order(s) is Some ==> keyword_of(#[trigger] parsed_order(s).unwrap())
                    == Some(s),
    {
        reveal_strlit("NATURAL");
        reveal_strlit("SHORT_TO_LONG");
        reveal_strlit("LONG_TO_SHORT");
        assert("NATURAL"@.len() == 7);
        assert("SHORT_TO_LONG"@[0] == 'S');
    }
}

} // verus!
