//! The records of a manifest: the pack constraints and the item batches.

use vstd::prelude::*;
use crate::decimal::{lemma_decimal_text_has_no_comma, parsed_decimal, Decimal};
use crate::error::{Error, ErrorView};
use crate::number::{lemma_integer_text_has_no_comma, parse_i32, parsed_i32};
use crate::sort_order::{keyword_of, parsed_order, PackSortOrder};
use crate::text::{joined, lemma_split_on_joined, split_fields, split_on};

verus! {

/// A batch of identical items: `count` pieces of the same id, length and weight.
#[derive(Clone, Debug, PartialEq)]
pub struct ItemTemplate {
    pub id: String,
    pub length: Decimal,
    pub weight: Decimal,
    pub count: i32,
}

/// The mathematical content of an [`ItemTemplate`]: lengths and weights in units.
pub struct ItemView {
    pub id: Seq<char>,
    pub length: int,
    pub weight: int,
    pub count: int,
}

impl View for ItemTemplate {
    type V = ItemView;

    open spec fn view(&self) -> ItemView {
        ItemView {
            id: self.id@,
            length: self.length@,
            weight: self.weight@,
            count: self.count as int,
        }
    }
}

/// What reading `line` as a batch of items gives. A batch has four
/// properties, in this order: id, length, count and weight. The id is taken as
/// it stands. Of several properties at fault the first is reported.
pub open spec fn parsed_item(line: Seq<char>) -> Result<ItemView, ErrorView> {
    let fields = split_on(line, ',');
    if fields.len() != 4 {
        Err(
            ErrorView::InvalidNumberOfPropertiesForItem {
                input: line,
                property_count: fields.len() as int,
            },
        )
    } else {
        match parsed_decimal(fields[1]) {
            Err(source) => Err(
                ErrorView::InvalidItemLength { input: line, property_value: fields[1], source },
            ),
            Ok(length) => match parsed_i32(fields[2]) {
                Err(source) => Err(
                    ErrorView::InvalidItemCount { input: line, property_value: fields[2], source },
                ),
                Ok(count) => match parsed_decimal(fields[3]) {
                    Err(source) => Err(
                        ErrorView::InvalidItemWeight {
                            input: line,
                            property_value: fields[3],
                            source,
                        },
                    ),
                    Ok(weight) => Ok(
                        ItemView { id: fields[0], length, weight, count: count as int },
                    ),
                },
            },
        }
    }
}

impl ItemTemplate {
    /// Reads a batch of items from a line of the form `id,length,count,weight`.
    pub fn from_str(line: &str) -> (batch: Result<ItemTemplate, Error>)
        ensures
            match parsed_item(line@) {
                Ok(view) => batch matches Ok(item) && item@ == view,
                Err(view) => batch matches Err(error) && error@ == view,
            },
    {
        let parts = split_fields(line, ',');
        if parts.len() != 4 {
            return Err(
                Error::InvalidNumberOfPropertiesForItem {
                    input: line.to_owned(),
                    property_count: parts.len(),
                },
            );
        }
        let length = match Decimal::from_str(parts[1]) {
            Ok(value) => value,
            Err(source) => {
                return Err(
                    Error::InvalidItemLength {
                        input: line.to_owned(),
                        property_value: parts[1].to_owned(),
                        source,
                    },
                );
            },
        };
        let count = match parse_i32(parts[2]) {
            Ok(value) => value,
            Err(source) => {
                return Err(
                    Error::InvalidItemCount {
                        input: line.to_owned(),
                        property_value: parts[2].to_owned(),
                        source,
                    },
                );
            },
        };
        let weight = match Decimal::from_str(parts[3]) {
            Ok(value) => value,
            Err(source) => {
                return Err(
                    Error::InvalidItemWeight {
                        input: line.to_owned(),
                        property_value: parts[3].to_owned(),
                        source,
                    },
                );
            },
        };
        Ok(ItemTemplate { id: parts[0].to_owned(), length, weight, count })
    }
}

/// The views of a sequence of batches, in the same order.
pub open spec fn item_views(items: Seq<ItemTemplate>) -> Seq<ItemView> {
    items.map_values(|item: ItemTemplate| item@)
}

/// The limits that every pack obeys, and the order in which batches are packed.
#[derive(Clone, Copy, Debug, PartialEq)]
pub struct PackTemplate {
    pub maximum_number_of_pieces: i32,
    pub maximum_weight: Decimal,
    pub sort_order: PackSortOrder,
}

/// The mathematical content of a [`PackTemplate`]: the weight limit in units.
pub struct PackView {
    pub max_pieces: int,
    pub max_weight: int,
    pub order: PackSortOrder,
}

impl View for PackTemplate {
    type V = PackView;

    open spec fn view(&self) -> PackView {
        PackView {
            max_pieces: self.maximum_number_of_pieces as int,
            max_weight: self.maximum_weight@,
            order: self.sort_order,
        }
    }
}

/// What reading `line` as pack information gives. It has three properties,
/// in this order: sort order, number of pieces and weight. Of several
/// properties at fault the first is reported.
pub open spec fn parsed_pack(line: Seq<char>) -> Result<PackView, ErrorView> {
    let fields = split_on(line, ',');
    if fields.len() != 3 {
        Err(
            ErrorView::InvalidNumberOfPropertiesForPacks {
                input: line,
                property_count: fields.len() as int,
            },
        )
    } else {
        match parsed_order(fields[0]) {
            None => Err(ErrorView::InvalidPackSortOrder { input: line, property_value: fields[0] }),
            Some(order) => match parsed_i32(fields[1]) {
                Err(source) => Err(
                    ErrorView::InvalidPackItemCount {
                        input: line,
                        property_value: fields[1],
                        source,
                    },
                ),
                Ok(pieces) => match parsed_decimal(fields[2]) {
                    Err(source) => Err(
                        ErrorView::InvalidPackWeight {
                            input: line,
                            property_value: fields[2],
                            source,
                        },
                    ),
                    Ok(weight) => Ok(
                        PackView { max_pieces: pieces as int, max_weight: weight, order },
                    ),
                },
            },
        }
    }
}

impl PackTemplate {
    /// Takes the constraints from a line of the form `order,pieces,weight`.
    /// A line at fault leaves the constraints as they were.
    pub fn from_line(&mut self, s: &str) -> (outcome: Result<(), Error>)
        ensures
            match parsed_pack(s@) {
                Ok(view) => outcome is Ok && final(self)@ == view,
                Err(view) => outcome matches Err(error) && error@ == view && *final(self) == *old(
                    self,
                ),
            },
    {
        let parts = split_fields(s, ',');
        if parts.len() != 3 {
            return Err(
                Error::InvalidNumberOfPropertiesForPacks {
                    input: s.to_owned(),
                    property_count: parts.len(),
                },
            );
        }
        let pack_sort_order = match PackSortOrder::from_str(parts[0]) {
            Ok(order) => order,
            Err(source) => {
                return Err(
                    Error::InvalidPackSortOrder {
                        input: s.to_owned(),
                        property_value: parts[0].to_owned(),
                        source,
                    },
                );
            },
        };
        let maximum_number_of_items = match parse_i32(parts[1]) {
            Ok(value) => value,
            Err(source) => {
                return Err(
                    Error::InvalidPackItemCount {
                        input: s.to_owned(),
                        property_value: parts[1].to_owned(),
                        source,
                    },
                );
            },
        };
        let maximum_weight = match Decimal::from_str(parts[2]) {
            Ok(value) => value,
            Err(source) => {
                return Err(
                    Error::InvalidPackWeight {
                        input: s.to_owned(),
                        property_value: parts[2].to_owned(),
                        source,
                    },
                );
            },
        };
        self.maximum_number_of_pieces = maximum_number_of_items;
        self.maximum_weight = maximum_weight;
        self.sort_order = pack_sort_order;
        Ok(())
    }

    /// The constraints before any header was read: no pieces, no weight, no order.
    pub fn new() -> (pack: PackTemplate)
        ensures
            pack@ == (PackView { max_pieces: 0, max_weight: 0, order: PackSortOrder::NotSet }),
    {
        PackTemplate {
            maximum_number_of_pieces: 0,
            maximum_weight: Decimal::zero(),
            sort_order: PackSortOrder::NotSet,
        }
    }
}

/// A line with four properties, of which the length and the weight are
/// decimals and the count is a whole number, is always read as a batch: its
/// first property, whatever it holds, is the id, and the others are the values
/// that their texts stand for.
pub proof fn lemma_well_typed_item_is_read(line: Seq<char>)
    requires
        split_on(line, ',').len() == 4,
        parsed_decimal(split_on(line, ',')[1]) is Ok,
        parsed_i32(split_on(line, ',')[2]) is Ok,
        parsed_decimal(split_on(line, ',')[3]) is Ok,
    ensures
        parsed_item(line) == Ok::<ItemView, ErrorView>(
            ItemView {
                id: split_on(line, ',')[0],
                length: parsed_decimal(split_on(line, ',')[1])->Ok_0,
                weight: parsed_decimal(split_on(line, ',')[3])->Ok_0,
                count: parsed_i32(split_on(line, ',')[2])->Ok_0 as int,
            },
        ),
{
}

/// An id without a comma, followed by a length, a count and a weight that
/// are written as they should be, reads back as that very id with those
/// values, whatever else the id holds.
pub proof fn lemma_item_line_reads_back(
    id: Seq<char>,
    length: Seq<char>,
    count: Seq<char>,
    weight: Seq<char>,
)
    requires
        !id.contains(','),
        parsed_decimal(length) is Ok,
        parsed_i32(count) is Ok,
        parsed_decimal(weight) is Ok,
    ensures
        parsed_item(joined(seq![id, length, count, weight], ',')) == Ok::<ItemView, ErrorView>(
            ItemView {
                id,
                length: parsed_decimal(length)->Ok_0,
                weight: parsed_decimal(weight)->Ok_0,
                count: parsed_i32(count)->Ok_0 as int,
            },
        ),
{
    let fields = seq![id, length, count, weight];
    lemma_decimal_text_has_no_comma(length);
    lemma_integer_text_has_no_comma(count);
    lemma_decimal_text_has_no_comma(weight);
    lemma_split_on_joined(fields, ',');
}

/// The sort order of a line of pack information that was read is written
/// back as the keyword with which the line begins, one of the three.
pub proof fn lemma_pack_order_round_trip(line: Seq<char>)
    requires
        parsed_pack(line) is Ok,
    ensures
        keyword_of(parsed_pack(line)->Ok_0.order) == Some(split_on(line, ',')[0]),
        parsed_order(split_on(line, ',')[0]) == Some(parsed_pack(line)->Ok_0.order),
        parsed_pack(line)->Ok_0.order != PackSortOrder::NotSet,
{
    PackSortOrder::lemma_keywords_round_trip();
}

} // verus!
