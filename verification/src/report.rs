//! The report of a packing: one line of text for each thing that happened.

use vstd::prelude::*;
use vstd::string::StringExecFns;
use crate::decimal::Decimal;
use crate::number::{append_natural, digit_str, digit_text, natural_text};
use crate::packing::{event_views, PackEvent, PackEventView};
use crate::text::line_views;

verus! {

/// A whole number in decimal digits, with `-` before a negative one.
pub open spec fn integer_text(n: int) -> Seq<char> {
    if n < 0 {
        "-"@ + natural_text(-n)
    } else {
        natural_text(n)
    }
}

/// A count of units, not negative, as a count of tenths: rounded to the
/// nearest tenth, and to the even one of two that are equally near.
pub open spec fn rounded_tenths(units: int) -> int {
    let tenths = units / 100_000;
    let rest = units % 100_000;
    if rest > 50_000 || (rest == 50_000 && tenths % 2 == 1) {
        tenths + 1
    } else {
        tenths
    }
}

/// A decimal of `units` units with one fractional digit. A negative
/// value keeps its sign even where it rounds to zero.
pub open spec fn one_decimal_text(units: int) -> Seq<char> {
    let tenths = rounded_tenths(
        if units < 0 {
            -units
        } else {
            units
        },
    );
    (if units < 0 {
        "-"@
    } else {
        Seq::empty()
    }) + natural_text(tenths / 10) + "."@ + digit_text(tenths % 10)
}

/// The line that announces a pack: `Pack Number: 3`.
pub open spec fn header_text(pack_number: int) -> Seq<char> {
    "Pack Number: "@ + natural_text(pack_number)
}

/// The line of a fill: id, length, number of pieces and weight of a piece,
/// with commas between them: `42,10.5,6,3.0`.
pub open spec fn item_text(id: Seq<char>, length: int, count: int, weight: int) -> Seq<char> {
    id + ","@ + one_decimal_text(length) + ","@ + integer_text(count) + ","@ + one_decimal_text(
        weight,
    )
}

/// The line that sums a pack up: `Pack Length: 10.5, Pack Weight: 18.0`.
pub open spec fn footer_text(weight: int, length: int) -> Seq<char> {
    "Pack Length: "@ + one_decimal_text(length) + ", Pack Weight: "@ + one_decimal_text(weight)
}

/// The lines that report one event. An empty line follows a summary.
pub open spec fn event_lines(event: PackEventView) -> Seq<Seq<char>> {
    match event {
        PackEventView::Header { pack_number } => seq![header_text(pack_number)],
        PackEventView::Fill { item_id, length, quantity_placed, unit_weight } => seq![
            item_text(item_id, length, quantity_placed, unit_weight),
        ],
        PackEventView::Summary { pack_number, total_weight, longest_item_length } => seq![
            footer_text(total_weight, longest_item_length),
            Seq::empty(),
        ],
    }
}

/// The lines that report the events, in their order.
pub open spec fn report_lines(events: Seq<PackEventView>) -> Seq<Seq<char>>
    decreases events.len(),
{
    if events.len() == 0 {
        Seq::empty()
    } else {
        report_lines(events.drop_last()) + event_lines(events.last())
    }
}

/// Writes `n` in decimal digits, with its sign where it is negative, behind `text`.
fn append_integer(text: &mut String, n: i32)
    ensures
        final(text)@ == old(text)@ + integer_text(n as int),
{
    if n < 0 {
        text.append("-");
        append_natural(text, (-(n as i64)) as u64);
    } else {
        append_natural(text, n as u64);
    }
}

/// Writes `value` with one fractional digit behind `text`.
fn append_one_decimal(text: &mut String, value: Decimal)
    ensures
        final(text)@ == old(text)@ + one_decimal_text(value@),
{
    let units: i64 = value.units();
    let magnitude: u64 = if units < 0 {
        (-units) as u64
    } else {
        units as u64
    };
    let whole_tenths: u64 = magnitude / 100_000;
    let rest: u64 = magnitude % 100_000;
    let tenths: u64 = if rest > 50_000 || (rest == 50_000 && whole_tenths % 2 == 1) {
        whole_tenths + 1
    } else {
        whole_tenths
    };
    if units < 0 {
        text.append("-");
    }
    append_natural(text, tenths / 10);
    text.append(".");
    text.append(digit_str(tenths % 10));
}

/// The line that announces the pack of number `pack_index`.
pub fn header_line(pack_index: usize) -> (line: String)
    ensures
        line@ == header_text(pack_index as int),
{
    let mut line = String::from_str("Pack Number: ");
    append_natural(&mut line, pack_index as u64);
    line
}

/// The line that reports `count` pieces of the batch `id`, each of the
/// length `length` and the weight `weight`.
pub fn item_line(id: &str, length: Decimal, count: i32, weight: Decimal) -> (line: String)
    ensures
        line@ == item_text(id@, length@, count as int, weight@),
{
    let mut line = String::from_str(id);
    line.append(",");
    append_one_decimal(&mut line, length);
    line.append(",");
    append_integer(&mut line, count);
    line.append(",");
    append_one_decimal(&mut line, weight);
    line
}

/// The line that sums up a closed pack of the weight `current_weight`
/// whose longest item has the length `pack_length`.
pub fn footer_line(current_weight: Decimal, pack_length: Decimal) -> (line: String)
    ensures
        line@ == footer_text(current_weight@, pack_length@),
{
    let mut line = String::from_str("Pack Length: ");
    append_one_decimal(&mut line, pack_length);
    line.append(", Pack Weight: ");
    append_one_decimal(&mut line, current_weight);
    line
}

/// The lines that report the events of a packing, in their order.
pub fn render_report(events: &Vec<PackEvent>) -> (lines: Vec<String>)
    ensures
        line_views(lines@) == report_lines(event_views(events@)),
{
    let ghost views = event_views(events@);
    let mut lines: Vec<String> = Vec::new();
    let mut index: usize = 0;
    while index < events.len()
        invariant
            index <= events.len(),
            views == event_views(events@),
            line_views(lines@) == report_lines(views.take(index as int)),
        decreases events.len() - index,
    {
        let ghost upto = views.take(index as int + 1);
        assert(upto.drop_last() =~= views.take(index as int));
        match &events[index] {
            PackEvent::Header { pack_number } => {
                let line = header_line(*pack_number);
                lines.push(line);
            },
            PackEvent::Fill { item_id, length, quantity_placed, unit_weight } => {
                let line = item_line(item_id.as_str(), *length, *quantity_placed, *unit_weight);
                lines.push(line);
            },
            PackEvent::Summary { pack_number, total_weight, longest_item_length } => {
                let line = footer_line(*total_weight, *longest_item_length);
                lines.push(line);
                lines.push(String::new());
            },
        }
        index = index + 1;
    }
    assert(views.take(index as int) =~= views);
    lines
}

} // verus!
