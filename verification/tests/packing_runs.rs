use pack_planner::decimal::Decimal;
use pack_planner::manifest::{ItemTemplate, PackTemplate};
use pack_planner::packing::{
    maximum_number_of_items_to_add, pack_items, PackEvent, PackFailure, PackingRun,
};
use pack_planner::planner::{plan_packs, report_manifest, Report, ReportError};
use pack_planner::report::{footer_line, header_line, item_line, render_report};
use pack_planner::sort_order::PackSortOrder;

fn dec(text: &str) -> Decimal {
    Decimal::from_str(text).expect("the text is a decimal")
}

fn batch(id: &str, length: &str, count: i32, weight: &str) -> ItemTemplate {
    ItemTemplate { id: id.to_string(), length: dec(length), weight: dec(weight), count }
}

fn limits(order: PackSortOrder, pieces: i32, weight: &str) -> PackTemplate {
    PackTemplate { maximum_number_of_pieces: pieces, maximum_weight: dec(weight), sort_order: order }
}

fn fill(id: &str, length: &str, quantity: i32, weight: &str) -> PackEvent {
    PackEvent::Fill {
        item_id: id.to_string(),
        length: dec(length),
        quantity_placed: quantity,
        unit_weight: dec(weight),
    }
}

fn summary(pack_number: usize, weight: &str, longest: &str) -> PackEvent {
    PackEvent::Summary {
        pack_number,
        total_weight: dec(weight),
        longest_item_length: dec(longest),
    }
}

fn header(pack_number: usize) -> PackEvent {
    PackEvent::Header { pack_number }
}

fn manifest_lines(lines: &[&str]) -> Vec<String> {
    lines.iter().map(|line| line.to_string()).collect()
}

#[test]
fn room_is_bound_by_weight_when_weight_is_scarce() {
    let pack = limits(PackSortOrder::Natural, 10, "50");
    let item = batch("a", "1", 1, "5");
    assert_eq!(maximum_number_of_items_to_add(&pack, dec("30"), 5, &item), 4);
}

#[test]
fn room_is_bound_by_pieces_when_pieces_are_scarce() {
    let pack = limits(PackSortOrder::Natural, 10, "50");
    let item = batch("a", "1", 1, "5");
    assert_eq!(maximum_number_of_items_to_add(&pack, dec("20"), 9, &item), 1);
}

#[test]
fn room_rounds_the_quotient_down() {
    let pack = limits(PackSortOrder::Natural, 100, "20");
    let item = batch("a", "1", 1, "3");
    assert_eq!(maximum_number_of_items_to_add(&pack, dec("0"), 0, &item), 6);
    assert_eq!(maximum_number_of_items_to_add(&pack, dec("2.000001"), 0, &item), 5);
    assert_eq!(maximum_number_of_items_to_add(&pack, dec("2"), 0, &item), 6);
}

#[test]
fn room_is_negative_when_the_pack_is_over_its_weight() {
    let pack = limits(PackSortOrder::Natural, 100, "20");
    let item = batch("a", "1", 1, "3");
    // -7 / 3 rounded down is -3.
    assert_eq!(maximum_number_of_items_to_add(&pack, dec("27"), 0, &item), -3);
    assert_eq!(maximum_number_of_items_to_add(&pack, dec("26"), 0, &item), -2);
}

#[test]
fn room_for_a_weightless_item_is_the_piece_headroom() {
    let pack = limits(PackSortOrder::Natural, 10, "50");
    let item = batch("a", "1", 1, "0");
    assert_eq!(maximum_number_of_items_to_add(&pack, dec("0"), 0, &item), 10);
    assert_eq!(maximum_number_of_items_to_add(&pack, dec("50"), 3, &item), 7);
    assert_eq!(maximum_number_of_items_to_add(&pack, dec("60"), 3, &item), 7);
    assert_eq!(maximum_number_of_items_to_add(&pack, dec("0"), 12, &item), -2);
}

#[test]
fn room_with_negative_weights_rounds_down_too() {
    let pack = limits(PackSortOrder::Natural, 10, "-4");
    let item = batch("a", "1", 1, "-2");
    assert_eq!(maximum_number_of_items_to_add(&pack, dec("0"), 0, &item), 2);
    let odd = batch("a", "1", 1, "-3");
    // -4 / -3 = 1.33..., rounded down 1; 4 / -3 = -1.33..., rounded down -2.
    assert_eq!(maximum_number_of_items_to_add(&pack, dec("0"), 0, &odd), 1);
    assert_eq!(maximum_number_of_items_to_add(&pack, dec("-8"), 0, &odd), -2);
}

#[test]
fn a_batch_that_fits_into_the_first_pack_is_one_fill() {
    let pack = limits(PackSortOrder::Natural, 10, "20");
    let items = vec![batch("100", "10.5", 3, "3")];
    let run = pack_items(&items, &pack);
    assert_eq!(run, PackingRun { events: vec![fill("100", "10.5", 3, "3")], failure: None });
}

#[test]
fn a_batch_is_carried_over_pack_boundaries() {
    let pack = limits(PackSortOrder::Natural, 10, "20");
    let items = vec![batch("100", "10.5", 20, "3"), batch("110", "8", 15, "5")];
    let run = pack_items(&items, &pack);
    let expected = vec![
        fill("100", "10.5", 6, "3"),
        header(1),
        fill("100", "10.5", 6, "3"),
        summary(1, "18", "10.5"),
        header(2),
        fill("100", "10.5", 6, "3"),
        summary(2, "18", "10.5"),
        header(3),
        fill("100", "10.5", 2, "3"),
        fill("110", "8", 2, "5"),
        summary(3, "16", "10.5"),
        header(4),
        fill("110", "8", 4, "5"),
        summary(4, "20", "8"),
        header(5),
        fill("110", "8", 4, "5"),
        summary(5, "20", "8"),
        header(6),
        fill("110", "8", 4, "5"),
        summary(6, "20", "8"),
        header(7),
        fill("110", "8", 1, "5"),
    ];
    assert_eq!(run.events, expected);
    assert_eq!(run.failure, None);
}

#[test]
fn a_pack_that_a_batch_fills_exactly_is_closed_by_the_next_batch() {
    let pack = limits(PackSortOrder::Natural, 4, "100");
    let items = vec![batch("a", "1", 4, "1"), batch("b", "2", 4, "1"), batch("c", "3", 1, "1")];
    let run = pack_items(&items, &pack);
    let expected = vec![
        fill("a", "1", 4, "1"),
        header(1),
        fill("b", "2", 4, "1"),
        summary(1, "4", "2"),
        header(2),
        fill("c", "3", 1, "1"),
    ];
    assert_eq!(run.events, expected);
    assert_eq!(run.failure, None);
}

#[test]
fn a_pack_without_room_for_the_next_batch_is_closed_with_a_header() {
    let pack = limits(PackSortOrder::Natural, 10, "10");
    let items = vec![
        batch("a", "1", 1, "3"),
        batch("b", "2", 1, "8"),
        batch("c", "3", 1, "2"),
        batch("d", "4", 3, "3"),
    ];
    let run = pack_items(&items, &pack);
    let expected = vec![
        fill("a", "1", 1, "3"),
        header(1),
        fill("b", "2", 1, "8"),
        fill("c", "3", 1, "2"),
        summary(1, "10", "3"),
        header(2),
        fill("d", "4", 3, "3"),
    ];
    assert_eq!(run.events, expected);
    assert_eq!(run.failure, None);
}

#[test]
fn a_batch_that_is_too_heavy_stops_the_packing() {
    let pack = limits(PackSortOrder::Natural, 10, "20");
    let items = vec![
        batch("a", "1", 2, "3"),
        batch("heavy", "1", 1, "20.000001"),
        batch("b", "1", 2, "3"),
    ];
    let run = pack_items(&items, &pack);
    assert_eq!(run.events, vec![fill("a", "1", 2, "3")]);
    assert_eq!(run.failure, Some(PackFailure::ItemExceedsPackCapacity { item_index: 1 }));
}

#[test]
fn a_batch_as_heavy_as_the_limit_is_packed() {
    let pack = limits(PackSortOrder::Natural, 10, "20");
    let items = vec![batch("a", "1", 2, "20")];
    let run = pack_items(&items, &pack);
    let expected = vec![fill("a", "1", 1, "20"), header(1), fill("a", "1", 1, "20")];
    assert_eq!(run.events, expected);
    assert_eq!(run.failure, None);
}

#[test]
fn a_pack_without_pieces_has_no_room() {
    let pack = limits(PackSortOrder::Natural, 0, "20");
    let items = vec![batch("a", "1", 2, "3")];
    let run = pack_items(&items, &pack);
    assert_eq!(run.events, vec![]);
    assert_eq!(run.failure, Some(PackFailure::NoRoomInEmptyPack { item_index: 0 }));
}

#[test]
fn a_weightless_batch_is_bound_by_pieces_alone() {
    let pack = limits(PackSortOrder::Natural, 5, "20");
    let items = vec![batch("a", "1", 1, "10"), batch("air", "2", 9, "0"), batch("b", "1", 1, "1")];
    let run = pack_items(&items, &pack);
    let expected = vec![
        fill("a", "1", 1, "10"),
        fill("air", "2", 4, "0"),
        header(1),
        fill("air", "2", 5, "0"),
        summary(1, "0", "2"),
        header(2),
        fill("b", "1", 1, "1"),
    ];
    assert_eq!(run.events, expected);
    assert_eq!(run.failure, None);
}

#[test]
fn a_batch_of_negative_weight_has_no_room_in_a_pack_of_positive_weight() {
    let pack = limits(PackSortOrder::Natural, 5, "20");
    let items = vec![batch("a", "1", 2, "3"), batch("lift", "1", 1, "-1")];
    let run = pack_items(&items, &pack);
    assert_eq!(run.events, vec![fill("a", "1", 2, "3")]);
    assert_eq!(run.failure, Some(PackFailure::NoRoomInEmptyPack { item_index: 1 }));
}

#[test]
fn a_batch_without_pieces_is_passed_over() {
    let pack = limits(PackSortOrder::Natural, 0, "20");
    let items = vec![batch("none", "1", 0, "3"), batch("less", "1", -4, "0")];
    let run = pack_items(&items, &pack);
    assert_eq!(run, PackingRun { events: vec![], failure: None });
}

#[test]
fn no_batches_give_no_events() {
    let pack = limits(PackSortOrder::Natural, 10, "20");
    let run = pack_items(&Vec::new(), &pack);
    assert_eq!(run, PackingRun { events: vec![], failure: None });
}

#[test]
fn planning_orders_the_batches_before_packing() {
    let pack = limits(PackSortOrder::LongToShort, 10, "100");
    let items = vec![batch("short", "1", 1, "1"), batch("long", "9", 1, "1")];
    let run = plan_packs(items, &pack);
    assert_eq!(run.events, vec![fill("long", "9", 1, "1"), fill("short", "1", 1, "1")]);
}

#[test]
fn lines_of_a_report_have_one_fractional_digit() {
    assert_eq!(header_line(12), "Pack Number: 12");
    assert_eq!(item_line("100", dec("10.5"), 6, dec("3")), "100,10.5,6,3.0");
    assert_eq!(footer_line(dec("18"), dec("10.5")), "Pack Length: 10.5, Pack Weight: 18.0");
    assert_eq!(item_line("x", dec("0.25"), -3, dec("0.35")), "x,0.2,-3,0.4");
    assert_eq!(item_line("x", dec("0.75"), 0, dec("0.849999")), "x,0.8,0,0.8");
    assert_eq!(item_line("x", dec("99.95"), 7, dec("-0.04")), "x,100.0,7,-0.0");
    assert_eq!(item_line("", dec("1234567.05"), 2147483647, dec("-12.06")), ",1234567.0,2147483647,-12.1");
    assert_eq!(item_line("x", dec("0"), -2147483648, dec("0.05")), "x,0.0,-2147483648,0.0");
}

#[test]
fn a_summary_is_followed_by_an_empty_line() {
    let events = vec![header(3), fill("a b", "2", 1, "1.5"), summary(3, "1.5", "2")];
    assert_eq!(
        render_report(&events),
        vec!["Pack Number: 3", "a b,2.0,1,1.5", "Pack Length: 2.0, Pack Weight: 1.5", ""]
    );
}

#[test]
fn a_manifest_is_reported_line_by_line() {
    let lines = manifest_lines(&["NATURAL,10,20.0", "100,10.5,20,3.0", "110,8.0,15,5.0"]);
    let report = report_manifest(&lines).expect("the manifest is sound");
    let expected = vec![
        "100,10.5,6,3.0",
        "Pack Number: 1",
        "100,10.5,6,3.0",
        "Pack Length: 10.5, Pack Weight: 18.0",
        "",
        "Pack Number: 2",
        "100,10.5,6,3.0",
        "Pack Length: 10.5, Pack Weight: 18.0",
        "",
        "Pack Number: 3",
        "100,10.5,2,3.0",
        "110,8.0,2,5.0",
        "Pack Length: 10.5, Pack Weight: 16.0",
        "",
        "Pack Number: 4",
        "110,8.0,4,5.0",
        "Pack Length: 8.0, Pack Weight: 20.0",
        "",
        "Pack Number: 5",
        "110,8.0,4,5.0",
        "Pack Length: 8.0, Pack Weight: 20.0",
        "",
        "Pack Number: 6",
        "110,8.0,4,5.0",
        "Pack Length: 8.0, Pack Weight: 20.0",
        "",
        "Pack Number: 7",
        "110,8.0,1,5.0",
    ];
    assert_eq!(report.lines, expected);
    assert_eq!(report.failure, None);
}

#[test]
fn the_same_manifest_gives_the_same_report() {
    let lines = manifest_lines(&["SHORT_TO_LONG,3,7.5", "1,4,5,1.25", "2,2,4,2.5", "3,4,1,7.5"]);
    let first = report_manifest(&lines);
    let second = report_manifest(&lines);
    assert!(first.is_ok());
    assert_eq!(first, second);
}

#[test]
fn a_manifest_without_pack_information_has_no_report() {
    let lines = manifest_lines(&["100,10.5,20,3.0"]);
    assert_eq!(report_manifest(&lines), Err(ReportError::SortOrderNotSet));
}

#[test]
fn a_manifest_at_fault_has_no_report() {
    let lines = manifest_lines(&["NATURAL,10,20.0", "100,10.5,20"]);
    let report = report_manifest(&lines);
    assert!(matches!(report, Err(ReportError::Manifest(_))));
}

#[test]
fn a_report_ends_where_the_packing_stopped() {
    let lines = manifest_lines(&["NATURAL,10,20.0", "1,1,2,3", "2,1,1,21", "3,1,1,1"]);
    let report = report_manifest(&lines).expect("the manifest is sound");
    assert_eq!(
        report,
        Report {
            lines: vec!["1,1.0,2,3.0".to_string()],
            failure: Some(PackFailure::ItemExceedsPackCapacity { item_index: 1 }),
        }
    );
}

#[test]
fn every_piece_is_placed_once_and_no_pack_passes_its_limits() {
    let pack = limits(PackSortOrder::ShortToLong, 7, "12.5");
    let items = vec![
        batch("a", "3", 23, "1.1"),
        batch("b", "1", 40, "0.3"),
        batch("c", "2", 5, "12.5"),
        batch("d", "2", 0, "1"),
        batch("e", "5", 11, "0"),
        batch("f", "4", 9, "6.25"),
    ];
    let wanted: i64 = items.iter().map(|item| item.count.max(0) as i64).sum();
    let run = plan_packs(items, &pack);
    assert_eq!(run.failure, None);
    let mut placed: i64 = 0;
    let mut weight: i64 = 0;
    let mut pieces: i64 = 0;
    let mut longest: i64 = 0;
    let mut number: usize = 0;
    let mut lengths: Vec<i64> = Vec::new();
    for event in &run.events {
        match event {
            PackEvent::Fill { quantity_placed, unit_weight, length, .. } => {
                assert!(*quantity_placed > 0);
                placed += *quantity_placed as i64;
                pieces += *quantity_placed as i64;
                weight += *quantity_placed as i64 * unit_weight.units();
                longest = longest.max(length.units());
                lengths.push(length.units());
                assert!(pieces <= 7);
                assert!(weight <= 12_500_000);
            }
            PackEvent::Summary { pack_number, total_weight, longest_item_length } => {
                assert!(*pack_number >= 1);
                assert_eq!(*pack_number, number);
                assert_eq!(total_weight.units(), weight);
                assert_eq!(longest_item_length.units(), longest);
            }
            PackEvent::Header { pack_number } => {
                assert_eq!(*pack_number, number + 1);
                number = *pack_number;
                pieces = 0;
                weight = 0;
                longest = 0;
            }
        }
    }
    assert_eq!(placed, wanted);
    assert!(lengths.windows(2).all(|pair| pair[0] <= pair[1]));
    assert!(!matches!(run.events.last(), Some(PackEvent::Summary { .. })));
}

#[test]
fn a_full_pack_is_closed_when_the_next_piece_comes() {
    let pack = limits(PackSortOrder::Natural, 2, "10");
    let items = vec![batch("A", "1", 2, "1"), batch("B", "1", 2, "1")];
    let run = pack_items(&items, &pack);
    assert_eq!(run.events, vec![fill("A", "1", 2, "1"), header(1), fill("B", "1", 2, "1")]);
    assert_eq!(run.failure, None);
}

#[test]
fn headers_count_the_packs_one_by_one() {
    let pack = limits(PackSortOrder::Natural, 2, "10");
    let items = vec![batch("A", "1", 4, "1"), batch("B", "2", 4, "1")];
    let run = pack_items(&items, &pack);
    let expected = vec![
        fill("A", "1", 2, "1"),
        header(1),
        fill("A", "1", 2, "1"),
        summary(1, "2", "1"),
        header(2),
        fill("B", "2", 2, "1"),
        summary(2, "2", "2"),
        header(3),
        fill("B", "2", 2, "1"),
    ];
    assert_eq!(run.events, expected);
    assert_eq!(run.failure, None);
}

#[test]
fn numbers_of_a_report_read_back() {
    for number in [0usize, 7, 10, 99, 100, 101, 4096, 1_000_000, usize::MAX] {
        let line = header_line(number);
        let digits = line.strip_prefix("Pack Number: ").expect("the line is a header");
        assert_eq!(digits.parse::<usize>(), Ok(number));
        assert_eq!(line, format!("Pack Number: {number}"));
    }
}

#[test]
fn tenths_are_rounded_to_the_nearest_and_to_the_even_of_two() {
    let cases = [
        ("0", "0.0"),
        ("0.04", "0.0"),
        ("0.05", "0.0"),
        ("0.050001", "0.1"),
        ("0.15", "0.2"),
        ("0.25", "0.2"),
        ("0.35", "0.4"),
        ("0.949999", "0.9"),
        ("0.95", "1.0"),
        ("9.95", "10.0"),
        ("12.3", "12.3"),
        ("-0.25", "-0.2"),
        ("-0.75", "-0.8"),
        ("-7", "-7.0"),
        ("1000000000000", "1000000000000.0"),
    ];
    for (value, text) in cases {
        assert_eq!(footer_line(dec(value), dec(value)), format!("Pack Length: {text}, Pack Weight: {text}"));
    }
}
