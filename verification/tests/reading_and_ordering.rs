use pack_planner::decimal::Decimal;
use pack_planner::error::Error;
use pack_planner::manifest::{ItemTemplate, PackTemplate};
use pack_planner::number::NumberError;
use pack_planner::ordering::order_items;
use pack_planner::reader::{parse_input, ManifestReader};
use pack_planner::sort_order::PackSortOrder;

fn decimal_of(text: &str) -> Decimal {
    Decimal::from_str(text).expect("the text is a decimal")
}

fn text_lines(lines: &[&str]) -> Vec<String> {
    lines.iter().map(|line| line.to_string()).collect()
}

fn item(id: &str, length: &str) -> ItemTemplate {
    ItemTemplate { id: id.to_string(), length: decimal_of(length), weight: decimal_of("1"), count: 1 }
}

fn ids(items: &[ItemTemplate]) -> Vec<&str> {
    items.iter().map(|item| item.id.as_str()).collect()
}

#[test]
fn an_item_keeps_its_id_as_it_stands() {
    let item = ItemTemplate::from_str(" a-b/c: d!? ,1.5,2,0.25").expect("the line is sound");
    assert_eq!(item.id, " a-b/c: d!? ");
    assert_eq!(item.length, decimal_of("1.5"));
    assert_eq!(item.count, 2);
    assert_eq!(item.weight, decimal_of("0.25"));
    let nameless = ItemTemplate::from_str(",0,-3,0").expect("the line is sound");
    assert_eq!(nameless, ItemTemplate { id: String::new(), length: decimal_of("0"), weight: decimal_of("0"), count: -3 });
}

#[test]
fn an_item_reads_count_before_weight() {
    let item = ItemTemplate::from_str("7,1,2,3").expect("the line is sound");
    assert_eq!(item.count, 2);
    assert_eq!(item.weight, decimal_of("3"));
    assert!(ItemTemplate::from_str("7,1,2.5,3").is_err());
    assert!(ItemTemplate::from_str("7,1,2,3.5").is_ok());
}

#[test]
fn the_first_property_at_fault_of_an_item_is_reported() {
    assert_eq!(
        ItemTemplate::from_str("item1,abc,x,y"),
        Err(Error::InvalidItemLength {
            input: "item1,abc,x,y".to_string(),
            property_value: "abc".to_string(),
            source: NumberError::InvalidDigit,
        })
    );
    assert_eq!(
        ItemTemplate::from_str("item1,10.5,,xyz"),
        Err(Error::InvalidItemCount {
            input: "item1,10.5,,xyz".to_string(),
            property_value: String::new(),
            source: NumberError::Empty,
        })
    );
    assert_eq!(
        ItemTemplate::from_str("item1,10.5,99999999999,xyz"),
        Err(Error::InvalidItemCount {
            input: "item1,10.5,99999999999,xyz".to_string(),
            property_value: "99999999999".to_string(),
            source: NumberError::OutOfRange,
        })
    );
    assert_eq!(
        ItemTemplate::from_str("item1,10.5,20,0.12345678"),
        Err(Error::InvalidItemWeight {
            input: "item1,10.5,20,0.12345678".to_string(),
            property_value: "0.12345678".to_string(),
            source: NumberError::TooPrecise,
        })
    );
}

#[test]
fn the_first_property_at_fault_of_a_pack_is_reported() {
    let mut pack = PackTemplate::new();
    assert_eq!(
        pack.from_line("natural,x,y"),
        Err(Error::InvalidPackSortOrder {
            input: "natural,x,y".to_string(),
            property_value: "natural".to_string(),
            source: strum::ParseError::VariantNotFound,
        })
    );
    assert_eq!(
        pack.from_line("SHORT_TO_LONG,1.5,y"),
        Err(Error::InvalidPackItemCount {
            input: "SHORT_TO_LONG,1.5,y".to_string(),
            property_value: "1.5".to_string(),
            source: NumberError::InvalidDigit,
        })
    );
    assert_eq!(
        pack.from_line("LONG_TO_SHORT,4,"),
        Err(Error::InvalidPackWeight {
            input: "LONG_TO_SHORT,4,".to_string(),
            property_value: String::new(),
            source: NumberError::Empty,
        })
    );
    assert_eq!(pack, PackTemplate::new());
}

#[test]
fn pack_information_takes_values_that_make_no_pack() {
    let mut pack = PackTemplate::new();
    assert_eq!(pack.from_line("LONG_TO_SHORT,-4,-0.5"), Ok(()));
    assert_eq!(
        pack,
        PackTemplate {
            maximum_number_of_pieces: -4,
            maximum_weight: decimal_of("-0.5"),
            sort_order: PackSortOrder::LongToShort,
        }
    );
}

#[test]
fn a_manifest_yields_its_constraints_and_batches_in_order() {
    let lines = text_lines(&["NATURAL,10,20.0", "100,10.5,20,3.0", "110,8.0,15,5.0"]);
    let (pack, items) = parse_input(&lines).expect("the manifest is sound");
    assert_eq!(
        pack,
        PackTemplate {
            maximum_number_of_pieces: 10,
            maximum_weight: decimal_of("20"),
            sort_order: PackSortOrder::Natural,
        }
    );
    assert_eq!(
        items,
        vec![
            ItemTemplate { id: "100".to_string(), length: decimal_of("10.5"), weight: decimal_of("3"), count: 20 },
            ItemTemplate { id: "110".to_string(), length: decimal_of("8"), weight: decimal_of("5"), count: 15 },
        ]
    );
}

#[test]
fn a_manifest_ends_at_its_first_empty_line() {
    let lines = text_lines(&["NATURAL,10,20.0", "1,1,1,1", "", "this is never read", "2,2,2,2"]);
    let (_, items) = parse_input(&lines).expect("the manifest is sound");
    assert_eq!(ids(&items), vec!["1"]);
    let nothing = parse_input(&text_lines(&["", "NATURAL,x"])).expect("nothing is read");
    assert_eq!(nothing, (PackTemplate::new(), vec![]));
    assert_eq!(parse_input(&Vec::new()), Ok((PackTemplate::new(), vec![])));
}

#[test]
fn a_manifest_without_pack_information_keeps_the_constraints_unset() {
    let lines = text_lines(&["1,1,1,1", "2,2,2,2"]);
    let (pack, items) = parse_input(&lines).expect("the manifest is sound");
    assert_eq!(pack, PackTemplate::new());
    assert_eq!(ids(&items), vec!["1", "2"]);
}

#[test]
fn lines_are_trimmed_before_they_are_read() {
    let lines = text_lines(&["  SHORT_TO_LONG,3,7.5\t", "\u{a0}12,1,2,3  "]);
    let (pack, items) = parse_input(&lines).expect("the manifest is sound");
    assert_eq!(pack.sort_order, PackSortOrder::ShortToLong);
    assert_eq!(ids(&items), vec!["12"]);
    assert_eq!(items[0].weight, decimal_of("3"));
}

#[test]
fn a_line_that_starts_wrongly_is_named_as_it_was_given() {
    let lines = text_lines(&["NATURAL,10,20.0", "  item1,1,1,1 "]);
    assert_eq!(
        parse_input(&lines),
        Err(Error::InputStringShouldStartWithNumberOrKeyWord { input: "  item1,1,1,1 ".to_string() })
    );
    assert_eq!(
        parse_input(&text_lines(&["   "])),
        Err(Error::InputStringShouldStartWithNumberOrKeyWord { input: "   ".to_string() })
    );
    assert_eq!(
        parse_input(&text_lines(&["-5,1,1,1"])),
        Err(Error::InputStringShouldStartWithNumberOrKeyWord { input: "-5,1,1,1".to_string() })
    );
}

#[test]
fn pack_information_behind_the_first_line_is_refused() {
    let lines = text_lines(&["NATURAL,10,20.0", "NATURAL,8,15.0", "100,10.5,20,3.0"]);
    assert_eq!(
        parse_input(&lines),
        Err(Error::InputContainsDuplicatePackInformation {
            current_line: "NATURAL,8,15.0".to_string(),
            current_line_index: 1,
        })
    );
    let late = text_lines(&["1,1,1,1", "2,2,2,2", " LONG_TO_SHORT,8,15.0"]);
    assert_eq!(
        parse_input(&late),
        Err(Error::InputContainsDuplicatePackInformation {
            current_line: " LONG_TO_SHORT,8,15.0".to_string(),
            current_line_index: 2,
        })
    );
}

#[test]
fn a_keyword_at_the_start_makes_a_line_pack_information() {
    assert_eq!(
        parse_input(&text_lines(&["NATURALLY,10,20.0"])),
        Err(Error::InvalidPackSortOrder {
            input: "NATURALLY,10,20.0".to_string(),
            property_value: "NATURALLY".to_string(),
            source: strum::ParseError::VariantNotFound,
        })
    );
    assert_eq!(
        parse_input(&text_lines(&[" NATURAL,10 "])),
        Err(Error::InvalidNumberOfPropertiesForPacks { input: "NATURAL,10".to_string(), property_count: 2 })
    );
}

#[test]
fn a_record_at_fault_ends_the_reading() {
    let lines = text_lines(&["NATURAL,10,20.0", "1,1,1,1", " 2,x,1,1 ", "3,1,1"]);
    assert_eq!(
        parse_input(&lines),
        Err(Error::InvalidItemLength {
            input: "2,x,1,1".to_string(),
            property_value: "x".to_string(),
            source: NumberError::InvalidDigit,
        })
    );
}

#[test]
fn a_reader_takes_one_line_at_a_time() {
    let mut reader = ManifestReader::new();
    assert!(reader.can_read_line());
    assert_eq!(reader.read_line("LONG_TO_SHORT,2,3.5"), Ok(true));
    assert_eq!(reader.read_line("5,1,1,1"), Ok(true));
    assert!(reader.read_line("5,1,1").is_err());
    assert!(reader.read_line("NATURAL,2,3.5").is_err());
    assert_eq!(reader.read_line("6,2,2,2"), Ok(true));
    assert_eq!(reader.read_line(""), Ok(false));
    let (pack, items) = reader.finish();
    assert_eq!(pack.sort_order, PackSortOrder::LongToShort);
    assert_eq!(pack.maximum_number_of_pieces, 2);
    assert_eq!(ids(&items), vec!["5", "6"]);
}

#[test]
fn the_natural_order_changes_nothing() {
    let items = vec![item("c", "3"), item("a", "1"), item("b", "2")];
    let ordered = order_items(PackSortOrder::Natural, items.clone());
    assert_eq!(ordered, items);
}

#[test]
fn short_to_long_orders_by_rising_length() {
    let items = vec![item("c", "3"), item("a", "1"), item("d", "10.5"), item("b", "2")];
    let ordered = order_items(PackSortOrder::ShortToLong, items);
    assert_eq!(ids(&ordered), vec!["a", "b", "c", "d"]);
}

#[test]
fn long_to_short_orders_by_falling_length() {
    let items = vec![item("c", "3"), item("a", "-1"), item("d", "10.5"), item("b", "2")];
    let ordered = order_items(PackSortOrder::LongToShort, items);
    assert_eq!(ids(&ordered), vec!["d", "c", "b", "a"]);
}

#[test]
fn batches_of_equal_length_keep_their_order() {
    let items = vec![
        item("x1", "2"),
        item("y1", "1"),
        item("x2", "2.0"),
        item("z1", "3"),
        item("y2", "1.000000"),
        item("x3", "2"),
    ];
    let rising = order_items(PackSortOrder::ShortToLong, items.clone());
    assert_eq!(ids(&rising), vec!["y1", "y2", "x1", "x2", "x3", "z1"]);
    let falling = order_items(PackSortOrder::LongToShort, items);
    assert_eq!(ids(&falling), vec!["z1", "x1", "x2", "x3", "y1", "y2"]);
}

#[test]
fn ordering_agrees_with_a_stable_sort() {
    let lengths = ["5", "3", "5", "1", "4", "3", "3", "2", "5", "1", "0", "4"];
    let items: Vec<ItemTemplate> =
        lengths.iter().enumerate().map(|(index, length)| item(&index.to_string(), length)).collect();
    let mut expected = items.clone();
    expected.sort_by_key(|item| item.length.units());
    assert_eq!(order_items(PackSortOrder::ShortToLong, items.clone()), expected);
    let mut expected = items.clone();
    expected.sort_by_key(|item| std::cmp::Reverse(item.length.units()));
    assert_eq!(order_items(PackSortOrder::LongToShort, items), expected);
}

#[test]
fn no_batches_are_ordered_into_none() {
    assert_eq!(order_items(PackSortOrder::ShortToLong, Vec::new()), Vec::new());
}

#[test]
fn the_order_of_a_pack_is_written_back_as_its_keyword() {
    for keyword in ["NATURAL", "SHORT_TO_LONG", "LONG_TO_SHORT"] {
        let mut pack = PackTemplate::new();
        let line = format!("{keyword},10,20.0");
        assert_eq!(pack.from_line(&line), Ok(()));
        assert_eq!(pack.sort_order.to_string(), keyword);
    }
}

#[test]
fn a_batch_written_with_commas_between_its_properties_reads_back() {
    for id in ["100", "", "a b", "#1 (left); top/bottom", "\u{e9}t\u{e9} \"quoted\""] {
        let line = [id, "10.5", "20", "3.0"].join(",");
        let read = ItemTemplate::from_str(&line).expect("the line is sound");
        assert_eq!(read.id, id);
        assert_eq!(read.length, decimal_of("10.5"));
        assert_eq!(read.count, 20);
        assert_eq!(read.weight, decimal_of("3"));
    }
}
