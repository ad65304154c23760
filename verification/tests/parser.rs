use pcbrepair::decimal::Decimal;
use pcbrepair::parser::Content;
use pcbrepair::parser::Description;
use pcbrepair::parser::ParseError;
use pcbrepair::parser::Units;
use pcbrepair::parser::parse_u16;
use pcbrepair::parser::parse_u64;

#[test]
fn pin_row_state_semantics() {
    let content = b"A!UNIT!mils\nA!NET_NAME\nS!N1!U1!1!A!10!20!!0.5\n";
    let parsed = Content::from_bytes(content).unwrap();
    assert_eq!(parsed.units, Units::Mils);
    assert_eq!(parsed.pins.len(), 1);
    let pin = &parsed.pins[0];
    assert_eq!(pin.net_name, "N1");
    assert_eq!(pin.refdes, "U1");
    assert_eq!(pin.pin_number, "1");
    assert_eq!(pin.pin_name, "A");
    assert_eq!(pin.pin_x, Decimal::new(10, 0));
    assert_eq!(pin.pin_y, Decimal::new(20, 0));
    assert_eq!(pin.test_point, "");
    assert_eq!(pin.radius, Decimal::new(5, 1));
    assert_eq!(parsed.symbols.len(), 0);
    assert_eq!(parsed.testvias.len(), 0);
}

#[test]
fn sub_annotation_keeps_state() {
    // LOGOInfo is a sub-annotation: the following data row is still a pin.
    let content =
        b"A!UNIT!mils\nA!NET_NAME\nS!N1!U1!1!A!10!20!!0.5\nA!LOGOInfo\nS!N2!U2!2!B!30!40!!0.7\n";
    let parsed = Content::from_bytes(content).unwrap();
    assert_eq!(parsed.pins.len(), 2);
    assert_eq!(parsed.pins[1].refdes, "U2");
}

#[test]
fn unknown_annotation_drops_rows() {
    // An unrecognized annotation resets the section: the data row is dropped.
    let content =
        b"A!UNIT!mils\nA!NET_NAME\nS!N1!U1!1!A!10!20!!0.5\nA!SOMETHING_ELSE\nS!N2!U2!2!B!30!40!!0.7\n";
    let parsed = Content::from_bytes(content).unwrap();
    assert_eq!(parsed.pins.len(), 1);
    assert_eq!(parsed.pins[0].refdes, "U1");
}

#[test]
fn unit_millimeters_for_other_values() {
    let parsed = Content::from_bytes(b"A!UNIT!millimeters\n").unwrap();
    assert_eq!(parsed.units, Units::Millimeters);
    // The default with no unit annotation at all is mils.
    let parsed = Content::from_bytes(b"").unwrap();
    assert_eq!(parsed.units, Units::Mils);
}

#[test]
fn via_section_rows_dropped() {
    let content = b"A!VIAID\nS!whatever!row!should!be!dropped\n";
    let parsed = Content::from_bytes(content).unwrap();
    assert_eq!(parsed.pins.len(), 0);
    assert_eq!(parsed.symbols.len(), 0);
}

#[test]
fn symbol_row_parsed() {
    let content = b"A!REFDES\nS!U1!3!SOIC8!YES!90\nS!U2!4!QFP32!NO!270\n";
    let parsed = Content::from_bytes(content).unwrap();
    assert_eq!(parsed.symbols.len(), 2);
    assert_eq!(parsed.symbols[0].refdes, "U1");
    assert_eq!(parsed.symbols[0].comp_insertion_code, 3);
    assert_eq!(parsed.symbols[0].sym_name, "SOIC8");
    assert!(parsed.symbols[0].sym_mirror);
    assert_eq!(parsed.symbols[0].sym_rotate, 90);
    assert!(!parsed.symbols[1].sym_mirror);
    assert_eq!(parsed.symbols[1].sym_rotate, 270);
}

#[test]
fn testvia_row_parsed() {
    let content = b"A!TESTVIA\nS!TV1!NET9!U3!7!PAD!1.5!2,5!T!0.3\n";
    let parsed = Content::from_bytes(content).unwrap();
    assert_eq!(parsed.testvias.len(), 1);
    let via = &parsed.testvias[0];
    assert_eq!(via.testvia, "TV1");
    assert_eq!(via.net_name, "NET9");
    assert_eq!(via.refdes, "U3");
    assert_eq!(via.via_x, Decimal::new(15, 1));
    // A comma serves as the decimal separator.
    assert_eq!(via.via_y, Decimal::new(25, 1));
    assert_eq!(via.radius, Decimal::new(3, 1));
}

#[test]
fn graphic_rows_parsed() {
    let content =
        b"A!GRAPHIC_DATA_NAME\nS!LINE!5!TAG!a!b!c!d!e!f!g!h!i!SUB!SYM!U9\nA!CLASS\nS!CL!SUB2!ARC!6!TG!1!2!3!4!5!6!7!8!9!NETX\n";
    let parsed = Content::from_bytes(content).unwrap();
    assert_eq!(parsed.graphic_data.len(), 1);
    let g = &parsed.graphic_data[0];
    assert_eq!(g.graphic_data_name, "LINE");
    assert_eq!(g.graphic_data_number, 5);
    assert_eq!(g.graphic_data.len(), 9);
    assert_eq!(g.graphic_data[0], "a");
    assert_eq!(g.graphic_data[8], "i");
    assert_eq!(g.refdes, "U9");
    assert_eq!(parsed.classed_graphic_data.len(), 1);
    let c = &parsed.classed_graphic_data[0];
    assert_eq!(c.class, "CL");
    assert_eq!(c.graphic_data_number, 6);
    assert_eq!(c.net_name, "NETX");
}

#[test]
fn bad_integer_aborts_parse() {
    let content = b"A!REFDES\nS!U1!notanumber!SOIC8!YES!90\n";
    assert_eq!(Content::from_bytes(content).unwrap_err(), ParseError::BadInteger);
}

#[test]
fn bad_decimal_aborts_parse() {
    let content = b"A!NET_NAME\nS!N1!U1!1!A!1.2.3!20!!0.5\n";
    assert_eq!(Content::from_bytes(content).unwrap_err(), ParseError::BadDecimal);
}

#[test]
fn short_data_row_is_malformed() {
    let content = b"A!NET_NAME\nS!N1!U1\n";
    assert_eq!(Content::from_bytes(content).unwrap_err(), ParseError::MalformedRecord);
}

#[test]
fn bare_annotation_row_is_malformed() {
    assert_eq!(Content::from_bytes(b"A\n").unwrap_err(), ParseError::MalformedRecord);
    assert_eq!(Content::from_bytes(b"A!UNIT\n").unwrap_err(), ParseError::MalformedRecord);
}

#[test]
fn other_row_classes_ignored() {
    let content = b"X!whatever\n!empty first field\nA!NET_NAME\nS!N1!U1!1!A!1!2!!3\n";
    let parsed = Content::from_bytes(content).unwrap();
    assert_eq!(parsed.pins.len(), 1);
}

#[test]
fn description_parsed() {
    let description =
        b"MODEL|1.0|EXTMODEL|1.01|PN777\r\nBoard Title Row\r\nP100\tCapacitor 10u\t2\tC1 C2\tALT9\r\nshort\trow\r\n";
    let parsed = Description::from_bytes(description).unwrap();
    assert_eq!(parsed.board_model, "MODEL");
    assert_eq!(parsed.revision, "1.0");
    assert_eq!(parsed.extended_board_model, "EXTMODEL");
    assert_eq!(parsed.extended_revision, "1.01");
    assert_eq!(parsed.part_number, "PN777");
    assert_eq!(parsed.components.len(), 1);
    let comp = &parsed.components[0];
    assert_eq!(comp.part_number, "P100");
    assert_eq!(comp.description, "Capacitor 10u");
    assert_eq!(comp.quantity, 2);
    assert_eq!(comp.location, vec!["C1".to_string(), "C2".to_string()]);
    assert_eq!(comp.part_number2, "ALT9");
}

#[test]
fn description_header_too_short() {
    assert_eq!(
        Description::from_bytes(b"A|B|C|D\r\nrest").unwrap_err(),
        ParseError::MissingHeader
    );
}

#[test]
fn description_bad_quantity() {
    let description = b"A|B|C|D|E\r\ntitle\r\nP1\tdesc\tmany\tC1\tALT\r\n";
    assert_eq!(Description::from_bytes(description).unwrap_err(), ParseError::BadInteger);
}

#[test]
fn integer_literals() {
    assert_eq!(parse_u64(b"123"), Some(123));
    assert_eq!(parse_u64(b"+7"), Some(7));
    assert_eq!(parse_u64(b"0"), Some(0));
    assert_eq!(parse_u64(b""), None);
    assert_eq!(parse_u64(b"+"), None);
    assert_eq!(parse_u64(b"-3"), None);
    assert_eq!(parse_u64(b"12x"), None);
    assert_eq!(parse_u64(b"18446744073709551615"), Some(u64::MAX));
    assert_eq!(parse_u64(b"18446744073709551616"), None);
    assert_eq!(parse_u16(b"65535"), Some(65535));
    assert_eq!(parse_u16(b"65536"), None);
}

#[test]
fn description_without_crlf_is_all_header() {
    let parsed = Description::from_bytes(b"A|B|C|D|E").unwrap();
    assert_eq!(parsed.board_model, "A");
    assert_eq!(parsed.part_number, "E");
    assert_eq!(parsed.components.len(), 0);
}
