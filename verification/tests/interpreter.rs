use pcbrepair::decimal::Decimal;
use pcbrepair::interpreter::InterpretError;
use pcbrepair::interpreter::InterpretedPcbRepairFile;
use pcbrepair::parser::Content;
use pcbrepair::parser::Description;
use pcbrepair::parser::ParsedPcbRepairFile;
use pcbrepair::parser::Pin;
use pcbrepair::parser::Units;

fn board_pin(net: &str, refdes: &str, number: &str, name: &str, x: Decimal, y: Decimal, radius: Decimal) -> Pin {
    Pin {
        net_name: net.to_string(),
        refdes: refdes.to_string(),
        pin_number: number.to_string(),
        pin_name: name.to_string(),
        pin_x: x,
        pin_y: y,
        test_point: String::new(),
        radius,
    }
}

fn parsed_with(units: Units, pins: Vec<Pin>) -> ParsedPcbRepairFile {
    ParsedPcbRepairFile {
        content: Content {
            units,
            symbols: Vec::new(),
            pins,
            testvias: Vec::new(),
            graphic_data: Vec::new(),
            classed_graphic_data: Vec::new(),
        },
        description: Description {
            board_model: String::new(),
            revision: String::new(),
            extended_board_model: String::new(),
            extended_revision: String::new(),
            part_number: String::new(),
            components: Vec::new(),
        },
    }
}

#[test]
fn mils_conversion_is_exact() {
    // A pin radius of 100 mils converts to exactly 2.54 mm (100 x 0.0254);
    // the radius is converted but never centered, so it shows the pure
    // conversion.
    let parsed = parsed_with(
        Units::Mils,
        vec![board_pin("N1", "U1", "1", "A", Decimal::new(100, 0), Decimal::new(0, 0), Decimal::new(100, 0))],
    );
    let interpreted = InterpretedPcbRepairFile::from_parsed(&parsed).unwrap();
    assert_eq!(interpreted.footprints.len(), 1);
    let (name, info) = &interpreted.footprints[0];
    assert_eq!(name, "U1");
    assert_eq!(info.pins[0].radius_mm.normalized(), Decimal::new(254, 2));
    // A single pin centers onto the origin.
    assert_eq!(info.pins[0].x_mm.normalized(), Decimal::new(0, 0));
}

#[test]
fn mils_conversion_exact_through_centering() {
    // Pins at x = 0 and x = 200 mils: converted to 0 and 5.08 mm, centroid
    // 2.54 mm, centered to -2.54 and +2.54 exactly.
    let parsed = parsed_with(
        Units::Mils,
        vec![
            board_pin("N1", "U1", "1", "A", Decimal::new(0, 0), Decimal::new(0, 0), Decimal::new(1, 0)),
            board_pin("N2", "U1", "2", "B", Decimal::new(200, 0), Decimal::new(0, 0), Decimal::new(1, 0)),
        ],
    );
    let interpreted = InterpretedPcbRepairFile::from_parsed(&parsed).unwrap();
    let (_, info) = &interpreted.footprints[0];
    assert_eq!(info.pins[0].x_mm.normalized(), Decimal::new(-254, 2));
    assert_eq!(info.pins[1].x_mm.normalized(), Decimal::new(254, 2));
}

#[test]
fn centering_three_pins() {
    // Pins at (0,0), (2,0), (1,3) center to (-1,-1), (1,-1), (0,2).
    let parsed = parsed_with(
        Units::Millimeters,
        vec![
            board_pin("N1", "U1", "1", "A", Decimal::new(0, 0), Decimal::new(0, 0), Decimal::new(1, 0)),
            board_pin("N2", "U1", "2", "B", Decimal::new(2, 0), Decimal::new(0, 0), Decimal::new(1, 0)),
            board_pin("N3", "U1", "3", "C", Decimal::new(1, 0), Decimal::new(3, 0), Decimal::new(1, 0)),
        ],
    );
    let interpreted = InterpretedPcbRepairFile::from_parsed(&parsed).unwrap();
    assert_eq!(interpreted.footprints.len(), 1);
    let (name, info) = &interpreted.footprints[0];
    assert_eq!(name, "U1");
    assert_eq!(info.pins.len(), 3);
    assert_eq!(info.pins[0].x_mm.normalized(), Decimal::new(-1, 0));
    assert_eq!(info.pins[0].y_mm.normalized(), Decimal::new(-1, 0));
    assert_eq!(info.pins[1].x_mm.normalized(), Decimal::new(1, 0));
    assert_eq!(info.pins[1].y_mm.normalized(), Decimal::new(-1, 0));
    assert_eq!(info.pins[2].x_mm.normalized(), Decimal::new(0, 0));
    assert_eq!(info.pins[2].y_mm.normalized(), Decimal::new(2, 0));
    // The mean of the centered coordinates is exactly (0, 0).
    let mut sum_x = Decimal::new(0, 0);
    let mut sum_y = Decimal::new(0, 0);
    for pin in &info.pins {
        sum_x = sum_x.checked_add(&pin.x_mm).unwrap();
        sum_y = sum_y.checked_add(&pin.y_mm).unwrap();
    }
    assert_eq!(sum_x.normalized(), Decimal::new(0, 0));
    assert_eq!(sum_y.normalized(), Decimal::new(0, 0));
}

#[test]
fn pin_number_fallback() {
    // An empty pin number falls back to the pin name; the display name then
    // falls back to the net name, since the name would duplicate the number.
    let parsed = parsed_with(
        Units::Millimeters,
        vec![board_pin("NET1", "U1", "", "GPIO3", Decimal::new(1, 0), Decimal::new(1, 0), Decimal::new(1, 0))],
    );
    let interpreted = InterpretedPcbRepairFile::from_parsed(&parsed).unwrap();
    let (_, info) = &interpreted.footprints[0];
    assert_eq!(info.pins[0].number, "GPIO3");
    assert_eq!(info.pins[0].name, "NET1");
}

#[test]
fn pin_number_zero_fallback() {
    let parsed = parsed_with(
        Units::Millimeters,
        vec![board_pin("NET2", "U1", "0", "GPIO4", Decimal::new(1, 0), Decimal::new(1, 0), Decimal::new(1, 0))],
    );
    let interpreted = InterpretedPcbRepairFile::from_parsed(&parsed).unwrap();
    let (_, info) = &interpreted.footprints[0];
    assert_eq!(info.pins[0].number, "GPIO4");
    assert_eq!(info.pins[0].name, "NET2");
}

#[test]
fn distinct_pin_number_keeps_name() {
    let parsed = parsed_with(
        Units::Millimeters,
        vec![board_pin("NET3", "U1", "7", "GPIO5", Decimal::new(1, 0), Decimal::new(1, 0), Decimal::new(1, 0))],
    );
    let interpreted = InterpretedPcbRepairFile::from_parsed(&parsed).unwrap();
    let (_, info) = &interpreted.footprints[0];
    assert_eq!(info.pins[0].number, "7");
    assert_eq!(info.pins[0].name, "GPIO5");
}

#[test]
fn groups_in_first_occurrence_order() {
    let parsed = parsed_with(
        Units::Millimeters,
        vec![
            board_pin("N", "U2", "1", "A", Decimal::new(0, 0), Decimal::new(0, 0), Decimal::new(1, 0)),
            board_pin("N", "U1", "1", "A", Decimal::new(0, 0), Decimal::new(0, 0), Decimal::new(1, 0)),
            board_pin("N", "U2", "2", "B", Decimal::new(2, 0), Decimal::new(0, 0), Decimal::new(1, 0)),
        ],
    );
    let interpreted = InterpretedPcbRepairFile::from_parsed(&parsed).unwrap();
    assert_eq!(interpreted.footprints.len(), 2);
    assert_eq!(interpreted.footprints[0].0, "U2");
    assert_eq!(interpreted.footprints[0].1.pins.len(), 2);
    assert_eq!(interpreted.footprints[1].0, "U1");
    assert_eq!(interpreted.footprints[1].1.pins.len(), 1);
}

#[test]
fn scale_overflow_is_an_error() {
    // A mils coordinate already at the scale cap cannot take the four extra
    // fraction digits of the conversion factor.
    let parsed = parsed_with(
        Units::Mils,
        vec![board_pin("N", "U1", "1", "A", Decimal::new(1, 28), Decimal::new(0, 0), Decimal::new(1, 0))],
    );
    assert_eq!(
        InterpretedPcbRepairFile::from_parsed(&parsed).unwrap_err(),
        InterpretError::ArithmeticOverflow
    );
}

#[test]
fn empty_content_yields_no_footprints() {
    let parsed = parsed_with(Units::Mils, Vec::new());
    let interpreted = InterpretedPcbRepairFile::from_parsed(&parsed).unwrap();
    assert_eq!(interpreted.footprints.len(), 0);
}
