use std::io::Write;

use flate2::Compression;
use flate2::write::ZlibEncoder;

use pcbrepair::decimal::Decimal;
use pcbrepair::decoder::DecodedPcbRepairFile;
use pcbrepair::crypto::FZ_EXPANDED_KEY;
use pcbrepair::crypto::encrypt;
use pcbrepair::interpreter::InterpretedPcbRepairFile;
use pcbrepair::parser::ParsedPcbRepairFile;
use pcbrepair::parser::Units;

fn deflate(data: &[u8]) -> Vec<u8> {
    let mut encoder = ZlibEncoder::new(Vec::new(), Compression::default());
    encoder.write_all(data).unwrap();
    encoder.finish().unwrap()
}

fn build_container(content_blob: &[u8], description_blob: &[u8]) -> Vec<u8> {
    let cs = deflate(content_blob);
    let ds = deflate(description_blob);
    let ptr = (4 + cs.len()) as u32;
    let mut p = Vec::new();
    p.extend_from_slice(&(content_blob.len() as u32).to_le_bytes());
    p.extend_from_slice(&cs);
    p.extend_from_slice(&(description_blob.len() as u32).to_le_bytes());
    p.extend_from_slice(&ds);
    p.extend_from_slice(&ptr.to_le_bytes());
    p.extend_from_slice(&4u32.to_le_bytes());
    p
}

const CONTENT: &[u8] = b"A!UNIT!mils\nA!REFDES\nS!U1!1!SOIC8!NO!0\nA!NET_NAME\nS!VCC!U1!1!A!0!0!!10\nS!GND!U1!2!B!200!0!!10\n";
const DESCRIPTION: &[u8] =
    b"BOARD9|2.0|BOARD9EXT|2.01|PN42\r\ntitle row\r\nP1\tresistor\t1\tU1\tALT\r\n";

fn check_pipeline(raw: &[u8]) {
    let decoded = DecodedPcbRepairFile::from_bytes(raw).unwrap();
    assert_eq!(decoded.content, CONTENT);
    assert_eq!(decoded.description, DESCRIPTION);

    let parsed = ParsedPcbRepairFile::from_decoded(&decoded).unwrap();
    assert_eq!(parsed.content.units, Units::Mils);
    assert_eq!(parsed.content.symbols.len(), 1);
    assert_eq!(parsed.content.pins.len(), 2);
    assert_eq!(parsed.description.board_model, "BOARD9");
    assert_eq!(parsed.description.components.len(), 1);
    assert_eq!(parsed.description.components[0].location, vec!["U1".to_string()]);

    let interpreted = InterpretedPcbRepairFile::from_parsed(&parsed).unwrap();
    assert_eq!(interpreted.footprints.len(), 1);
    let (name, info) = &interpreted.footprints[0];
    assert_eq!(name, "U1");
    assert_eq!(info.pins.len(), 2);
    // 0 and 200 mils center to -2.54 mm and +2.54 mm.
    assert_eq!(info.pins[0].x_mm.normalized(), Decimal::new(-254, 2));
    assert_eq!(info.pins[1].x_mm.normalized(), Decimal::new(254, 2));
    // 10 mils of radius are 0.254 mm.
    assert_eq!(info.pins[0].radius_mm.normalized(), Decimal::new(254, 3));
}

#[test]
fn full_pipeline_plaintext() {
    let raw = build_container(CONTENT, DESCRIPTION);
    check_pipeline(&raw);
}

#[test]
fn full_pipeline_encrypted() {
    let raw = encrypt(&build_container(CONTENT, DESCRIPTION), &FZ_EXPANDED_KEY);
    check_pipeline(&raw);
}
