//! Parsers for the two decompressed payloads.
//!
//! The content document is a line-oriented dialect: rows are separated by
//! line breaks and fields by `!`. An `A` row is an annotation that names a
//! section (and so selects the meaning of the following data rows); an `S`
//! row is a data row interpreted according to the current section. The
//! description document is a pipe-delimited header line followed by a
//! tab-delimited component table.

use vstd::prelude::*;
use crate::decimal::Decimal;
use crate::decimal::spec_is_digit;
use crate::decimal::spec_parse_decimal;
use crate::decimal::parse_decimal_bytes;

verus! {

/// Why parsing failed.
#[derive(Clone, Copy, Debug, PartialEq, Eq, Structural)]
pub enum ParseError {
    /// A row has too few fields for its row class or current section.
    MalformedRecord,
    /// An integer field is not a well-formed base-10 integer in range.
    BadInteger,
    /// A coordinate or radius field is not a well-formed decimal literal.
    BadDecimal,
    /// The description header line has fewer than five fields.
    MissingHeader,
}

/// Index of the first occurrence of `d` in `s`, or `-1` when absent.
pub open spec fn spec_find_byte(s: Seq<u8>, d: u8) -> int
    decreases s.len(),
{
    if s.len() == 0 {
        -1
    } else if s[0] == d {
        0
    } else {
        let r = spec_find_byte(s.skip(1), d);
        if r == -1 {
            -1
        } else {
            r + 1
        }
    }
}

pub proof fn lemma_find_byte_spec(s: Seq<u8>, d: u8)
    ensures
        spec_find_byte(s, d) == -1 ==> forall|i: int| 0 <= i < s.len() ==> s[i] != d,
        spec_find_byte(s, d) != -1 ==> {
            let r = spec_find_byte(s, d);
            &&& 0 <= r < s.len()
            &&& s[r] == d
            &&& forall|i: int| 0 <= i < r ==> s[i] != d
        },
    decreases s.len(),
{
    if s.len() > 0 && s[0] != d {
        lemma_find_byte_spec(s.skip(1), d);
        let r1 = spec_find_byte(s.skip(1), d);
        if r1 == -1 {
            assert forall|i: int| 0 <= i < s.len() implies s[i] != d by {
                if i > 0 {
                    assert(s.skip(1)[i - 1] == s[i]);
                }
            }
        } else {
            assert(s.skip(1)[r1] == s[r1 + 1]);
            assert forall|i: int| 0 <= i < r1 + 1 implies s[i] != d by {
                if i > 0 {
                    assert(s.skip(1)[i - 1] == s[i]);
                }
            }
        }
    }
}

pub proof fn lemma_find_byte_at(s: Seq<u8>, d: u8, j: int)
    requires
        0 <= j < s.len(),
        s[j] == d,
        forall|k: int| 0 <= k < j ==> s[k] != d,
    ensures
        spec_find_byte(s, d) == j,
{
    lemma_find_byte_spec(s, d);
}

/// `s` split at every occurrence of `d`: one more piece than there are
/// occurrences, in order, each piece free of `d`.
pub open spec fn spec_split_on(s: Seq<u8>, d: u8) -> Seq<Seq<u8>>
    decreases s.len(),
{
    let i = spec_find_byte(s, d);
    if 0 <= i < s.len() {
        seq![s.take(i)] + spec_split_on(s.skip(i + 1), d)
    } else {
        seq![s]
    }
}

/// A line with one trailing carriage return removed.
pub open spec fn spec_strip_cr(s: Seq<u8>) -> Seq<u8> {
    if s.len() > 0 && s[s.len() - 1] == 0x0d {
        s.take(s.len() - 1)
    } else {
        s
    }
}

/// The rows of a line-oriented document: split on line feeds, each row with
/// a trailing carriage return removed.
pub open spec fn spec_rows(s: Seq<u8>) -> Seq<Seq<u8>> {
    spec_split_on(s, 0x0a).map_values(|l: Seq<u8>| spec_strip_cr(l))
}

/// Splits `s` at every occurrence of `d`, as [`spec_split_on`] describes.
fn split_on(s: &[u8], d: u8) -> (r: Vec<Vec<u8>>)
    ensures
        r.deep_view() == spec_split_on(s@, d),
{
    let len = s.len();
    let mut result: Vec<Vec<u8>> = Vec::new();
    let mut start: usize = 0;
    let mut i: usize = 0;
    proof {
        assert(s@.skip(0) =~= s@);
        assert(result.deep_view() + spec_split_on(s@, d) =~~= spec_split_on(s@, d));
    }
    while i < len
        invariant
            0 <= start <= i <= len,
            len == s@.len(),
            forall|k: int| start <= k < i ==> s@[k] != d,
            result.deep_view() + spec_split_on(s@.skip(start as int), d) == spec_split_on(s@, d),
        decreases len - i,
    {
        if s[i] == d {
            let piece = vstd::slice::slice_to_vec(vstd::slice::slice_subrange(s, start, i));
            proof {
                let rest = s@.skip(start as int);
                assert forall|k: int| 0 <= k < i - start implies rest[k] != d by {
                    assert(rest[k] == s@[start + k]);
                }
                assert(rest[i - start] == s@[i as int]);
                lemma_find_byte_at(rest, d, i - start);
                assert(rest.take(i - start) =~= piece@);
                assert(rest.skip(i - start + 1) =~= s@.skip(i as int + 1));
                assert((result.deep_view().push(piece@)) + spec_split_on(
                    s@.skip(i as int + 1),
                    d,
                ) =~~= result.deep_view() + spec_split_on(s@.skip(start as int), d));
            }
            let ghost old_dv = result.deep_view();
            result.push(piece);
            proof {
                assert(result.deep_view() =~~= old_dv.push(result@[result@.len() - 1]@));
            }
            start = i + 1;
        }
        i = i + 1;
    }
    let piece = vstd::slice::slice_to_vec(vstd::slice::slice_subrange(s, start, len));
    proof {
        let rest = s@.skip(start as int);
        lemma_find_byte_spec(rest, d);
        if spec_find_byte(rest, d) != -1 {
            let r = spec_find_byte(rest, d);
            assert(rest[r] == s@[start + r]);
        }
        assert(rest =~= piece@);
        assert(spec_split_on(rest, d) == seq![rest]);
    }
    let ghost old_dv = result.deep_view();
    result.push(piece);
    proof {
        assert(result.deep_view() =~~= old_dv.push(result@[result@.len() - 1]@));
        assert(result.deep_view() =~~= spec_split_on(s@, d));
    }
    result
}

/// Copies a line with one trailing carriage return removed, as
/// [`spec_strip_cr`] describes.
fn stripped_cr(s: &[u8]) -> (r: Vec<u8>)
    ensures
        r@ == spec_strip_cr(s@),
{
    let mut v = vstd::slice::slice_to_vec(s);
    let n = v.len();
    if n > 0 && v[n - 1] == 0x0d {
        v.pop();
        assert(v@ =~= spec_strip_cr(s@));
    }
    v
}

/// What `String::from_utf8_lossy` yields on a byte sequence: the decoded
/// characters, with each invalid UTF-8 sequence replaced. A pure function
/// of the bytes alone.
pub uninterp spec fn spec_lossy(s: Seq<u8>) -> Seq<char>;

/// Relies on std's `String::from_utf8_lossy`: decodes `b` as UTF-8,
/// replacing invalid sequences with U+FFFD; the result depends on the bytes
/// alone.
#[verifier::external_body]
fn lossy_string(b: &[u8]) -> (r: String)
    ensures
        r@ == spec_lossy(b@),
{
    String::from_utf8_lossy(b).into_owned()
}

/// Digits of an unsigned integer literal: base-10 digits only, at least
/// one; `None` for any other byte, an empty run, or a value past
/// `u64::MAX`.
pub open spec fn spec_parse_u64_digits(s: Seq<u8>, acc: int, seen: bool) -> Option<int>
    decreases s.len(),
{
    if s.len() == 0 {
        if seen {
            Some(acc)
        } else {
            None
        }
    } else if spec_is_digit(s[0]) {
        let a2 = acc * 10 + (s[0] - 0x30);
        if a2 > u64::MAX {
            None
        } else {
            spec_parse_u64_digits(s.skip(1), a2, true)
        }
    } else {
        None
    }
}

/// An unsigned integer literal: an optional `+` sign then base-10 digits;
/// `None` for a malformed literal or a value past `u64::MAX`.
pub open spec fn spec_parse_u64(s: Seq<u8>) -> Option<u64> {
    let rest = if s.len() > 0 && s[0] == 0x2b {
        s.skip(1)
    } else {
        s
    };
    let r = spec_parse_u64_digits(rest, 0, false);
    if r is None {
        None
    } else {
        Some(r.unwrap() as u64)
    }
}

/// Parses an unsigned integer literal, exactly as [`spec_parse_u64`]
/// describes.
pub fn parse_u64(s: &[u8]) -> (r: Option<u64>)
    ensures
        r == spec_parse_u64(s@),
{
    let len = s.len();
    let mut i: usize = 0;
    if len > 0 && s[0] == 0x2b {
        i = 1;
    }
    let ghost rest = if s@.len() > 0 && s@[0] == 0x2b {
        s@.skip(1)
    } else {
        s@
    };
    let mut acc: u64 = 0;
    let mut seen = false;
    proof {
        assert(s@.skip(i as int) =~= rest);
    }
    while i < len
        invariant
            i <= len,
            len == s@.len(),
            rest == (if s@.len() > 0 && s@[0] == 0x2b {
                s@.skip(1)
            } else {
                s@
            }),
            spec_parse_u64_digits(s@.skip(i as int), acc as int, seen) == spec_parse_u64_digits(
                rest,
                0,
                false,
            ),
        decreases len - i,
    {
        proof {
            assert(s@.skip(i as int)[0] == s@[i as int]);
            assert(s@.skip(i as int).skip(1) =~= s@.skip(i as int + 1));
        }
        let b = s[i];
        if b >= 0x30 && b <= 0x39 {
            let d = (b - 0x30) as u64;
            let a10 = match acc.checked_mul(10) {
                Some(v) => v,
                None => {
                    proof {
                        assert(acc * 10 + d > u64::MAX);
                    }
                    return None;
                },
            };
            let a2 = match a10.checked_add(d) {
                Some(v) => v,
                None => {
                    proof {
                        assert(acc * 10 + d > u64::MAX);
                    }
                    return None;
                },
            };
            acc = a2;
            seen = true;
        } else {
            return None;
        }
        i = i + 1;
    }
    proof {
        assert(s@.skip(len as int) =~= Seq::<u8>::empty());
    }
    if !seen {
        return None;
    }
    Some(acc)
}

/// A `u16` integer literal: a [`spec_parse_u64`] value within `u16` range.
pub open spec fn spec_parse_u16(s: Seq<u8>) -> Option<u16> {
    let r = spec_parse_u64(s);
    if r is None {
        None
    } else if r.unwrap() > u16::MAX {
        None
    } else {
        Some(r.unwrap() as u16)
    }
}

/// Parses a `u16` integer literal, exactly as [`spec_parse_u16`] describes.
pub fn parse_u16(s: &[u8]) -> (r: Option<u16>)
    ensures
        r == spec_parse_u16(s@),
{
    match parse_u64(s) {
        Some(v) => {
            if v > 0xffff {
                None
            } else {
                Some(v as u16)
            }
        },
        None => None,
    }
}

/// Whether two byte strings are equal.
fn bytes_eq(a: &[u8], b: &[u8]) -> (r: bool)
    ensures
        r == (a@ == b@),
{
    let n = a.len();
    if n != b.len() {
        proof {
            assert(a@ != b@);
        }
        return false;
    }
    let mut i: usize = 0;
    while i < n
        invariant
            i <= n,
            n == a@.len() == b@.len(),
            forall|k: int| 0 <= k < i ==> a@[k] == b@[k],
        decreases n - i,
    {
        if a[i] != b[i] {
            proof {
                assert(a@[i as int] != b@[i as int]);
            }
            return false;
        }
        i = i + 1;
    }
    proof {
        assert(a@ =~= b@);
    }
    true
}

/// The unit system used in the content document (mils or millimeters).
#[derive(Clone, Copy, Debug, PartialEq, Eq, Structural)]
pub enum Units {
    /// Coordinates are in mils (1/1000 inch).
    Mils,
    /// Coordinates are in millimeters.
    Millimeters,
}

/// The section a data row belongs to: set by the most recent recognized
/// annotation row, carried across rows until the next one.
#[derive(Clone, Copy, Debug, PartialEq, Eq, Structural)]
pub enum SectionState {
    /// No recognized section: data rows are dropped.
    Unknown,
    /// Data rows are symbols.
    Symbol,
    /// Data rows are pins.
    Pin,
    /// The via section has no record type: data rows are dropped.
    Via,
    /// Data rows are test vias.
    TestVia,
    /// Data rows are graphic data entries.
    GraphicData,
    /// Data rows are classed graphic data entries.
    ClassedGraphicData,
}

/// A symbol record.
#[derive(Debug)]
pub struct Symbol {
    /// The reference designator (e.g., "U1") of the symbol.
    pub refdes: String,
    /// The component insertion code.
    pub comp_insertion_code: u64,
    /// The name of the symbol.
    pub sym_name: String,
    /// Whether the symbol is mirrored.
    pub sym_mirror: bool,
    /// The rotation angle of the symbol in degrees.
    pub sym_rotate: u16,
}

/// Mathematical model of a [`Symbol`].
#[verifier::ext_equal]
pub struct SymbolV {
    pub refdes: Seq<char>,
    pub comp_insertion_code: u64,
    pub sym_name: Seq<char>,
    pub sym_mirror: bool,
    pub sym_rotate: u16,
}

impl View for Symbol {
    type V = SymbolV;

    open spec fn view(&self) -> SymbolV {
        SymbolV {
            refdes: self.refdes@,
            comp_insertion_code: self.comp_insertion_code,
            sym_name: self.sym_name@,
            sym_mirror: self.sym_mirror,
            sym_rotate: self.sym_rotate,
        }
    }
}

/// A pin record (the net section's data row).
#[derive(Debug)]
pub struct Pin {
    /// The name of the net this pin is connected to.
    pub net_name: String,
    /// The reference designator (e.g., "U1") this pin is part of.
    pub refdes: String,
    /// The number of the pin.
    pub pin_number: String,
    /// The name of the pin.
    pub pin_name: String,
    /// The X-coordinate of the pin, in [`Content::units`] units.
    pub pin_x: Decimal,
    /// The Y-coordinate of the pin, in [`Content::units`] units.
    pub pin_y: Decimal,
    /// The test-point label of the pin.
    pub test_point: String,
    /// The radius of the pin, in [`Content::units`] units.
    pub radius: Decimal,
}

/// Mathematical model of a [`Pin`].
#[verifier::ext_equal]
pub struct PinV {
    pub net_name: Seq<char>,
    pub refdes: Seq<char>,
    pub pin_number: Seq<char>,
    pub pin_name: Seq<char>,
    pub pin_x: Decimal,
    pub pin_y: Decimal,
    pub test_point: Seq<char>,
    pub radius: Decimal,
}

impl View for Pin {
    type V = PinV;

    open spec fn view(&self) -> PinV {
        PinV {
            net_name: self.net_name@,
            refdes: self.refdes@,
            pin_number: self.pin_number@,
            pin_name: self.pin_name@,
            pin_x: self.pin_x,
            pin_y: self.pin_y,
            test_point: self.test_point@,
            radius: self.radius,
        }
    }
}

/// A test via record.
#[derive(Debug)]
pub struct TestVia {
    /// The name of the test via.
    pub testvia: String,
    /// The name of the net this test via is connected to.
    pub net_name: String,
    /// The reference designator this test via belongs to.
    pub refdes: String,
    /// The number of the associated pin.
    pub pin_number: String,
    /// The name of the associated pin.
    pub pin_name: String,
    /// The X-coordinate of the test via, in [`Content::units`] units.
    pub via_x: Decimal,
    /// The Y-coordinate of the test via, in [`Content::units`] units.
    pub via_y: Decimal,
    /// The test-point label of the via.
    pub test_point: String,
    /// The radius of the test via, in [`Content::units`] units.
    pub radius: Decimal,
}

/// Mathematical model of a [`TestVia`].
#[verifier::ext_equal]
pub struct TestViaV {
    pub testvia: Seq<char>,
    pub net_name: Seq<char>,
    pub refdes: Seq<char>,
    pub pin_number: Seq<char>,
    pub pin_name: Seq<char>,
    pub via_x: Decimal,
    pub via_y: Decimal,
    pub test_point: Seq<char>,
    pub radius: Decimal,
}

impl View for TestVia {
    type V = TestViaV;

    open spec fn view(&self) -> TestViaV {
        TestViaV {
            testvia: self.testvia@,
            net_name: self.net_name@,
            refdes: self.refdes@,
            pin_number: self.pin_number@,
            pin_name: self.pin_name@,
            via_x: self.via_x,
            via_y: self.via_y,
            test_point: self.test_point@,
            radius: self.radius,
        }
    }
}

/// A graphic data record.
#[derive(Debug)]
pub struct GraphicData {
    /// The name of the graphic data entry.
    pub graphic_data_name: String,
    /// The number of the graphic data entry.
    pub graphic_data_number: u64,
    /// The record tag.
    pub record_tag: String,
    /// The nine raw graphic data fields.
    pub graphic_data: [String; 9],
    /// The subclass of the entry.
    pub subclass: String,
    /// The symbol name the entry belongs to.
    pub sym_name: String,
    /// The reference designator the entry belongs to.
    pub refdes: String,
}

/// Mathematical model of a [`GraphicData`].
#[verifier::ext_equal]
pub struct GraphicDataV {
    pub graphic_data_name: Seq<char>,
    pub graphic_data_number: u64,
    pub record_tag: Seq<char>,
    pub graphic_data: Seq<Seq<char>>,
    pub subclass: Seq<char>,
    pub sym_name: Seq<char>,
    pub refdes: Seq<char>,
}

impl View for GraphicData {
    type V = GraphicDataV;

    open spec fn view(&self) -> GraphicDataV {
        GraphicDataV {
            graphic_data_name: self.graphic_data_name@,
            graphic_data_number: self.graphic_data_number,
            record_tag: self.record_tag@,
            graphic_data: self.graphic_data@.map_values(|s: String| s@),
            subclass: self.subclass@,
            sym_name: self.sym_name@,
            refdes: self.refdes@,
        }
    }
}

/// A classed graphic data record.
#[derive(Debug)]
pub struct ClassedGraphicData {
    /// The class of the entry.
    pub class: String,
    /// The subclass of the entry.
    pub subclass: String,
    /// The name of the graphic data entry.
    pub graphic_data_name: String,
    /// The number of the graphic data entry.
    pub graphic_data_number: u64,
    /// The record tag.
    pub record_tag: String,
    /// The nine raw graphic data fields.
    pub graphic_data: [String; 9],
    /// The name of the net the entry belongs to.
    pub net_name: String,
}

/// Mathematical model of a [`ClassedGraphicData`].
#[verifier::ext_equal]
pub struct ClassedGraphicDataV {
    pub class: Seq<char>,
    pub subclass: Seq<char>,
    pub graphic_data_name: Seq<char>,
    pub graphic_data_number: u64,
    pub record_tag: Seq<char>,
    pub graphic_data: Seq<Seq<char>>,
    pub net_name: Seq<char>,
}

impl View for ClassedGraphicData {
    type V = ClassedGraphicDataV;

    open spec fn view(&self) -> ClassedGraphicDataV {
        ClassedGraphicDataV {
            class: self.class@,
            subclass: self.subclass@,
            graphic_data_name: self.graphic_data_name@,
            graphic_data_number: self.graphic_data_number,
            record_tag: self.record_tag@,
            graphic_data: self.graphic_data@.map_values(|s: String| s@),
            net_name: self.net_name@,
        }
    }
}

/// The parsed content document.
#[derive(Debug)]
pub struct Content {
    /// The unit system used in the document.
    pub units: Units,
    /// The symbols, in document order.
    pub symbols: Vec<Symbol>,
    /// The pins, in document order.
    pub pins: Vec<Pin>,
    /// The test vias, in document order.
    pub testvias: Vec<TestVia>,
    /// The graphic data entries, in document order.
    pub graphic_data: Vec<GraphicData>,
    /// The classed graphic data entries, in document order.
    pub classed_graphic_data: Vec<ClassedGraphicData>,
}

/// Mathematical model of a [`Content`].
#[verifier::ext_equal]
pub struct ContentV {
    pub units: Units,
    pub symbols: Seq<SymbolV>,
    pub pins: Seq<PinV>,
    pub testvias: Seq<TestViaV>,
    pub graphic_data: Seq<GraphicDataV>,
    pub classed_graphic_data: Seq<ClassedGraphicDataV>,
}

impl View for Content {
    type V = ContentV;

    open spec fn view(&self) -> ContentV {
        ContentV {
            units: self.units,
            symbols: self.symbols@.map_values(|x: Symbol| x@),
            pins: self.pins@.map_values(|x: Pin| x@),
            testvias: self.testvias@.map_values(|x: TestVia| x@),
            graphic_data: self.graphic_data@.map_values(|x: GraphicData| x@),
            classed_graphic_data: self.classed_graphic_data@.map_values(
                |x: ClassedGraphicData| x@,
            ),
        }
    }
}

/// The content document before any row: unknown section, default unit Mils,
/// no records.
pub open spec fn spec_empty_content() -> ContentV {
    ContentV {
        units: Units::Mils,
        symbols: Seq::empty(),
        pins: Seq::empty(),
        testvias: Seq::empty(),
        graphic_data: Seq::empty(),
        classed_graphic_data: Seq::empty(),
    }
}

/// First field of an annotation row.
pub open spec fn tag_row_annotation() -> Seq<u8> {
    seq!['A' as u8]
}

/// First field of a data row.
pub open spec fn tag_row_data() -> Seq<u8> {
    seq!['S' as u8]
}

/// Annotation that sets the unit system.
pub open spec fn tag_unit() -> Seq<u8> {
    seq!['U' as u8, 'N' as u8, 'I' as u8, 'T' as u8]
}

/// Unit value that selects mils (anything else selects millimeters).
pub open spec fn tag_mils() -> Seq<u8> {
    seq!['m' as u8, 'i' as u8, 'l' as u8, 's' as u8]
}

/// Annotation that starts the symbol section.
pub open spec fn tag_refdes() -> Seq<u8> {
    seq!['R' as u8, 'E' as u8, 'F' as u8, 'D' as u8, 'E' as u8, 'S' as u8]
}

/// Annotation that starts the pin section.
pub open spec fn tag_net_name() -> Seq<u8> {
    seq!['N' as u8, 'E' as u8, 'T' as u8, '_' as u8, 'N' as u8, 'A' as u8, 'M' as u8, 'E' as u8]
}

/// Annotation that starts the via section (whose data rows are dropped).
pub open spec fn tag_viaid() -> Seq<u8> {
    seq!['V' as u8, 'I' as u8, 'A' as u8, 'I' as u8, 'D' as u8]
}

/// Annotation that starts the test via section.
pub open spec fn tag_testvia() -> Seq<u8> {
    seq!['T' as u8, 'E' as u8, 'S' as u8, 'T' as u8, 'V' as u8, 'I' as u8, 'A' as u8]
}

/// Annotation that starts the graphic data section.
pub open spec fn tag_graphic_data_name() -> Seq<u8> {
    seq![
        'G' as u8,
        'R' as u8,
        'A' as u8,
        'P' as u8,
        'H' as u8,
        'I' as u8,
        'C' as u8,
        '_' as u8,
        'D' as u8,
        'A' as u8,
        'T' as u8,
        'A' as u8,
        '_' as u8,
        'N' as u8,
        'A' as u8,
        'M' as u8,
        'E' as u8,
    ]
}

/// Annotation that starts the classed graphic data section.
pub open spec fn tag_class() -> Seq<u8> {
    seq!['C' as u8, 'L' as u8, 'A' as u8, 'S' as u8, 'S' as u8]
}

/// Sub-annotation that leaves the section unchanged.
pub open spec fn tag_logo_info() -> Seq<u8> {
    seq!['L' as u8, 'O' as u8, 'G' as u8, 'O' as u8, 'I' as u8, 'n' as u8, 'f' as u8, 'o' as u8]
}

/// Sub-annotation that leaves the section unchanged.
pub open spec fn tag_un_draw_sym() -> Seq<u8> {
    seq![
        'U' as u8,
        'n' as u8,
        'D' as u8,
        'r' as u8,
        'a' as u8,
        'w' as u8,
        'S' as u8,
        'y' as u8,
        'm' as u8,
    ]
}

/// Mirror-flag value on a symbol data row.
pub open spec fn tag_yes() -> Seq<u8> {
    seq!['Y' as u8, 'E' as u8, 'S' as u8]
}

/// Effect of a symbol data row: needs six fields; its insertion code and
/// rotation must be integers.
pub open spec fn spec_data_symbol(fields: Seq<Seq<u8>>, st: SectionState, acc: ContentV) -> Result<
    (SectionState, ContentV),
    ParseError,
> {
    if fields.len() < 6 {
        Err(ParseError::MalformedRecord)
    } else {
        let code = spec_parse_u64(fields[2]);
        let rot = spec_parse_u16(fields[5]);
        if code is None || rot is None {
            Err(ParseError::BadInteger)
        } else {
            let sym = SymbolV {
                refdes: spec_lossy(fields[1]),
                comp_insertion_code: code.unwrap(),
                sym_name: spec_lossy(fields[3]),
                sym_mirror: fields[4] == tag_yes(),
                sym_rotate: rot.unwrap(),
            };
            Ok((st, ContentV { symbols: acc.symbols.push(sym), ..acc }))
        }
    }
}

/// Effect of a pin data row: needs nine fields; its coordinates and radius
/// must be decimal literals.
pub open spec fn spec_data_pin(fields: Seq<Seq<u8>>, st: SectionState, acc: ContentV) -> Result<
    (SectionState, ContentV),
    ParseError,
> {
    if fields.len() < 9 {
        Err(ParseError::MalformedRecord)
    } else {
        let x = spec_parse_decimal(fields[5]);
        let y = spec_parse_decimal(fields[6]);
        let rad = spec_parse_decimal(fields[8]);
        if x is None || y is None || rad is None {
            Err(ParseError::BadDecimal)
        } else {
            let pin = PinV {
                net_name: spec_lossy(fields[1]),
                refdes: spec_lossy(fields[2]),
                pin_number: spec_lossy(fields[3]),
                pin_name: spec_lossy(fields[4]),
                pin_x: x.unwrap(),
                pin_y: y.unwrap(),
                test_point: spec_lossy(fields[7]),
                radius: rad.unwrap(),
            };
            Ok((st, ContentV { pins: acc.pins.push(pin), ..acc }))
        }
    }
}

/// Effect of a test via data row: needs ten fields; its coordinates and
/// radius must be decimal literals.
pub open spec fn spec_data_testvia(fields: Seq<Seq<u8>>, st: SectionState, acc: ContentV) -> Result<
    (SectionState, ContentV),
    ParseError,
> {
    if fields.len() < 10 {
        Err(ParseError::MalformedRecord)
    } else {
        let x = spec_parse_decimal(fields[6]);
        let y = spec_parse_decimal(fields[7]);
        let rad = spec_parse_decimal(fields[9]);
        if x is None || y is None || rad is None {
            Err(ParseError::BadDecimal)
        } else {
            let via = TestViaV {
                testvia: spec_lossy(fields[1]),
                net_name: spec_lossy(fields[2]),
                refdes: spec_lossy(fields[3]),
                pin_number: spec_lossy(fields[4]),
                pin_name: spec_lossy(fields[5]),
                via_x: x.unwrap(),
                via_y: y.unwrap(),
                test_point: spec_lossy(fields[8]),
                radius: rad.unwrap(),
            };
            Ok((st, ContentV { testvias: acc.testvias.push(via), ..acc }))
        }
    }
}

/// Effect of a graphic data row: needs sixteen fields; its entry number
/// must be an integer.
pub open spec fn spec_data_graphic(fields: Seq<Seq<u8>>, st: SectionState, acc: ContentV) -> Result<
    (SectionState, ContentV),
    ParseError,
> {
    if fields.len() < 16 {
        Err(ParseError::MalformedRecord)
    } else {
        let num = spec_parse_u64(fields[2]);
        if num is None {
            Err(ParseError::BadInteger)
        } else {
            let g = GraphicDataV {
                graphic_data_name: spec_lossy(fields[1]),
                graphic_data_number: num.unwrap(),
                record_tag: spec_lossy(fields[3]),
                graphic_data: Seq::new(9, |k: int| spec_lossy(fields[4 + k])),
                subclass: spec_lossy(fields[13]),
                sym_name: spec_lossy(fields[14]),
                refdes: spec_lossy(fields[15]),
            };
            Ok((st, ContentV { graphic_data: acc.graphic_data.push(g), ..acc }))
        }
    }
}

/// Effect of a classed graphic data row: needs sixteen fields; its entry
/// number must be an integer.
pub open spec fn spec_data_classed_graphic(
    fields: Seq<Seq<u8>>,
    st: SectionState,
    acc: ContentV,
) -> Result<(SectionState, ContentV), ParseError> {
    if fields.len() < 16 {
        Err(ParseError::MalformedRecord)
    } else {
        let num = spec_parse_u64(fields[4]);
        if num is None {
            Err(ParseError::BadInteger)
        } else {
            let g = ClassedGraphicDataV {
                class: spec_lossy(fields[1]),
                subclass: spec_lossy(fields[2]),
                graphic_data_name: spec_lossy(fields[3]),
                graphic_data_number: num.unwrap(),
                record_tag: spec_lossy(fields[5]),
                graphic_data: Seq::new(9, |k: int| spec_lossy(fields[6 + k])),
                net_name: spec_lossy(fields[15]),
            };
            Ok((st, ContentV { classed_graphic_data: acc.classed_graphic_data.push(g), ..acc }))
        }
    }
}

/// Effect of one row on the parse: an empty row is skipped; an annotation
/// row selects the unit system or the next section (two sub-annotations
/// leave the section unchanged; an unrecognized name resets it to Unknown);
/// a data row adds a record of the current section's kind, or is dropped in
/// the Unknown and Via sections; a row of any other class is ignored.
pub open spec fn spec_row_step(line: Seq<u8>, st: SectionState, acc: ContentV) -> Result<
    (SectionState, ContentV),
    ParseError,
> {
    if line.len() == 0 {
        Ok((st, acc))
    } else {
        let fields = spec_split_on(line, '!' as u8);
        let f0 = fields[0];
        if f0 == tag_row_annotation() {
            if fields.len() < 2 {
                Err(ParseError::MalformedRecord)
            } else {
                let name = fields[1];
                if name == tag_unit() {
                    if fields.len() < 3 {
                        Err(ParseError::MalformedRecord)
                    } else {
                        let u = if fields[2] == tag_mils() {
                            Units::Mils
                        } else {
                            Units::Millimeters
                        };
                        Ok((st, ContentV { units: u, ..acc }))
                    }
                } else if name == tag_refdes() {
                    Ok((SectionState::Symbol, acc))
                } else if name == tag_net_name() {
                    Ok((SectionState::Pin, acc))
                } else if name == tag_viaid() {
                    Ok((SectionState::Via, acc))
                } else if name == tag_testvia() {
                    Ok((SectionState::TestVia, acc))
                } else if name == tag_graphic_data_name() {
                    Ok((SectionState::GraphicData, acc))
                } else if name == tag_class() {
                    Ok((SectionState::ClassedGraphicData, acc))
                } else if name == tag_logo_info() || name == tag_un_draw_sym() {
                    Ok((st, acc))
                } else {
                    Ok((SectionState::Unknown, acc))
                }
            }
        } else if f0 == tag_row_data() {
            match st {
                SectionState::Symbol => spec_data_symbol(fields, st, acc),
                SectionState::Pin => spec_data_pin(fields, st, acc),
                SectionState::TestVia => spec_data_testvia(fields, st, acc),
                SectionState::GraphicData => spec_data_graphic(fields, st, acc),
                SectionState::ClassedGraphicData => spec_data_classed_graphic(fields, st, acc),
                _ => Ok((st, acc)),
            }
        } else {
            Ok((st, acc))
        }
    }
}

/// The parse folded over the remaining rows from section `st` and partial
/// result `acc`: the first row error aborts the whole parse.
pub open spec fn spec_parse_content_rows(
    rows: Seq<Seq<u8>>,
    st: SectionState,
    acc: ContentV,
) -> Result<ContentV, ParseError>
    decreases rows.len(),
{
    if rows.len() == 0 {
        Ok(acc)
    } else {
        let step = spec_row_step(rows[0], st, acc);
        if step is Err {
            Err(step->Err_0)
        } else {
            spec_parse_content_rows(rows.skip(1), step->Ok_0.0, step->Ok_0.1)
        }
    }
}

/// The parse of a whole content document: its rows folded from the Unknown
/// section and the empty result.
pub open spec fn spec_parse_content(s: Seq<u8>) -> Result<ContentV, ParseError> {
    spec_parse_content_rows(spec_rows(s), SectionState::Unknown, spec_empty_content())
}

impl Content {
    /// Applies one row to the partial result, exactly as [`spec_row_step`]
    /// describes: on success the returned value is the next section state.
    fn row_step(line: &[u8], st: SectionState, out: &mut Content) -> (r: Result<
        SectionState,
        ParseError,
    >)
        ensures
            match r {
                Ok(st2) => spec_row_step(line@, st, old(out)@) == Ok::<
                    (SectionState, ContentV),
                    ParseError,
                >((st2, final(out)@)),
                Err(e) => spec_row_step(line@, st, old(out)@) == Err::<
                    (SectionState, ContentV),
                    ParseError,
                >(e),
            },
    {
        if line.len() == 0 {
            return Ok(st);
        }
        let fields = split_on(line, '!' as u8);
        let ghost fv = spec_split_on(line@, '!' as u8);
        proof {
            assert(fields@.len() == fv.len());
            assert(fields@[0]@ =~= fv[0]);
        }
        let t_a: [u8; 1] = ['A' as u8];
        let t_s: [u8; 1] = ['S' as u8];
        proof {
            assert(t_a@ =~= tag_row_annotation());
            assert(t_s@ =~= tag_row_data());
        }
        if bytes_eq(fields[0].as_slice(), t_a.as_slice()) {
            if fields.len() < 2 {
                return Err(ParseError::MalformedRecord);
            }
            proof {
                assert(fields@[1]@ =~= fv[1]);
            }
            let t_unit: [u8; 4] = ['U' as u8, 'N' as u8, 'I' as u8, 'T' as u8];
            let t_refdes: [u8; 6] = ['R' as u8, 'E' as u8, 'F' as u8, 'D' as u8, 'E' as u8, 'S' as u8];
            let t_net_name: [u8; 8] = [
                'N' as u8,
                'E' as u8,
                'T' as u8,
                '_' as u8,
                'N' as u8,
                'A' as u8,
                'M' as u8,
                'E' as u8,
            ];
            let t_viaid: [u8; 5] = ['V' as u8, 'I' as u8, 'A' as u8, 'I' as u8, 'D' as u8];
            let t_testvia: [u8; 7] = [
                'T' as u8,
                'E' as u8,
                'S' as u8,
                'T' as u8,
                'V' as u8,
                'I' as u8,
                'A' as u8,
            ];
            let t_graphic: [u8; 17] = [
                'G' as u8,
                'R' as u8,
                'A' as u8,
                'P' as u8,
                'H' as u8,
                'I' as u8,
                'C' as u8,
                '_' as u8,
                'D' as u8,
                'A' as u8,
                'T' as u8,
                'A' as u8,
                '_' as u8,
                'N' as u8,
                'A' as u8,
                'M' as u8,
                'E' as u8,
            ];
            let t_class: [u8; 5] = ['C' as u8, 'L' as u8, 'A' as u8, 'S' as u8, 'S' as u8];
            let t_logo: [u8; 8] = [
                'L' as u8,
                'O' as u8,
                'G' as u8,
                'O' as u8,
                'I' as u8,
                'n' as u8,
                'f' as u8,
                'o' as u8,
            ];
            let t_undraw: [u8; 9] = [
                'U' as u8,
                'n' as u8,
                'D' as u8,
                'r' as u8,
                'a' as u8,
                'w' as u8,
                'S' as u8,
                'y' as u8,
                'm' as u8,
            ];
            proof {
                assert(t_unit@ =~= tag_unit());
                assert(t_refdes@ =~= tag_refdes());
                assert(t_net_name@ =~= tag_net_name());
                assert(t_viaid@ =~= tag_viaid());
                assert(t_testvia@ =~= tag_testvia());
                assert(t_graphic@ =~= tag_graphic_data_name());
                assert(t_class@ =~= tag_class());
                assert(t_logo@ =~= tag_logo_info());
                assert(t_undraw@ =~= tag_un_draw_sym());
            }
            if bytes_eq(fields[1].as_slice(), t_unit.as_slice()) {
                if fields.len() < 3 {
                    return Err(ParseError::MalformedRecord);
                }
                proof {
                    assert(fields@[2]@ =~= fv[2]);
                }
                let t_mils: [u8; 4] = ['m' as u8, 'i' as u8, 'l' as u8, 's' as u8];
                proof {
                    assert(t_mils@ =~= tag_mils());
                }
                let u = if bytes_eq(fields[2].as_slice(), t_mils.as_slice()) {
                    Units::Mils
                } else {
                    Units::Millimeters
                };
                out.units = u;
                proof {
                    assert(out@ =~= (ContentV { units: u, ..old(out)@ }));
                }
                Ok(st)
            } else if bytes_eq(fields[1].as_slice(), t_refdes.as_slice()) {
                Ok(SectionState::Symbol)
            } else if bytes_eq(fields[1].as_slice(), t_net_name.as_slice()) {
                Ok(SectionState::Pin)
            } else if bytes_eq(fields[1].as_slice(), t_viaid.as_slice()) {
                Ok(SectionState::Via)
            } else if bytes_eq(fields[1].as_slice(), t_testvia.as_slice()) {
                Ok(SectionState::TestVia)
            } else if bytes_eq(fields[1].as_slice(), t_graphic.as_slice()) {
                Ok(SectionState::GraphicData)
            } else if bytes_eq(fields[1].as_slice(), t_class.as_slice()) {
                Ok(SectionState::ClassedGraphicData)
            } else if bytes_eq(fields[1].as_slice(), t_logo.as_slice()) {
                Ok(st)
            } else if bytes_eq(fields[1].as_slice(), t_undraw.as_slice()) {
                Ok(st)
            } else {
                Ok(SectionState::Unknown)
            }
        } else if bytes_eq(fields[0].as_slice(), t_s.as_slice()) {
            match st {
                SectionState::Symbol => {
                    if fields.len() < 6 {
                        return Err(ParseError::MalformedRecord);
                    }
                    proof {
                        assert(fields@[1]@ =~= fv[1]);
                        assert(fields@[2]@ =~= fv[2]);
                        assert(fields@[3]@ =~= fv[3]);
                        assert(fields@[4]@ =~= fv[4]);
                        assert(fields@[5]@ =~= fv[5]);
                    }
                    let code = match parse_u64(fields[2].as_slice()) {
                        Some(v) => v,
                        None => {
                            return Err(ParseError::BadInteger);
                        },
                    };
                    let rot = match parse_u16(fields[5].as_slice()) {
                        Some(v) => v,
                        None => {
                            return Err(ParseError::BadInteger);
                        },
                    };
                    let t_yes: [u8; 3] = ['Y' as u8, 'E' as u8, 'S' as u8];
                    proof {
                        assert(t_yes@ =~= tag_yes());
                    }
                    let sym = Symbol {
                        refdes: lossy_string(fields[1].as_slice()),
                        comp_insertion_code: code,
                        sym_name: lossy_string(fields[3].as_slice()),
                        sym_mirror: bytes_eq(fields[4].as_slice(), t_yes.as_slice()),
                        sym_rotate: rot,
                    };
                    out.symbols.push(sym);
                    proof {
                        assert(out@.symbols =~= old(out)@.symbols.push(sym@));
                        assert(out@ =~= (ContentV {
                            symbols: old(out)@.symbols.push(sym@),
                            ..old(out)@
                        }));
                    }
                    Ok(st)
                },
                SectionState::Pin => {
                    if fields.len() < 9 {
                        return Err(ParseError::MalformedRecord);
                    }
                    proof {
                        assert(fields@[1]@ =~= fv[1]);
                        assert(fields@[2]@ =~= fv[2]);
                        assert(fields@[3]@ =~= fv[3]);
                        assert(fields@[4]@ =~= fv[4]);
                        assert(fields@[5]@ =~= fv[5]);
                        assert(fields@[6]@ =~= fv[6]);
                        assert(fields@[7]@ =~= fv[7]);
                        assert(fields@[8]@ =~= fv[8]);
                    }
                    let x = match parse_decimal_bytes(fields[5].as_slice()) {
                        Some(v) => v,
                        None => {
                            return Err(ParseError::BadDecimal);
                        },
                    };
                    let y = match parse_decimal_bytes(fields[6].as_slice()) {
                        Some(v) => v,
                        None => {
                            return Err(ParseError::BadDecimal);
                        },
                    };
                    let rad = match parse_decimal_bytes(fields[8].as_slice()) {
                        Some(v) => v,
                        None => {
                            return Err(ParseError::BadDecimal);
                        },
                    };
                    let pin = Pin {
                        net_name: lossy_string(fields[1].as_slice()),
                        refdes: lossy_string(fields[2].as_slice()),
                        pin_number: lossy_string(fields[3].as_slice()),
                        pin_name: lossy_string(fields[4].as_slice()),
                        pin_x: x,
                        pin_y: y,
                        test_point: lossy_string(fields[7].as_slice()),
                        radius: rad,
                    };
                    out.pins.push(pin);
                    proof {
                        assert(out@.pins =~= old(out)@.pins.push(pin@));
                        assert(out@ =~= (ContentV { pins: old(out)@.pins.push(pin@), ..old(out)@ }));
                    }
                    Ok(st)
                },
                SectionState::TestVia => {
                    if fields.len() < 10 {
                        return Err(ParseError::MalformedRecord);
                    }
                    proof {
                        assert(fields@[1]@ =~= fv[1]);
                        assert(fields@[2]@ =~= fv[2]);
                        assert(fields@[3]@ =~= fv[3]);
                        assert(fields@[4]@ =~= fv[4]);
                        assert(fields@[5]@ =~= fv[5]);
                        assert(fields@[6]@ =~= fv[6]);
                        assert(fields@[7]@ =~= fv[7]);
                        assert(fields@[8]@ =~= fv[8]);
                        assert(fields@[9]@ =~= fv[9]);
                    }
                    let x = match parse_decimal_bytes(fields[6].as_slice()) {
                        Some(v) => v,
                        None => {
                            return Err(ParseError::BadDecimal);
                        },
                    };
                    let y = match parse_decimal_bytes(fields[7].as_slice()) {
                        Some(v) => v,
                        None => {
                            return Err(ParseError::BadDecimal);
                        },
                    };
                    let rad = match parse_decimal_bytes(fields[9].as_slice()) {
                        Some(v) => v,
                        None => {
                            return Err(ParseError::BadDecimal);
                        },
                    };
                    let via = TestVia {
                        testvia: lossy_string(fields[1].as_slice()),
                        net_name: lossy_string(fields[2].as_slice()),
                        refdes: lossy_string(fields[3].as_slice()),
                        pin_number: lossy_string(fields[4].as_slice()),
                        pin_name: lossy_string(fields[5].as_slice()),
                        via_x: x,
                        via_y: y,
                        test_point: lossy_string(fields[8].as_slice()),
                        radius: rad,
                    };
                    out.testvias.push(via);
                    proof {
                        assert(out@.testvias =~= old(out)@.testvias.push(via@));
                        assert(out@ =~= (ContentV {
                            testvias: old(out)@.testvias.push(via@),
                            ..old(out)@
                        }));
                    }
                    Ok(st)
                },
                SectionState::GraphicData => {
                    if fields.len() < 16 {
                        return Err(ParseError::MalformedRecord);
                    }
                    proof {
                        assert forall|k: int| 0 <= k < 16 implies fields@[k]@ =~= fv[k] by {}
                    }
                    let num = match parse_u64(fields[2].as_slice()) {
                        Some(v) => v,
                        None => {
                            return Err(ParseError::BadInteger);
                        },
                    };
                    let gd: [String; 9] = [
                        lossy_string(fields[4].as_slice()),
                        lossy_string(fields[5].as_slice()),
                        lossy_string(fields[6].as_slice()),
                        lossy_string(fields[7].as_slice()),
                        lossy_string(fields[8].as_slice()),
                        lossy_string(fields[9].as_slice()),
                        lossy_string(fields[10].as_slice()),
                        lossy_string(fields[11].as_slice()),
                        lossy_string(fields[12].as_slice()),
                    ];
                    proof {
                        assert(gd@.map_values(|s: String| s@) =~= Seq::new(
                            9,
                            |k: int| spec_lossy(fv[4 + k]),
                        ));
                    }
                    let g = GraphicData {
                        graphic_data_name: lossy_string(fields[1].as_slice()),
                        graphic_data_number: num,
                        record_tag: lossy_string(fields[3].as_slice()),
                        graphic_data: gd,
                        subclass: lossy_string(fields[13].as_slice()),
                        sym_name: lossy_string(fields[14].as_slice()),
                        refdes: lossy_string(fields[15].as_slice()),
                    };
                    out.graphic_data.push(g);
                    proof {
                        assert(out@.graphic_data =~= old(out)@.graphic_data.push(
                            out@.graphic_data[out@.graphic_data.len() - 1],
                        ));
                        assert(out@ =~= (ContentV {
                            graphic_data: out@.graphic_data,
                            ..old(out)@
                        }));
                    }
                    Ok(st)
                },
                SectionState::ClassedGraphicData => {
                    if fields.len() < 16 {
                        return Err(ParseError::MalformedRecord);
                    }
                    proof {
                        assert forall|k: int| 0 <= k < 16 implies fields@[k]@ =~= fv[k] by {}
                    }
                    let num = match parse_u64(fields[4].as_slice()) {
                        Some(v) => v,
                        None => {
                            return Err(ParseError::BadInteger);
                        },
                    };
                    let gd: [String; 9] = [
                        lossy_string(fields[6].as_slice()),
                        lossy_string(fields[7].as_slice()),
                        lossy_string(fields[8].as_slice()),
                        lossy_string(fields[9].as_slice()),
                        lossy_string(fields[10].as_slice()),
                        lossy_string(fields[11].as_slice()),
                        lossy_string(fields[12].as_slice()),
                        lossy_string(fields[13].as_slice()),
                        lossy_string(fields[14].as_slice()),
                    ];
                    proof {
                        assert(gd@.map_values(|s: String| s@) =~= Seq::new(
                            9,
                            |k: int| spec_lossy(fv[6 + k]),
                        ));
                    }
                    let g = ClassedGraphicData {
                        class: lossy_string(fields[1].as_slice()),
                        subclass: lossy_string(fields[2].as_slice()),
                        graphic_data_name: lossy_string(fields[3].as_slice()),
                        graphic_data_number: num,
                        record_tag: lossy_string(fields[5].as_slice()),
                        graphic_data: gd,
                        net_name: lossy_string(fields[15].as_slice()),
                    };
                    out.classed_graphic_data.push(g);
                    proof {
                        assert(out@.classed_graphic_data =~= old(out)@.classed_graphic_data.push(
                            out@.classed_graphic_data[out@.classed_graphic_data.len() - 1],
                        ));
                        assert(out@ =~= (ContentV {
                            classed_graphic_data: out@.classed_graphic_data,
                            ..old(out)@
                        }));
                    }
                    Ok(st)
                },
                _ => Ok(st),
            }
        } else {
            Ok(st)
        }
    }

    /// Parses a content document, exactly as [`spec_parse_content`]
    /// describes.
    pub fn from_bytes(content: &[u8]) -> (r: Result<Content, ParseError>)
        ensures
            match r {
                Ok(c) => spec_parse_content(content@) == Ok::<ContentV, ParseError>(c@),
                Err(e) => spec_parse_content(content@) == Err::<ContentV, ParseError>(e),
            },
    {
        let lines = split_on(content, 0x0a);
        let ghost rows = spec_rows(content@);
        let mut st = SectionState::Unknown;
        let mut result = Content {
            units: Units::Mils,
            symbols: Vec::new(),
            pins: Vec::new(),
            testvias: Vec::new(),
            graphic_data: Vec::new(),
            classed_graphic_data: Vec::new(),
        };
        proof {
            assert(result@ =~= spec_empty_content());
            assert(rows.skip(0) =~= rows);
        }
        let n = lines.len();
        let mut i: usize = 0;
        while i < n
            invariant
                i <= n,
                n == lines@.len(),
                rows == spec_rows(content@),
                rows == lines.deep_view().map_values(|l: Seq<u8>| spec_strip_cr(l)),
                rows.len() == n,
                spec_parse_content_rows(rows.skip(i as int), st, result@) == spec_parse_content(
                    content@,
                ),
            decreases n - i,
        {
            let line = stripped_cr(lines[i].as_slice());
            proof {
                assert(lines.deep_view()[i as int] =~= lines@[i as int]@);
                assert(line@ == rows[i as int]);
                assert(rows.skip(i as int)[0] == rows[i as int]);
                assert(rows.skip(i as int).skip(1) =~= rows.skip(i as int + 1));
            }
            match Self::row_step(line.as_slice(), st, &mut result) {
                Ok(st2) => {
                    st = st2;
                },
                Err(e) => {
                    return Err(e);
                },
            }
            i = i + 1;
        }
        proof {
            assert(rows.skip(n as int) =~= Seq::<Seq<u8>>::empty());
        }
        Ok(result)
    }
}

/// Index of the first CRLF pair in `s`, or `-1` when absent.
pub open spec fn spec_find_crlf(s: Seq<u8>) -> int
    decreases s.len(),
{
    if s.len() < 2 {
        -1
    } else if s[0] == 0x0d && s[1] == 0x0a {
        0
    } else {
        let r = spec_find_crlf(s.skip(1));
        if r == -1 {
            -1
        } else {
            r + 1
        }
    }
}

pub proof fn lemma_find_crlf_spec(s: Seq<u8>)
    ensures
        spec_find_crlf(s) == -1 ==> forall|i: int|
            0 <= i < s.len() - 1 ==> !((#[trigger] s[i]) == 0x0d && s[i + 1] == 0x0a),
        spec_find_crlf(s) != -1 ==> {
            let r = spec_find_crlf(s);
            &&& 0 <= r <= s.len() - 2
            &&& s[r] == 0x0d
            &&& s[r + 1] == 0x0a
            &&& forall|i: int| 0 <= i < r ==> !((#[trigger] s[i]) == 0x0d && s[i + 1] == 0x0a)
        },
    decreases s.len(),
{
    if s.len() >= 2 && !(s[0] == 0x0d && s[1] == 0x0a) {
        lemma_find_crlf_spec(s.skip(1));
        let r1 = spec_find_crlf(s.skip(1));
        if r1 == -1 {
            assert forall|i: int| 0 <= i < s.len() - 1 implies !((#[trigger] s[i]) == 0x0d && s[i
                + 1] == 0x0a) by {
                if i > 0 {
                    assert(s.skip(1)[i - 1] == s[i]);
                    assert(s.skip(1)[i] == s[i + 1]);
                }
            }
        } else {
            assert(s.skip(1)[r1] == s[r1 + 1]);
            assert(s.skip(1)[r1 + 1] == s[r1 + 2]);
            assert forall|i: int| 0 <= i < r1 + 1 implies !((#[trigger] s[i]) == 0x0d && s[i + 1]
                == 0x0a) by {
                if i > 0 {
                    assert(s.skip(1)[i - 1] == s[i]);
                    assert(s.skip(1)[i] == s[i + 1]);
                }
            }
        }
    }
}

pub proof fn lemma_find_crlf_at(s: Seq<u8>, j: int)
    requires
        0 <= j <= s.len() - 2,
        s[j] == 0x0d,
        s[j + 1] == 0x0a,
        forall|k: int| 0 <= k < j ==> !((#[trigger] s[k]) == 0x0d && s[k + 1] == 0x0a),
    ensures
        spec_find_crlf(s) == j,
{
    lemma_find_crlf_spec(s);
}

/// The header line of the description document: everything before the
/// first CRLF pair, or the whole document when it has none.
pub open spec fn spec_header_line(s: Seq<u8>) -> Seq<u8> {
    let i = spec_find_crlf(s);
    if i >= 0 {
        s.take(i)
    } else {
        s
    }
}

/// Finds the first CRLF pair, as [`spec_find_crlf`] describes.
fn find_crlf(s: &[u8]) -> (r: Option<usize>)
    ensures
        match r {
            Some(i) => spec_find_crlf(s@) == i as int,
            None => spec_find_crlf(s@) == -1,
        },
{
    let n = s.len();
    if n < 2 {
        return None;
    }
    let mut i: usize = 0;
    while i < n - 1
        invariant
            0 <= i <= n - 1,
            n == s@.len(),
            n >= 2,
            forall|k: int| 0 <= k < i ==> !((#[trigger] s@[k]) == 0x0d && s@[k + 1] == 0x0a),
        decreases n - i,
    {
        if s[i] == 0x0d && s[i + 1] == 0x0a {
            proof {
                lemma_find_crlf_at(s@, i as int);
            }
            return Some(i);
        }
        i = i + 1;
    }
    proof {
        lemma_find_crlf_spec(s@);
    }
    None
}

/// An ASCII whitespace byte: space, or one of tab through carriage return.
pub open spec fn spec_is_ws(b: u8) -> bool {
    b == 0x20 || (0x09 <= b && b <= 0x0d)
}

/// The whitespace-separated tokens of `s` appended to `acc`, with `cur` the
/// token under construction: a whitespace byte finishes the current token
/// (when nonempty), any other byte extends it.
pub open spec fn spec_ws_tokens_acc(s: Seq<u8>, cur: Seq<u8>, acc: Seq<Seq<u8>>) -> Seq<Seq<u8>>
    decreases s.len(),
{
    if s.len() == 0 {
        if cur.len() > 0 {
            acc.push(cur)
        } else {
            acc
        }
    } else if spec_is_ws(s[0]) {
        if cur.len() > 0 {
            spec_ws_tokens_acc(s.skip(1), Seq::empty(), acc.push(cur))
        } else {
            spec_ws_tokens_acc(s.skip(1), Seq::empty(), acc)
        }
    } else {
        spec_ws_tokens_acc(s.skip(1), cur.push(s[0]), acc)
    }
}

/// The whitespace-separated tokens of `s`: maximal nonempty runs of
/// non-whitespace bytes, in order.
pub open spec fn spec_ws_tokens(s: Seq<u8>) -> Seq<Seq<u8>> {
    spec_ws_tokens_acc(s, Seq::empty(), Seq::empty())
}

/// Splits into whitespace-separated tokens, as [`spec_ws_tokens`]
/// describes.
fn ws_tokens(s: &[u8]) -> (r: Vec<Vec<u8>>)
    ensures
        r.deep_view() == spec_ws_tokens(s@),
{
    let n = s.len();
    let mut acc: Vec<Vec<u8>> = Vec::new();
    let mut cur: Vec<u8> = Vec::new();
    let mut i: usize = 0;
    proof {
        assert(s@.skip(0) =~= s@);
        assert(acc.deep_view() =~~= Seq::<Seq<u8>>::empty());
    }
    while i < n
        invariant
            i <= n,
            n == s@.len(),
            spec_ws_tokens_acc(s@.skip(i as int), cur@, acc.deep_view()) == spec_ws_tokens(s@),
        decreases n - i,
    {
        proof {
            assert(s@.skip(i as int)[0] == s@[i as int]);
            assert(s@.skip(i as int).skip(1) =~= s@.skip(i as int + 1));
        }
        let b = s[i];
        if b == 0x20 || (b >= 0x09 && b <= 0x0d) {
            if cur.len() > 0 {
                let ghost old_acc = acc.deep_view();
                let finished = cur;
                cur = Vec::new();
                acc.push(finished);
                proof {
                    assert(acc.deep_view() =~~= old_acc.push(acc@[acc@.len() - 1]@));
                }
            } else {
                proof {
                    assert(cur@ =~= Seq::<u8>::empty());
                }
            }
        } else {
            cur.push(b);
        }
        i = i + 1;
    }
    proof {
        assert(s@.skip(n as int) =~= Seq::<u8>::empty());
    }
    if cur.len() > 0 {
        let ghost old_acc = acc.deep_view();
        acc.push(cur);
        proof {
            assert(acc.deep_view() =~~= old_acc.push(acc@[acc@.len() - 1]@));
        }
    }
    acc
}

/// One bill-of-materials entry of the description document.
#[derive(Debug)]
pub struct Component {
    /// The part number of the component.
    pub part_number: String,
    /// The description/name of the component.
    pub description: String,
    /// The number of times this component is used on the board.
    pub quantity: u64,
    /// The reference designators where this component is used.
    pub location: Vec<String>,
    /// An alternate part number.
    pub part_number2: String,
}

/// Mathematical model of a [`Component`].
#[verifier::ext_equal]
pub struct ComponentV {
    pub part_number: Seq<char>,
    pub description: Seq<char>,
    pub quantity: u64,
    pub location: Seq<Seq<char>>,
    pub part_number2: Seq<char>,
}

impl View for Component {
    type V = ComponentV;

    open spec fn view(&self) -> ComponentV {
        ComponentV {
            part_number: self.part_number@,
            description: self.description@,
            quantity: self.quantity,
            location: self.location@.map_values(|s: String| s@),
            part_number2: self.part_number2@,
        }
    }
}

/// The parsed description document: board identity and bill-of-materials.
#[derive(Debug)]
pub struct Description {
    /// Board model number.
    pub board_model: String,
    /// Board revision.
    pub revision: String,
    /// Longer board model number.
    pub extended_board_model: String,
    /// Longer board revision.
    pub extended_revision: String,
    /// Part number of the board.
    pub part_number: String,
    /// The components on the board, in table order.
    pub components: Vec<Component>,
}

/// Mathematical model of a [`Description`].
#[verifier::ext_equal]
pub struct DescriptionV {
    pub board_model: Seq<char>,
    pub revision: Seq<char>,
    pub extended_board_model: Seq<char>,
    pub extended_revision: Seq<char>,
    pub part_number: Seq<char>,
    pub components: Seq<ComponentV>,
}

impl View for Description {
    type V = DescriptionV;

    open spec fn view(&self) -> DescriptionV {
        DescriptionV {
            board_model: self.board_model@,
            revision: self.revision@,
            extended_board_model: self.extended_board_model@,
            extended_revision: self.extended_revision@,
            part_number: self.part_number@,
            components: self.components@.map_values(|x: Component| x@),
        }
    }
}

/// The component table folded over the remaining rows: empty rows are
/// invisible; the first `skip_left` remaining table rows are skipped (the
/// title and column-header rows); a row with fewer than five tab-fields is
/// silently skipped; otherwise the row becomes a component, whose quantity
/// must be an integer and whose location field is split into
/// whitespace-separated tokens.
pub open spec fn spec_parse_components(
    rows: Seq<Seq<u8>>,
    skip_left: int,
    acc: Seq<ComponentV>,
) -> Result<Seq<ComponentV>, ParseError>
    decreases rows.len(),
{
    if rows.len() == 0 {
        Ok(acc)
    } else {
        let row = rows[0];
        if row.len() == 0 {
            spec_parse_components(rows.skip(1), skip_left, acc)
        } else if skip_left > 0 {
            spec_parse_components(rows.skip(1), skip_left - 1, acc)
        } else {
            let fields = spec_split_on(row, 0x09);
            if fields.len() < 5 {
                spec_parse_components(rows.skip(1), 0, acc)
            } else {
                let q = spec_parse_u64(fields[2]);
                if q is None {
                    Err(ParseError::BadInteger)
                } else {
                    let comp = ComponentV {
                        part_number: spec_lossy(fields[0]),
                        description: spec_lossy(fields[1]),
                        quantity: q.unwrap(),
                        location: spec_ws_tokens(fields[3]).map_values(
                            |t: Seq<u8>| spec_lossy(t),
                        ),
                        part_number2: spec_lossy(fields[4]),
                    };
                    spec_parse_components(rows.skip(1), 0, acc.push(comp))
                }
            }
        }
    }
}

/// The parse of a whole description document: the header line (before the
/// first CRLF) split on `|` must have at least five fields, which name the
/// board; the whole document is then re-read as a tab-delimited table of
/// components.
pub open spec fn spec_parse_description(s: Seq<u8>) -> Result<DescriptionV, ParseError> {
    let header_fields = spec_split_on(spec_header_line(s), '|' as u8);
    if header_fields.len() < 5 {
        Err(ParseError::MissingHeader)
    } else {
        let comps = spec_parse_components(spec_rows(s), 2, Seq::empty());
        if comps is Err {
            Err(comps->Err_0)
        } else {
            Ok(
                DescriptionV {
                    board_model: spec_lossy(header_fields[0]),
                    revision: spec_lossy(header_fields[1]),
                    extended_board_model: spec_lossy(header_fields[2]),
                    extended_revision: spec_lossy(header_fields[3]),
                    part_number: spec_lossy(header_fields[4]),
                    components: comps->Ok_0,
                },
            )
        }
    }
}

impl Description {
    /// Parses a description document, exactly as [`spec_parse_description`]
    /// describes.
    pub fn from_bytes(description: &[u8]) -> (r: Result<Description, ParseError>)
        ensures
            match r {
                Ok(d) => spec_parse_description(description@) == Ok::<DescriptionV, ParseError>(
                    d@,
                ),
                Err(e) => spec_parse_description(description@) == Err::<DescriptionV, ParseError>(
                    e,
                ),
            },
    {
        let len = description.len();
        let header_end = match find_crlf(description) {
            Some(i) => i,
            None => len,
        };
        proof {
            lemma_find_crlf_spec(description@);
        }
        let header_slice = vstd::slice::slice_subrange(description, 0, header_end);
        proof {
            assert(header_slice@ =~= spec_header_line(description@));
        }
        let header_fields = split_on(header_slice, '|' as u8);
        let ghost hfv = spec_split_on(spec_header_line(description@), '|' as u8);
        proof {
            assert(header_fields@.len() == hfv.len());
        }
        if header_fields.len() < 5 {
            return Err(ParseError::MissingHeader);
        }
        proof {
            assert(header_fields@[0]@ =~= hfv[0]);
            assert(header_fields@[1]@ =~= hfv[1]);
            assert(header_fields@[2]@ =~= hfv[2]);
            assert(header_fields@[3]@ =~= hfv[3]);
            assert(header_fields@[4]@ =~= hfv[4]);
        }

        let lines = split_on(description, 0x0a);
        let ghost rows = spec_rows(description@);
        let mut components: Vec<Component> = Vec::new();
        let mut skip_left: u32 = 2;
        let n = lines.len();
        let mut i: usize = 0;
        proof {
            assert(rows.skip(0) =~= rows);
            assert(components@.map_values(|x: Component| x@) =~= Seq::<ComponentV>::empty());
            assert(spec_split_on(spec_header_line(description@), '|' as u8).len() >= 5);
        }
        while i < n
            invariant
                i <= n,
                n == lines@.len(),
                skip_left <= 2,
                rows == spec_rows(description@),
                rows == lines.deep_view().map_values(|l: Seq<u8>| spec_strip_cr(l)),
                rows.len() == n,
                spec_split_on(spec_header_line(description@), '|' as u8).len() >= 5,
                spec_parse_components(
                    rows.skip(i as int),
                    skip_left as int,
                    components@.map_values(|x: Component| x@),
                ) == spec_parse_components(rows, 2, Seq::empty()),
            decreases n - i,
        {
            let line = stripped_cr(lines[i].as_slice());
            proof {
                assert(lines.deep_view()[i as int] =~= lines@[i as int]@);
                assert(line@ == rows[i as int]);
                assert(rows.skip(i as int)[0] == rows[i as int]);
                assert(rows.skip(i as int).skip(1) =~= rows.skip(i as int + 1));
            }
            if line.len() == 0 {
            } else if skip_left > 0 {
                skip_left = skip_left - 1;
            } else {
                let fields = split_on(line.as_slice(), 0x09);
                let ghost fv = spec_split_on(line@, 0x09);
                proof {
                    assert(fields@.len() == fv.len());
                }
                if fields.len() >= 5 {
                    proof {
                        assert(fields@[0]@ =~= fv[0]);
                        assert(fields@[1]@ =~= fv[1]);
                        assert(fields@[2]@ =~= fv[2]);
                        assert(fields@[3]@ =~= fv[3]);
                        assert(fields@[4]@ =~= fv[4]);
                    }
                    let q = match parse_u64(fields[2].as_slice()) {
                        Some(v) => v,
                        None => {
                            proof {
                                assert(spec_parse_components(
                                    rows.skip(i as int),
                                    skip_left as int,
                                    components@.map_values(|x: Component| x@),
                                ) == Err::<Seq<ComponentV>, ParseError>(ParseError::BadInteger));
                                assert(spec_parse_description(description@) == Err::<
                                    DescriptionV,
                                    ParseError,
                                >(ParseError::BadInteger));
                            }
                            return Err(ParseError::BadInteger);
                        },
                    };
                    let toks = ws_tokens(fields[3].as_slice());
                    let mut location: Vec<String> = Vec::new();
                    let m = toks.len();
                    let mut j: usize = 0;
                    proof {
                        assert(location@.map_values(|s: String| s@) =~= toks.deep_view().take(
                            0,
                        ).map_values(|t: Seq<u8>| spec_lossy(t)));
                    }
                    while j < m
                        invariant
                            j <= m,
                            m == toks@.len(),
                            toks.deep_view().len() == m,
                            location@.map_values(|s: String| s@) == toks.deep_view().take(
                                j as int,
                            ).map_values(|t: Seq<u8>| spec_lossy(t)),
                        decreases m - j,
                    {
                        proof {
                            assert(toks.deep_view()[j as int] =~= toks@[j as int]@);
                        }
                        let ghost old_loc = location@.map_values(|s: String| s@);
                        location.push(lossy_string(toks[j].as_slice()));
                        proof {
                            let dv = toks.deep_view();
                            assert(location@.map_values(|s: String| s@) =~= old_loc.push(
                                location@[location@.len() - 1]@,
                            ));
                            assert(dv.take(j as int + 1).map_values(|t: Seq<u8>| spec_lossy(t))
                                =~= dv.take(j as int).map_values(|t: Seq<u8>| spec_lossy(t)).push(
                                spec_lossy(dv[j as int]),
                            ));
                        }
                        j = j + 1;
                    }
                    proof {
                        assert(toks.deep_view().take(m as int) =~= toks.deep_view());
                    }
                    let comp = Component {
                        part_number: lossy_string(fields[0].as_slice()),
                        description: lossy_string(fields[1].as_slice()),
                        quantity: q,
                        location,
                        part_number2: lossy_string(fields[4].as_slice()),
                    };
                    let ghost old_comps = components@.map_values(|x: Component| x@);
                    components.push(comp);
                    proof {
                        assert(components@.map_values(|x: Component| x@) =~= old_comps.push(
                            components@[components@.len() - 1]@,
                        ));
                    }
                }
            }
            i = i + 1;
        }
        proof {
            assert(rows.skip(n as int) =~= Seq::<Seq<u8>>::empty());
        }
        Ok(
            Description {
                board_model: lossy_string(header_fields[0].as_slice()),
                revision: lossy_string(header_fields[1].as_slice()),
                extended_board_model: lossy_string(header_fields[2].as_slice()),
                extended_revision: lossy_string(header_fields[3].as_slice()),
                part_number: lossy_string(header_fields[4].as_slice()),
                components,
            },
        )
    }
}

/// A fully parsed container: both documents in typed form.
#[derive(Debug)]
pub struct ParsedPcbRepairFile {
    /// The parsed content document.
    pub content: Content,
    /// The parsed description document.
    pub description: Description,
}

impl ParsedPcbRepairFile {
    /// Parses both decoded payloads, the content document first: the first
    /// document error is the parse's error.
    pub fn from_decoded(decoded: &crate::decoder::DecodedPcbRepairFile) -> (r: Result<
        ParsedPcbRepairFile,
        ParseError,
    >)
        ensures
            match r {
                Ok(p) => spec_parse_content(decoded.content@) == Ok::<ContentV, ParseError>(
                    p.content@,
                ) && spec_parse_description(decoded.description@) == Ok::<
                    DescriptionV,
                    ParseError,
                >(p.description@),
                Err(e) => spec_parse_content(decoded.content@) == Err::<ContentV, ParseError>(e)
                    || (spec_parse_content(decoded.content@) is Ok && spec_parse_description(
                    decoded.description@,
                ) == Err::<DescriptionV, ParseError>(e)),
            },
    {
        let content = match Content::from_bytes(decoded.content.as_slice()) {
            Ok(c) => c,
            Err(e) => {
                return Err(e);
            },
        };
        let description = match Description::from_bytes(decoded.description.as_slice()) {
            Ok(d) => d,
            Err(e) => {
                return Err(e);
            },
        };
        Ok(ParsedPcbRepairFile { content, description })
    }
}

} // verus!
