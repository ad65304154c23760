//! Semantic interpreter: from parsed pin records to per-component
//! footprints.
//!
//! For every pin record the interpreter repairs missing identifiers (an
//! empty or `"0"` pin number falls back to the pin name, and the display
//! name falls back to the net name when it would duplicate the number),
//! converts coordinates and radius to millimeters with the exact factor
//! 0.0254 mm/mil, groups pins by reference designator in first-occurrence
//! order, and recenters each group on its own centroid.

use vstd::prelude::*;
use crate::decimal::Decimal;
use crate::decimal::MAX_SCALE;
use crate::decimal::spec_add;
use crate::decimal::spec_sub;
use crate::decimal::spec_mul;
use crate::decimal::spec_div;
use crate::decimal::spec_val;
use crate::parser::ParsedPcbRepairFile;
use crate::parser::Units;

verus! {

/// Why interpretation failed.
#[derive(Clone, Copy, Debug, PartialEq, Eq, Structural)]
pub enum InterpretError {
    /// A coordinate did not fit the decimal representation: a mantissa or
    /// scale left its range during conversion, summing or centering.
    ArithmeticOverflow,
}

/// A pin of a footprint, in millimeters.
#[derive(Debug)]
pub struct Pin {
    /// The display name of the pin.
    pub name: String,
    /// The effective number of the pin.
    pub number: String,
    /// The X-coordinate in millimeters, relative to the footprint centroid.
    pub x_mm: Decimal,
    /// The Y-coordinate in millimeters, relative to the footprint centroid.
    pub y_mm: Decimal,
    /// The radius of the pin in millimeters.
    pub radius_mm: Decimal,
}

/// Mathematical model of a [`Pin`].
#[verifier::ext_equal]
pub struct PinV {
    pub name: Seq<char>,
    pub number: Seq<char>,
    pub x_mm: Decimal,
    pub y_mm: Decimal,
    pub radius_mm: Decimal,
}

impl View for Pin {
    type V = PinV;

    open spec fn view(&self) -> PinV {
        PinV {
            name: self.name@,
            number: self.number@,
            x_mm: self.x_mm,
            y_mm: self.y_mm,
            radius_mm: self.radius_mm,
        }
    }
}

/// One footprint: a component's pins, centered on the component's own
/// centroid.
#[derive(Debug)]
pub struct FootprintInfo {
    /// The pins of the footprint, in document order.
    pub pins: Vec<Pin>,
}

/// Mathematical model of a [`FootprintInfo`].
#[verifier::ext_equal]
pub struct FootprintInfoV {
    pub pins: Seq<PinV>,
}

impl View for FootprintInfo {
    type V = FootprintInfoV;

    open spec fn view(&self) -> FootprintInfoV {
        FootprintInfoV { pins: self.pins@.map_values(|x: Pin| x@) }
    }
}

/// The interpreted container: every component's footprint, keyed by
/// reference designator in first-occurrence order.
#[derive(Debug)]
pub struct InterpretedPcbRepairFile {
    /// The footprints, one per reference designator with at least one pin.
    pub footprints: Vec<(String, FootprintInfo)>,
}

/// Mathematical model of an [`InterpretedPcbRepairFile`].
#[verifier::ext_equal]
pub struct InterpretedPcbRepairFileV {
    pub footprints: Seq<(Seq<char>, FootprintInfoV)>,
}

impl View for InterpretedPcbRepairFile {
    type V = InterpretedPcbRepairFileV;

    open spec fn view(&self) -> InterpretedPcbRepairFileV {
        InterpretedPcbRepairFileV {
            footprints: self.footprints@.map_values(
                |e: (String, FootprintInfo)| (e.0@, e.1@),
            ),
        }
    }
}

/// The exact conversion factor from mils to millimeters: 0.0254.
pub open spec fn spec_mm_per_mil() -> Decimal {
    Decimal { mantissa: 254, scale: 4 }
}

/// A coordinate converted to millimeters: multiplied by the exact factor
/// 0.0254 for a Mils document, passed through unchanged for a Millimeters
/// document; nothing when the value's scale is out of range or the product
/// does not fit.
pub open spec fn spec_to_mm(v: Decimal, units: Units) -> Option<Decimal> {
    if !v.wf() {
        None
    } else {
        match units {
            Units::Mils => spec_mul(v, spec_mm_per_mil()),
            Units::Millimeters => Some(v),
        }
    }
}

/// A Mils conversion is exact: the result is the input times 254 at four
/// more fraction digits — exactly `v * 0.0254`, with no rounding.
pub proof fn lemma_mils_conversion_exact(v: Decimal)
    requires
        spec_to_mm(v, Units::Mils) is Some,
    ensures
        spec_to_mm(v, Units::Mils).unwrap().mantissa == v.mantissa * 254,
        spec_to_mm(v, Units::Mils).unwrap().scale == v.scale + 4,
{
}

/// The effective pin number: the raw pin number, unless it is empty or the
/// literal `"0"`, in which case the raw pin name.
pub open spec fn spec_effective_number(p: crate::parser::PinV) -> Seq<char> {
    if p.pin_number.len() == 0 || p.pin_number == seq!['0'] {
        p.pin_name
    } else {
        p.pin_number
    }
}

/// The display name: the raw pin name, unless it equals the effective
/// number, in which case the net name.
pub open spec fn spec_display_name(p: crate::parser::PinV) -> Seq<char> {
    if spec_effective_number(p) != p.pin_name {
        p.pin_name
    } else {
        p.net_name
    }
}

/// One pin record interpreted: identifiers repaired and every coordinate
/// converted to millimeters; nothing when a conversion fails.
pub open spec fn spec_convert_pin(p: crate::parser::PinV, units: Units) -> Option<PinV> {
    let x = spec_to_mm(p.pin_x, units);
    let y = spec_to_mm(p.pin_y, units);
    let rad = spec_to_mm(p.radius, units);
    if x is None || y is None || rad is None {
        None
    } else {
        Some(
            PinV {
                name: spec_display_name(p),
                number: spec_effective_number(p),
                x_mm: x.unwrap(),
                y_mm: y.unwrap(),
                radius_mm: rad.unwrap(),
            },
        )
    }
}

/// A whole sequence of pin records interpreted, in order; nothing when any
/// single conversion fails.
pub open spec fn spec_convert_all(ps: Seq<crate::parser::PinV>, units: Units) -> Option<Seq<PinV>>
    decreases ps.len(),
{
    if ps.len() == 0 {
        Some(Seq::empty())
    } else {
        let prefix = spec_convert_all(ps.drop_last(), units);
        let last = spec_convert_pin(ps.last(), units);
        if prefix is None || last is None {
            None
        } else {
            Some(prefix.unwrap().push(last.unwrap()))
        }
    }
}

/// A pin whose coordinates are well-formed decimals.
pub open spec fn spec_pin_wf(p: PinV) -> bool {
    p.x_mm.wf() && p.y_mm.wf() && p.radius_mm.wf()
}

pub proof fn lemma_convert_all_props(ps: Seq<crate::parser::PinV>, units: Units)
    requires
        spec_convert_all(ps, units) is Some,
    ensures
        spec_convert_all(ps, units).unwrap().len() == ps.len(),
        forall|i: int|
            0 <= i < ps.len() ==> spec_pin_wf(#[trigger] spec_convert_all(ps, units).unwrap()[i]),
    decreases ps.len(),
{
    if ps.len() > 0 {
        lemma_convert_all_props(ps.drop_last(), units);
    }
}

pub proof fn lemma_convert_all_none_app(
    a: Seq<crate::parser::PinV>,
    b: Seq<crate::parser::PinV>,
    units: Units,
)
    requires
        spec_convert_all(a, units) is None,
    ensures
        spec_convert_all(a + b, units) is None,
    decreases b.len(),
{
    if b.len() == 0 {
        assert(a + b =~= a);
    } else {
        lemma_convert_all_none_app(a, b.drop_last(), units);
        assert((a + b).drop_last() =~= a + b.drop_last());
    }
}

/// The pins of one component: the records whose reference designator is
/// `name`, in document order.
pub open spec fn spec_group_of(ps: Seq<crate::parser::PinV>, name: Seq<char>) -> Seq<
    crate::parser::PinV,
>
    decreases ps.len(),
{
    if ps.len() == 0 {
        Seq::empty()
    } else {
        let prefix = spec_group_of(ps.drop_last(), name);
        if ps.last().refdes == name {
            prefix.push(ps.last())
        } else {
            prefix
        }
    }
}

pub proof fn lemma_group_of_add(
    a: Seq<crate::parser::PinV>,
    b: Seq<crate::parser::PinV>,
    name: Seq<char>,
)
    ensures
        spec_group_of(a + b, name) == spec_group_of(a, name) + spec_group_of(b, name),
    decreases b.len(),
{
    if b.len() == 0 {
        assert(a + b =~= a);
        assert(spec_group_of(a, name) + spec_group_of(b, name) =~= spec_group_of(a, name));
    } else {
        lemma_group_of_add(a, b.drop_last(), name);
        assert((a + b).drop_last() =~= a + b.drop_last());
        if b.last().refdes == name {
            assert(spec_group_of(a, name) + spec_group_of(b, name) =~= (spec_group_of(a, name)
                + spec_group_of(b.drop_last(), name)).push(b.last()));
        }
    }
}

/// The distinct reference designators of the pin records, in order of first
/// occurrence.
pub open spec fn spec_refdes_order(ps: Seq<crate::parser::PinV>) -> Seq<Seq<char>>
    decreases ps.len(),
{
    if ps.len() == 0 {
        Seq::empty()
    } else {
        let prefix = spec_refdes_order(ps.drop_last());
        if prefix.contains(ps.last().refdes) {
            prefix
        } else {
            prefix.push(ps.last().refdes)
        }
    }
}

/// The exact sum of a sequence of decimals, from zero; nothing when any
/// partial sum leaves the representation.
pub open spec fn spec_sum(vals: Seq<Decimal>) -> Option<Decimal>
    decreases vals.len(),
{
    if vals.len() == 0 {
        Some(Decimal { mantissa: 0, scale: 0 })
    } else {
        let prefix = spec_sum(vals.drop_last());
        if prefix is None {
            None
        } else {
            spec_add(prefix.unwrap(), vals.last())
        }
    }
}

pub proof fn lemma_sum_none_take(vals: Seq<Decimal>, j: int)
    requires
        0 <= j <= vals.len(),
        spec_sum(vals.take(j)) is None,
    ensures
        spec_sum(vals) is None,
    decreases vals.len() - j,
{
    if j < vals.len() {
        assert(vals.take(j + 1).drop_last() =~= vals.take(j));
        lemma_sum_none_take(vals, j + 1);
    } else {
        assert(vals.take(j) =~= vals);
    }
}

/// Every pin of a group shifted by the group's centroid; nothing when a
/// subtraction leaves the representation.
pub open spec fn spec_center_pins(ps: Seq<PinV>, ax: Decimal, ay: Decimal) -> Option<Seq<PinV>>
    decreases ps.len(),
{
    if ps.len() == 0 {
        Some(Seq::empty())
    } else {
        let prefix = spec_center_pins(ps.drop_last(), ax, ay);
        let p = ps.last();
        let x = spec_sub(p.x_mm, ax);
        let y = spec_sub(p.y_mm, ay);
        if prefix is None || x is None || y is None {
            None
        } else {
            Some(prefix.unwrap().push(PinV { x_mm: x.unwrap(), y_mm: y.unwrap(), ..p }))
        }
    }
}

/// One group of converted pins centered on its own centroid: the mean of
/// the X and of the Y coordinates is computed exactly and subtracted from
/// every pin; nothing when a sum, the division or a subtraction leaves the
/// representation.
pub open spec fn spec_center_group(ps: Seq<PinV>) -> Option<Seq<PinV>> {
    if ps.len() == 0 {
        Some(Seq::empty())
    } else {
        let sx = spec_sum(ps.map_values(|p: PinV| p.x_mm));
        let sy = spec_sum(ps.map_values(|p: PinV| p.y_mm));
        if sx is None || sy is None {
            None
        } else {
            let ax = spec_div(sx.unwrap(), ps.len() as u64);
            let ay = spec_div(sy.unwrap(), ps.len() as u64);
            if ax is None || ay is None {
                None
            } else {
                spec_center_pins(ps, ax.unwrap(), ay.unwrap())
            }
        }
    }
}

/// The footprint of one component: its group of records interpreted and
/// centered; nothing when any step fails.
pub open spec fn spec_footprint_of(
    ps: Seq<crate::parser::PinV>,
    name: Seq<char>,
    units: Units,
) -> Option<Seq<PinV>> {
    let conv = spec_convert_all(spec_group_of(ps, name), units);
    if conv is None {
        None
    } else {
        spec_center_group(conv.unwrap())
    }
}

/// The footprints of the given component names, in order: a name whose
/// group is empty is dropped; the first failing step aborts the whole
/// interpretation.
pub open spec fn spec_footprints(
    names: Seq<Seq<char>>,
    ps: Seq<crate::parser::PinV>,
    units: Units,
) -> Result<Seq<(Seq<char>, FootprintInfoV)>, InterpretError>
    decreases names.len(),
{
    if names.len() == 0 {
        Ok(Seq::empty())
    } else {
        let prefix = spec_footprints(names.drop_last(), ps, units);
        if prefix is Err {
            prefix
        } else {
            let name = names.last();
            if spec_group_of(ps, name).len() == 0 {
                prefix
            } else {
                let fp = spec_footprint_of(ps, name, units);
                if fp is None {
                    Err(InterpretError::ArithmeticOverflow)
                } else {
                    Ok(prefix->Ok_0.push((name, FootprintInfoV { pins: fp.unwrap() })))
                }
            }
        }
    }
}

pub proof fn lemma_footprints_err_take(
    names: Seq<Seq<char>>,
    ps: Seq<crate::parser::PinV>,
    units: Units,
    k: int,
)
    requires
        0 <= k <= names.len(),
        spec_footprints(names.take(k), ps, units) is Err,
    ensures
        spec_footprints(names, ps, units) == spec_footprints(names.take(k), ps, units),
    decreases names.len() - k,
{
    if k < names.len() {
        assert(names.take(k + 1).drop_last() =~= names.take(k));
        lemma_footprints_err_take(names, ps, units, k + 1);
    } else {
        assert(names.take(k) =~= names);
    }
}

/// The whole interpretation of a parsed content document: one footprint
/// per reference designator with at least one pin, in first-occurrence
/// order.
pub open spec fn spec_interpret(content: crate::parser::ContentV) -> Result<
    Seq<(Seq<char>, FootprintInfoV)>,
    InterpretError,
> {
    spec_footprints(spec_refdes_order(content.pins), content.pins, content.units)
}

pub proof fn lemma_center_pins_len(ps: Seq<PinV>, ax: Decimal, ay: Decimal)
    requires
        spec_center_pins(ps, ax, ay) is Some,
    ensures
        spec_center_pins(ps, ax, ay).unwrap().len() == ps.len(),
    decreases ps.len(),
{
    if ps.len() > 0 {
        lemma_center_pins_len(ps.drop_last(), ax, ay);
    }
}

/// No empty footprints: every footprint of a successful interpretation
/// holds at least one pin — a reference designator with no pins is dropped,
/// and centering keeps every pin of its group.
pub proof fn lemma_footprints_nonempty(
    names: Seq<Seq<char>>,
    ps: Seq<crate::parser::PinV>,
    units: Units,
)
    requires
        spec_footprints(names, ps, units) is Ok,
    ensures
        forall|i: int|
            0 <= i < spec_footprints(names, ps, units)->Ok_0.len() ==> (#[trigger] spec_footprints(
                names,
                ps,
                units,
            )->Ok_0[i]).1.pins.len() >= 1,
    decreases names.len(),
{
    if names.len() > 0 {
        let prefix = spec_footprints(names.drop_last(), ps, units);
        lemma_footprints_nonempty(names.drop_last(), ps, units);
        let name = names.last();
        let group = spec_group_of(ps, name);
        if group.len() > 0 {
            let conv = spec_convert_all(group, units).unwrap();
            lemma_convert_all_props(group, units);
            let sx = spec_sum(conv.map_values(|p: PinV| p.x_mm)).unwrap();
            let sy = spec_sum(conv.map_values(|p: PinV| p.y_mm)).unwrap();
            let ax = spec_div(sx, conv.len() as u64).unwrap();
            let ay = spec_div(sy, conv.len() as u64).unwrap();
            lemma_center_pins_len(conv, ax, ay);
        }
    }
}

/// Converts one coordinate to millimeters, as [`spec_to_mm`] describes.
fn to_mm(v: &Decimal, units: Units) -> (r: Option<Decimal>)
    ensures
        r == spec_to_mm(*v, units),
{
    if v.scale > MAX_SCALE {
        return None;
    }
    match units {
        Units::Mils => v.checked_mul(&Decimal::new(254, 4)),
        Units::Millimeters => Some(*v),
    }
}

/// Whether the string is the single character `0`.
fn is_literal_zero(s: &String) -> (r: bool)
    ensures
        r == (s@ == seq!['0']),
{
    let st = s.as_str();
    let n = vstd::string::StrSliceExecFns::unicode_len(st);
    if n != 1 {
        proof {
            assert(s@ != seq!['0']);
        }
        return false;
    }
    let c = vstd::string::StrSliceExecFns::get_char(st, 0);
    if c == '0' {
        proof {
            assert(s@ =~= seq!['0']);
        }
        true
    } else {
        proof {
            assert(s@ != seq!['0']);
        }
        false
    }
}

/// Whether the vector already holds a string with these characters.
fn contains_string(v: &Vec<String>, s: &String) -> (r: bool)
    ensures
        r == v@.map_values(|x: String| x@).contains(s@),
{
    let n = v.len();
    let mut i: usize = 0;
    while i < n
        invariant
            i <= n,
            n == v@.len(),
            forall|k: int| 0 <= k < i ==> v@[k]@ != s@,
        decreases n - i,
    {
        if v[i].eq(s) {
            proof {
                assert(v@.map_values(|x: String| x@)[i as int] == s@);
            }
            return true;
        }
        i = i + 1;
    }
    proof {
        let mapped = v@.map_values(|x: String| x@);
        assert forall|k: int| 0 <= k < mapped.len() implies mapped[k] != s@ by {
            assert(mapped[k] == v@[k]@);
        }
    }
    false
}

/// Interprets one pin record, as [`spec_convert_pin`] describes.
fn convert_pin(p: &crate::parser::Pin, units: Units) -> (r: Option<Pin>)
    ensures
        match r {
            Some(q) => spec_convert_pin(p@, units) == Some(q@),
            None => spec_convert_pin(p@, units) is None,
        },
{
    let x = match to_mm(&p.pin_x, units) {
        Some(v) => v,
        None => {
            return None;
        },
    };
    let y = match to_mm(&p.pin_y, units) {
        Some(v) => v,
        None => {
            return None;
        },
    };
    let rad = match to_mm(&p.radius, units) {
        Some(v) => v,
        None => {
            return None;
        },
    };
    let number = if p.pin_number.as_str().is_empty() || is_literal_zero(&p.pin_number) {
        p.pin_name.clone()
    } else {
        p.pin_number.clone()
    };
    let name = if !number.eq(&p.pin_name) {
        p.pin_name.clone()
    } else {
        p.net_name.clone()
    };
    Some(Pin { name, number, x_mm: x, y_mm: y, radius_mm: rad })
}

impl InterpretedPcbRepairFile {
    /// Interprets a parsed container, exactly as [`spec_interpret`]
    /// describes: pins are grouped by reference designator in
    /// first-occurrence order, converted to millimeters, and each group is
    /// centered on its own centroid.
    #[verifier::loop_isolation(false)]
    #[verifier::rlimit(100)]
    pub fn from_parsed(parsed: &ParsedPcbRepairFile) -> (r: Result<
        InterpretedPcbRepairFile,
        InterpretError,
    >)
        ensures
            match r {
                Ok(out) => spec_interpret(parsed.content@) == Ok::<
                    Seq<(Seq<char>, FootprintInfoV)>,
                    InterpretError,
                >(out@.footprints),
                Err(e) => spec_interpret(parsed.content@) == Err::<
                    Seq<(Seq<char>, FootprintInfoV)>,
                    InterpretError,
                >(e),
            },
    {
        let units = parsed.content.units;
        let pins = &parsed.content.pins;
        let ghost pv = parsed.content@.pins;
        let n = pins.len();
        proof {
            assert(pv.len() == n);
        }

        let mut names: Vec<String> = Vec::new();
        let mut i: usize = 0;
        proof {
            assert(pv.take(0) =~= Seq::<crate::parser::PinV>::empty());
            assert(names@.map_values(|s: String| s@) =~= spec_refdes_order(pv.take(0)));
        }
        while i < n
            invariant
                i <= n,
                n == pins@.len(),
                pv == parsed.content@.pins,
                pv.len() == n,
                names@.map_values(|s: String| s@) == spec_refdes_order(pv.take(i as int)),
            decreases n - i,
        {
            proof {
                assert(pv.take(i as int + 1).drop_last() =~= pv.take(i as int));
                assert(pv.take(i as int + 1).last() == pv[i as int]);
                assert(pv[i as int] == pins@[i as int]@);
            }
            let rd = &pins[i].refdes;
            if !contains_string(&names, rd) {
                let ghost old_names = names@.map_values(|s: String| s@);
                names.push(rd.clone());
                proof {
                    assert(names@.map_values(|s: String| s@) =~= old_names.push(rd@));
                }
            }
            i = i + 1;
        }
        proof {
            assert(pv.take(n as int) =~= pv);
        }
        let ghost order = spec_refdes_order(pv);

        let mut footprints: Vec<(String, FootprintInfo)> = Vec::new();
        let m = names.len();
        let mut g: usize = 0;
        proof {
            assert(order.take(0) =~= Seq::<Seq<char>>::empty());
            assert(footprints@.map_values(|e: (String, FootprintInfo)| (e.0@, e.1@)) =~= Seq::<
                (Seq<char>, FootprintInfoV),
            >::empty());
        }
        while g < m
            invariant
                g <= m,
                m == names@.len(),
                n == pins@.len(),
                pv == parsed.content@.pins,
                pv.len() == n,
                units == parsed.content@.units,
                order == spec_refdes_order(pv),
                names@.map_values(|s: String| s@) == order,
                spec_footprints(order.take(g as int), pv, units) == Ok::<
                    Seq<(Seq<char>, FootprintInfoV)>,
                    InterpretError,
                >(footprints@.map_values(|e: (String, FootprintInfo)| (e.0@, e.1@))),
            decreases m - g,
        {
            let name = &names[g];
            proof {
                assert(names@.map_values(|s: String| s@)[g as int] == name@);
                assert(order.take(g as int + 1).drop_last() =~= order.take(g as int));
                assert(order.take(g as int + 1).last() == order[g as int]);
            }

            // Interpret this component's pins, in document order.
            let mut conv: Vec<Pin> = Vec::new();
            let mut k: usize = 0;
            proof {
                assert(pv.take(0) =~= Seq::<crate::parser::PinV>::empty());
                assert(spec_group_of(pv.take(0), name@) =~= Seq::<crate::parser::PinV>::empty());
                assert(conv@.map_values(|x: Pin| x@) =~= Seq::<PinV>::empty());
            }
            while k < n
                invariant
                    k <= n,
                    n == pins@.len(),
                    pv == parsed.content@.pins,
                    pv.len() == n,
                    units == parsed.content@.units,
                    order == spec_refdes_order(pv),
                    g < m,
                    m == names@.len(),
                    names@.map_values(|s: String| s@) == order,
                    name == &names@[g as int],
                    name@ == order[g as int],
                    spec_footprints(order.take(g as int), pv, units) is Ok,
                    spec_convert_all(spec_group_of(pv.take(k as int), name@), units) == Some(
                        conv@.map_values(|x: Pin| x@),
                    ),
                decreases n - k,
            {
                proof {
                    assert(pv.take(k as int + 1).drop_last() =~= pv.take(k as int));
                    assert(pv.take(k as int + 1).last() == pv[k as int]);
                    assert(pv[k as int] == pins@[k as int]@);
                }
                if pins[k].refdes.eq(name) {
                    proof {
                        assert(spec_group_of(pv.take(k as int + 1), name@) =~= spec_group_of(
                            pv.take(k as int),
                            name@,
                        ).push(pv[k as int]));
                    }
                    match convert_pin(&pins[k], units) {
                        Some(q) => {
                            let ghost old_conv = conv@.map_values(|x: Pin| x@);
                            conv.push(q);
                            proof {
                                assert(conv@.map_values(|x: Pin| x@) =~= old_conv.push(
                                    conv@[conv@.len() - 1]@,
                                ));
                                let grp = spec_group_of(pv.take(k as int + 1), name@);
                                assert(grp.drop_last() =~= spec_group_of(pv.take(k as int), name@));
                            }
                        },
                        None => {
                            proof {
                                let grp1 = spec_group_of(pv.take(k as int + 1), name@);
                                assert(grp1.drop_last() =~= spec_group_of(
                                    pv.take(k as int),
                                    name@,
                                ));
                                assert(spec_convert_all(grp1, units) is None);
                                assert(pv =~= pv.take(k as int + 1) + pv.skip(k as int + 1));
                                lemma_group_of_add(
                                    pv.take(k as int + 1),
                                    pv.skip(k as int + 1),
                                    name@,
                                );
                                lemma_convert_all_none_app(
                                    grp1,
                                    spec_group_of(pv.skip(k as int + 1), name@),
                                    units,
                                );
                                assert(spec_convert_all(spec_group_of(pv, name@), units) is None);
                                assert(grp1.len() > 0);
                                assert(spec_group_of(pv, name@).len() > 0);
                                assert(spec_footprints(order.take(g as int + 1), pv, units)
                                    == Err::<
                                    Seq<(Seq<char>, FootprintInfoV)>,
                                    InterpretError,
                                >(InterpretError::ArithmeticOverflow));
                                lemma_footprints_err_take(order, pv, units, g as int + 1);
                            }
                            return Err(InterpretError::ArithmeticOverflow);
                        },
                    }
                }
                k = k + 1;
            }
            proof {
                assert(pv.take(n as int) =~= pv);
            }
            let ghost cv = conv@.map_values(|x: Pin| x@);
            proof {
                lemma_convert_all_props(spec_group_of(pv, name@), units);
            }

            if conv.len() > 0 {
                // Exact centroid of the group.
                let cnt = conv.len();
                let mut sx = Decimal::new(0, 0);
                let mut sy = Decimal::new(0, 0);
                let mut j: usize = 0;
                proof {
                    assert(cv.map_values(|p: PinV| p.x_mm).take(0) =~= Seq::<Decimal>::empty());
                    assert(cv.map_values(|p: PinV| p.y_mm).take(0) =~= Seq::<Decimal>::empty());
                }
                while j < cnt
                    invariant
                        j <= cnt,
                        cnt == conv@.len(),
                        cv == conv@.map_values(|x: Pin| x@),
                        forall|t: int| 0 <= t < cv.len() ==> spec_pin_wf(#[trigger] cv[t]),
                        sx.wf(),
                        sy.wf(),
                        spec_sum(cv.map_values(|p: PinV| p.x_mm).take(j as int)) == Some(sx),
                        spec_sum(cv.map_values(|p: PinV| p.y_mm).take(j as int)) == Some(sy),
                    decreases cnt - j,
                {
                    let ghost xs = cv.map_values(|p: PinV| p.x_mm);
                    let ghost ys = cv.map_values(|p: PinV| p.y_mm);
                    proof {
                        assert(xs.take(j as int + 1).drop_last() =~= xs.take(j as int));
                        assert(ys.take(j as int + 1).drop_last() =~= ys.take(j as int));
                        assert(xs.take(j as int + 1).last() == cv[j as int].x_mm);
                        assert(ys.take(j as int + 1).last() == cv[j as int].y_mm);
                        assert(cv[j as int] == conv@[j as int]@);
                        assert(spec_pin_wf(cv[j as int]));
                    }
                    let sx2 = match sx.checked_add(&conv[j].x_mm) {
                        Some(v) => v,
                        None => {
                            proof {
                                lemma_sum_none_take(xs, j as int + 1);
                                assert(spec_center_group(cv) is None);
                                assert(spec_footprints(order.take(g as int + 1), pv, units)
                                    == Err::<
                                    Seq<(Seq<char>, FootprintInfoV)>,
                                    InterpretError,
                                >(InterpretError::ArithmeticOverflow));
                                lemma_footprints_err_take(order, pv, units, g as int + 1);
                            }
                            return Err(InterpretError::ArithmeticOverflow);
                        },
                    };
                    let sy2 = match sy.checked_add(&conv[j].y_mm) {
                        Some(v) => v,
                        None => {
                            proof {
                                lemma_sum_none_take(ys, j as int + 1);
                                assert(spec_center_group(cv) is None);
                                assert(spec_footprints(order.take(g as int + 1), pv, units)
                                    == Err::<
                                    Seq<(Seq<char>, FootprintInfoV)>,
                                    InterpretError,
                                >(InterpretError::ArithmeticOverflow));
                                lemma_footprints_err_take(order, pv, units, g as int + 1);
                            }
                            return Err(InterpretError::ArithmeticOverflow);
                        },
                    };
                    sx = sx2;
                    sy = sy2;
                    j = j + 1;
                }
                proof {
                    assert(cv.map_values(|p: PinV| p.x_mm).take(cnt as int) =~= cv.map_values(
                        |p: PinV| p.x_mm,
                    ));
                    assert(cv.map_values(|p: PinV| p.y_mm).take(cnt as int) =~= cv.map_values(
                        |p: PinV| p.y_mm,
                    ));
                }

                let ax = match sx.checked_div_u64(cnt as u64) {
                    Some(v) => v,
                    None => {
                        proof {
                            assert(spec_center_group(cv) is None);
                            assert(spec_footprints(order.take(g as int + 1), pv, units) == Err::<
                                Seq<(Seq<char>, FootprintInfoV)>,
                                InterpretError,
                            >(InterpretError::ArithmeticOverflow));
                            lemma_footprints_err_take(order, pv, units, g as int + 1);
                        }
                        return Err(InterpretError::ArithmeticOverflow);
                    },
                };
                let ay = match sy.checked_div_u64(cnt as u64) {
                    Some(v) => v,
                    None => {
                        proof {
                            assert(spec_center_group(cv) is None);
                            assert(spec_footprints(order.take(g as int + 1), pv, units) == Err::<
                                Seq<(Seq<char>, FootprintInfoV)>,
                                InterpretError,
                            >(InterpretError::ArithmeticOverflow));
                            lemma_footprints_err_take(order, pv, units, g as int + 1);
                        }
                        return Err(InterpretError::ArithmeticOverflow);
                    },
                };

                // Shift every pin by the centroid.
                let mut centered: Vec<Pin> = Vec::new();
                let mut j2: usize = 0;
                proof {
                    assert(cv.take(0) =~= Seq::<PinV>::empty());
                    assert(spec_center_pins(cv.take(0), ax, ay) == Some(
                        Seq::<PinV>::empty(),
                    ));
                    assert(centered@.map_values(|x: Pin| x@) =~= Seq::<PinV>::empty());
                }
                while j2 < cnt
                    invariant
                        j2 <= cnt,
                        cnt == conv@.len(),
                        cv == conv@.map_values(|x: Pin| x@),
                        cnt == cv.len(),
                        forall|t: int| 0 <= t < cv.len() ==> spec_pin_wf(#[trigger] cv[t]),
                        ax.wf(),
                        ay.wf(),
                        pv == parsed.content@.pins,
                        units == parsed.content@.units,
                        order == spec_refdes_order(pv),
                        g < m,
                        name@ == order[g as int],
                        spec_footprints(order.take(g as int), pv, units) is Ok,
                        spec_convert_all(spec_group_of(pv, name@), units) == Some(cv),
                        spec_sum(cv.map_values(|p: PinV| p.x_mm)) == Some(sx),
                        spec_sum(cv.map_values(|p: PinV| p.y_mm)) == Some(sy),
                        spec_div(sx, cnt as u64) == Some(ax),
                        spec_div(sy, cnt as u64) == Some(ay),
                        spec_center_pins(cv.take(j2 as int), ax, ay) == Some(
                            centered@.map_values(|x: Pin| x@),
                        ),
                    decreases cnt - j2,
                {
                    proof {
                        assert(cv.take(j2 as int + 1).drop_last() =~= cv.take(j2 as int));
                        assert(cv.take(j2 as int + 1).last() == cv[j2 as int]);
                        assert(cv[j2 as int] == conv@[j2 as int]@);
                        assert(spec_pin_wf(cv[j2 as int]));
                    }
                    let x2 = match conv[j2].x_mm.checked_sub(&ax) {
                        Some(v) => v,
                        None => {
                            proof {
                                lemma_center_pins_none_take(cv, ax, ay, j2 as int + 1);
                                assert(spec_center_group(cv) is None);
                                assert(spec_footprints(order.take(g as int + 1), pv, units)
                                    == Err::<
                                    Seq<(Seq<char>, FootprintInfoV)>,
                                    InterpretError,
                                >(InterpretError::ArithmeticOverflow));
                                lemma_footprints_err_take(order, pv, units, g as int + 1);
                            }
                            return Err(InterpretError::ArithmeticOverflow);
                        },
                    };
                    let y2 = match conv[j2].y_mm.checked_sub(&ay) {
                        Some(v) => v,
                        None => {
                            proof {
                                lemma_center_pins_none_take(cv, ax, ay, j2 as int + 1);
                                assert(spec_center_group(cv) is None);
                                assert(spec_footprints(order.take(g as int + 1), pv, units)
                                    == Err::<
                                    Seq<(Seq<char>, FootprintInfoV)>,
                                    InterpretError,
                                >(InterpretError::ArithmeticOverflow));
                                lemma_footprints_err_take(order, pv, units, g as int + 1);
                            }
                            return Err(InterpretError::ArithmeticOverflow);
                        },
                    };
                    let p2 = Pin {
                        name: conv[j2].name.clone(),
                        number: conv[j2].number.clone(),
                        x_mm: x2,
                        y_mm: y2,
                        radius_mm: conv[j2].radius_mm,
                    };
                    let ghost old_centered = centered@.map_values(|x: Pin| x@);
                    centered.push(p2);
                    proof {
                        assert(centered@.map_values(|x: Pin| x@) =~= old_centered.push(
                            centered@[centered@.len() - 1]@,
                        ));
                        assert(centered@[centered@.len() - 1]@ =~= (PinV {
                            x_mm: x2,
                            y_mm: y2,
                            ..cv[j2 as int]
                        }));
                    }
                    j2 = j2 + 1;
                }
                proof {
                    assert(cv.take(cnt as int) =~= cv);
                }

                let fp = FootprintInfo { pins: centered };
                let ghost old_fps = footprints@.map_values(
                    |e: (String, FootprintInfo)| (e.0@, e.1@),
                );
                footprints.push((name.clone(), fp));
                proof {
                    assert(footprints@.map_values(|e: (String, FootprintInfo)| (e.0@, e.1@)) =~=
                        old_fps.push(
                        (
                            footprints@[footprints@.len() - 1].0@,
                            footprints@[footprints@.len() - 1].1@,
                        ),
                    ));
                    assert(spec_center_group(cv) == Some(
                        footprints@[footprints@.len() - 1].1@.pins,
                    ));
                    assert(spec_group_of(pv, name@).len() > 0);
                    assert(spec_footprints(order.take(g as int + 1), pv, units) == Ok::<
                        Seq<(Seq<char>, FootprintInfoV)>,
                        InterpretError,
                    >(footprints@.map_values(|e: (String, FootprintInfo)| (e.0@, e.1@))));
                }
            } else {
                proof {
                    assert(cv =~= Seq::<PinV>::empty());
                    assert(spec_group_of(pv, name@).len() == 0);
                    assert(spec_footprints(order.take(g as int + 1), pv, units) == Ok::<
                        Seq<(Seq<char>, FootprintInfoV)>,
                        InterpretError,
                    >(footprints@.map_values(|e: (String, FootprintInfo)| (e.0@, e.1@))));
                }
            }
            g = g + 1;
        }
        proof {
            assert(order.take(m as int) =~= order);
        }
        Ok(InterpretedPcbRepairFile { footprints })
    }
}

/// The sum of the values of a sequence of decimals, as exact integer
/// counts of `10^-MAX_SCALE` (see [`spec_val`]).
pub open spec fn spec_val_sum(vals: Seq<Decimal>) -> int
    decreases vals.len(),
{
    if vals.len() == 0 {
        0
    } else {
        spec_val_sum(vals.drop_last()) + spec_val(vals.last())
    }
}

/// A sum that succeeds is exact: its value is the sum of the values.
pub proof fn lemma_sum_val(vals: Seq<Decimal>)
    requires
        forall|i: int| 0 <= i < vals.len() ==> (#[trigger] vals[i]).wf(),
        spec_sum(vals) is Some,
    ensures
        spec_sum(vals).unwrap().wf(),
        spec_val(spec_sum(vals).unwrap()) == spec_val_sum(vals),
    decreases vals.len(),
{
    if vals.len() == 0 {
        let z = Decimal { mantissa: 0, scale: 0 };
        let p = crate::decimal::pow10((MAX_SCALE - z.scale) as nat);
        assert(0 * p == 0) by (nonlinear_arith);
        assert(spec_val(z) == 0);
    } else {
        assert(forall|i: int|
            0 <= i < vals.drop_last().len() ==> (#[trigger] vals.drop_last()[i]).wf());
        lemma_sum_val(vals.drop_last());
        crate::decimal::lemma_add_val(
            spec_sum(vals.drop_last()).unwrap(),
            vals.last(),
            spec_sum(vals).unwrap(),
        );
    }
}

/// A centering pass that succeeds shifts each coordinate exactly: the
/// centered values sum to the original values' sum minus the count times
/// the centroid coordinate.
pub proof fn lemma_center_pins_val(ps: Seq<PinV>, ax: Decimal, ay: Decimal, cs: Seq<PinV>)
    requires
        forall|i: int| 0 <= i < ps.len() ==> spec_pin_wf(#[trigger] ps[i]),
        ax.wf(),
        ay.wf(),
        spec_center_pins(ps, ax, ay) == Some(cs),
    ensures
        cs.len() == ps.len(),
        spec_val_sum(cs.map_values(|p: PinV| p.x_mm)) == spec_val_sum(
            ps.map_values(|p: PinV| p.x_mm),
        ) - ps.len() * spec_val(ax),
        spec_val_sum(cs.map_values(|p: PinV| p.y_mm)) == spec_val_sum(
            ps.map_values(|p: PinV| p.y_mm),
        ) - ps.len() * spec_val(ay),
    decreases ps.len(),
{
    if ps.len() == 0 {
        assert(cs.map_values(|p: PinV| p.x_mm) =~= Seq::<Decimal>::empty());
        assert(cs.map_values(|p: PinV| p.y_mm) =~= Seq::<Decimal>::empty());
        assert(ps.map_values(|p: PinV| p.x_mm) =~= Seq::<Decimal>::empty());
        assert(ps.map_values(|p: PinV| p.y_mm) =~= Seq::<Decimal>::empty());
    } else {
        let pre_ps = ps.drop_last();
        let pre_cs = spec_center_pins(pre_ps, ax, ay).unwrap();
        assert(forall|i: int| 0 <= i < pre_ps.len() ==> spec_pin_wf(#[trigger] pre_ps[i]));
        lemma_center_pins_val(pre_ps, ax, ay, pre_cs);
        let p = ps.last();
        let x = crate::decimal::spec_sub(p.x_mm, ax).unwrap();
        let y = crate::decimal::spec_sub(p.y_mm, ay).unwrap();
        assert(spec_pin_wf(p));
        crate::decimal::lemma_sub_val(p.x_mm, ax, x);
        crate::decimal::lemma_sub_val(p.y_mm, ay, y);
        assert(cs =~= pre_cs.push(PinV { x_mm: x, y_mm: y, ..p }));
        assert(cs.map_values(|q: PinV| q.x_mm).drop_last() =~= pre_cs.map_values(
            |q: PinV| q.x_mm,
        ));
        assert(cs.map_values(|q: PinV| q.y_mm).drop_last() =~= pre_cs.map_values(
            |q: PinV| q.y_mm,
        ));
        assert(ps.map_values(|q: PinV| q.x_mm).drop_last() =~= pre_ps.map_values(
            |q: PinV| q.x_mm,
        ));
        assert(ps.map_values(|q: PinV| q.y_mm).drop_last() =~= pre_ps.map_values(
            |q: PinV| q.y_mm,
        ));
        let l = ps.len() as int;
        assert((l - 1) * spec_val(ax) + spec_val(ax) == l * spec_val(ax)) by (nonlinear_arith);
        assert((l - 1) * spec_val(ay) + spec_val(ay) == l * spec_val(ay)) by (nonlinear_arith);
    }
}

/// Centering law: for a group of pins whose coordinate sums exist and whose
/// two centroid divisions are exact (the count divides each sum without a
/// remainder), the centered coordinates sum to zero — the arithmetic mean
/// of the centered pin positions is exactly the origin.
pub proof fn lemma_centering_mean_zero(
    ps: Seq<PinV>,
    sx: Decimal,
    sy: Decimal,
    ax: Decimal,
    ay: Decimal,
    cs: Seq<PinV>,
)
    requires
        forall|i: int| 0 <= i < ps.len() ==> spec_pin_wf(#[trigger] ps[i]),
        ax.wf(),
        ay.wf(),
        spec_sum(ps.map_values(|p: PinV| p.x_mm)) == Some(sx),
        spec_sum(ps.map_values(|p: PinV| p.y_mm)) == Some(sy),
        spec_val(ax) * ps.len() == spec_val(sx),
        spec_val(ay) * ps.len() == spec_val(sy),
        spec_center_pins(ps, ax, ay) == Some(cs),
    ensures
        spec_val_sum(cs.map_values(|p: PinV| p.x_mm)) == 0,
        spec_val_sum(cs.map_values(|p: PinV| p.y_mm)) == 0,
{
    let xs = ps.map_values(|p: PinV| p.x_mm);
    let ys = ps.map_values(|p: PinV| p.y_mm);
    assert(forall|i: int| 0 <= i < xs.len() ==> (#[trigger] xs[i]).wf()) by {
        assert(forall|i: int| 0 <= i < ps.len() ==> spec_pin_wf(#[trigger] ps[i]));
        assert(forall|i: int| 0 <= i < xs.len() ==> xs[i] == ps[i].x_mm);
    }
    assert(forall|i: int| 0 <= i < ys.len() ==> (#[trigger] ys[i]).wf()) by {
        assert(forall|i: int| 0 <= i < ys.len() ==> ys[i] == ps[i].y_mm);
    }
    lemma_sum_val(xs);
    lemma_sum_val(ys);
    lemma_center_pins_val(ps, ax, ay, cs);
    let l = ps.len() as int;
    assert(l * spec_val(ax) == spec_val(ax) * l) by (nonlinear_arith);
    assert(l * spec_val(ay) == spec_val(ay) * l) by (nonlinear_arith);
}

pub proof fn lemma_center_pins_none_take(ps: Seq<PinV>, ax: Decimal, ay: Decimal, j: int)
    requires
        0 <= j <= ps.len(),
        spec_center_pins(ps.take(j), ax, ay) is None,
    ensures
        spec_center_pins(ps, ax, ay) is None,
    decreases ps.len() - j,
{
    if j < ps.len() {
        assert(ps.take(j + 1).drop_last() =~= ps.take(j));
        lemma_center_pins_none_take(ps, ax, ay, j + 1);
    } else {
        assert(ps.take(j) =~= ps);
    }
}

} // verus!
