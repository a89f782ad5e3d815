//! Classification of a measurement after the WHO and DGE tables, and the
//! marker position on the result gauge.
use vstd::prelude::*;
use crate::number::{Decimal, pow10, lemma_pow10_positive, lemma_pow10_monotone};
use crate::digits::{
    digits_num, all_decimal, canonical, lemma_push, append_number, div_small, capped_value,
};
use vstd::arithmetic::div_mod::{
    lemma_div_is_ordered, lemma_div_is_ordered_by_denominator, lemma_div_basics,
    lemma_div_denominator, lemma_div_multiples_vanish, lemma_fundamental_div_mod,
    lemma_fundamental_div_mod_converse, lemma_mod_pos_bound,
};

verus! {

#[derive(Clone, Copy, Debug, PartialEq, Eq, Structural)]
pub enum Gender {
    Male,
    Female,
}

pub open spec fn selected_gender(index: int) -> Gender {
    if index == 1 {
        Gender::Female
    } else {
        Gender::Male
    }
}

impl Gender {
    /// The gender at a position of the two-item selector, male first; any
    /// other position, such as no selection, counts as male.
    pub fn from_selected(index: u32) -> (g: Gender)
        ensures
            g == selected_gender(index as int),
    {
        if index == 1 {
            Gender::Female
        } else {
            Gender::Male
        }
    }
}

/// The six ordered weight bands.
#[derive(Clone, Copy, Debug, PartialEq, Eq, Structural)]
pub enum Bucket {
    Underweight,
    Normal,
    Overweight,
    ObeseClassI,
    ObeseClassII,
    ObeseClassIII,
}

#[derive(Clone, Copy, Debug, PartialEq, Eq, Structural)]
pub enum ClassifierError {
    /// An entry is not a number.
    InvalidInput,
    /// Weight or height is zero or negative.
    InvalidMeasurement,
}

#[derive(Clone, Debug, PartialEq, Eq)]
pub struct ClassificationResult {
    /// The decimal digits of the BMI in tenths, rounded down, without
    /// leading zeros (none at all for zero).
    pub bmi_tenths: Vec<u8>,
    /// The WHO band.
    pub bucket: Bucket,
    /// The DGE band for the given gender.
    pub dge_bucket: Bucket,
    /// The marker's exact distance from the start of the gauge, in
    /// 1/1400 of a pixel: every position the gauge can show is a whole
    /// number of these units.
    pub scale_marker_position: u32,
}

pub open spec fn who_bucket(t: int) -> Bucket {
    if t < 185 {
        Bucket::Underweight
    } else if t <= 249 {
        Bucket::Normal
    } else if t <= 299 {
        Bucket::Overweight
    } else if t <= 349 {
        Bucket::ObeseClassI
    } else if t <= 399 {
        Bucket::ObeseClassII
    } else {
        Bucket::ObeseClassIII
    }
}

/// The DGE band of a BMI given in tenths: the three lowest bands depend on
/// the gender, the obese classes do not.
pub open spec fn dge_bucket(t: int, g: Gender) -> Bucket {
    let normal_from: int = if g == Gender::Male { 200 } else { 190 };
    let normal_to: int = if g == Gender::Male { 249 } else { 239 };
    if t < normal_from {
        Bucket::Underweight
    } else if t <= normal_to {
        Bucket::Normal
    } else if t <= 299 {
        Bucket::Overweight
    } else if t <= 349 {
        Bucket::ObeseClassI
    } else if t <= 399 {
        Bucket::ObeseClassII
    } else {
        Bucket::ObeseClassIII
    }
}

/// The marker's position within a band, in 1/1400 of a pixel (a unit in which
/// every band's slope is whole): the band starts at `lower` tenths of BMI and
/// spans `width` tenths, over which the marker moves 56 px, starting from
/// `56 * index - 13` px.
pub open spec fn band_position(t: int, lower: int, width: int, index: int) -> int {
    (56 * 1400) as int / width * (t - lower) + 1400 * (56 * index - 13)
}

proof fn lemma_band_slopes()
    ensures
        (56 * 1400) as int / 80 == 980,
        (56 * 1400) as int / 64 == 1225,
        (56 * 1400) as int / 49 == 1600,
        (56 * 1400) as int / 200 == 392,
{
    assert((56 * 1400) as int / 80 == 980) by (nonlinear_arith);
    assert((56 * 1400) as int / 64 == 1225) by (nonlinear_arith);
    assert((56 * 1400) as int / 49 == 1600) by (nonlinear_arith);
    assert((56 * 1400) as int / 200 == 392) by (nonlinear_arith);
}

/// The marker's position for a BMI given in tenths, in 1/1400 of a pixel,
/// held at 0 below and at 310 px above.
pub open spec fn marker_position(t: int) -> int {
    if t < 185 {
        let p = band_position(t, 185, 80, 1);
        if p < 0 { 0 } else { p }
    } else if t <= 249 {
        band_position(t, 185, 64, 1)
    } else if t <= 299 {
        band_position(t, 250, 49, 2)
    } else if t <= 349 {
        band_position(t, 300, 49, 3)
    } else if t <= 399 {
        band_position(t, 350, 49, 4)
    } else {
        let p = band_position(t, 400, 200, 5);
        if p > 310 * 1400 { (310 * 1400) as int } else { p }
    }
}

/// Ten times the BMI is `tenfold_numerator / tenfold_denominator`: with the
/// weight `wm / 10^ws` kg and the height `hm / (100 * 10^hs)` m, ten times
/// the weight over the squared height.
pub open spec fn tenfold_numerator(w: Decimal, h: Decimal) -> int {
    10 * w.mantissa * (100 * pow10(h.scale as nat)) * (100 * pow10(h.scale as nat))
}

pub open spec fn tenfold_denominator(w: Decimal, h: Decimal) -> int {
    h.mantissa * h.mantissa * pow10(w.scale as nat)
}

/// The BMI in tenths, rounded down.
pub open spec fn bmi_tenths(w: Decimal, h: Decimal) -> int {
    tenfold_numerator(w, h) / tenfold_denominator(w, h)
}

/// Both terms of the exact computation fit in 128 bits.

/// `res` is the classification of a BMI of `t` tenths.
pub open spec fn classifies(res: ClassificationResult, t: int, g: Gender) -> bool {
    &&& canonical(res.bmi_tenths@)
    &&& digits_num(res.bmi_tenths@) == t
    &&& res.bucket == who_bucket(t)
    &&& res.dge_bucket == dge_bucket(t, g)
    &&& res.scale_marker_position == marker_position(t)
}

proof fn lemma_pow10_add(a: nat, b: nat)
    ensures
        pow10(a + b) == pow10(a) * pow10(b),
    decreases b,
{
    if b > 0 {
        lemma_pow10_add(a, (b - 1) as nat);
        assert(pow10(a + b) == 10 * pow10((a + b - 1) as nat));
        assert(10 * (pow10(a) * pow10((b - 1) as nat)) == pow10(a) * (10 * pow10(
            (b - 1) as nat,
        ))) by (nonlinear_arith);
    }
}

impl Bucket {
    /// The WHO band of a BMI given in tenths.
    pub fn who(bmi_tenths: u128) -> (b: Bucket)
        ensures
            b == who_bucket(bmi_tenths as int),
    {
        if bmi_tenths < 185 {
            Bucket::Underweight
        } else if bmi_tenths <= 249 {
            Bucket::Normal
        } else if bmi_tenths <= 299 {
            Bucket::Overweight
        } else if bmi_tenths <= 349 {
            Bucket::ObeseClassI
        } else if bmi_tenths <= 399 {
            Bucket::ObeseClassII
        } else {
            Bucket::ObeseClassIII
        }
    }

    /// The DGE band of a BMI given in tenths.
    pub fn dge(bmi_tenths: u128, gender: Gender) -> (b: Bucket)
        ensures
            b == dge_bucket(bmi_tenths as int, gender),
    {
        let (normal_from, normal_to): (u128, u128) = match gender {
            Gender::Male => (200, 249),
            Gender::Female => (190, 239),
        };
        if bmi_tenths < normal_from {
            Bucket::Underweight
        } else if bmi_tenths <= normal_to {
            Bucket::Normal
        } else if bmi_tenths <= 299 {
            Bucket::Overweight
        } else if bmi_tenths <= 349 {
            Bucket::ObeseClassI
        } else if bmi_tenths <= 399 {
            Bucket::ObeseClassII
        } else {
            Bucket::ObeseClassIII
        }
    }
}

/// The units of a marker position in one pixel.
pub const MARKER_UNITS_PER_PIXEL: u32 = 1400;

/// The marker's exact position on the gauge, in 1/1400 of a pixel, for a
/// BMI given in tenths.
pub fn scale_marker_position(bmi_tenths: u128) -> (r: u32)
    ensures
        r == marker_position(bmi_tenths as int),
{
    if bmi_tenths >= 600 {
        proof {
            lemma_band_slopes();
        }
        return 434000;
    }
    let t = bmi_tenths as i64;
    let p: i64 = if t < 185 {
        let p = 980 * (t - 185) + 60200;
        if p < 0 {
            0
        } else {
            p
        }
    } else if t <= 249 {
        1225 * (t - 185) + 60200
    } else if t <= 299 {
        1600 * (t - 250) + 138600
    } else if t <= 349 {
        1600 * (t - 300) + 217000
    } else if t <= 399 {
        1600 * (t - 350) + 295400
    } else {
        let p = 392 * (t - 400) + 373800;
        if p > 434000 {
            434000
        } else {
            p
        }
    };
    assert(p == marker_position(t as int));
    p as u32
}

proof fn lemma_product_at_least(x: int, y: int)
    requires
        x >= 0,
        y >= 1,
    ensures
        x * y >= x,
        y * x >= x,
{
    assert(x * y >= x) by (nonlinear_arith)
        requires
            x >= 0,
            y >= 1,
    ;
}

/// Classifies a measurement: weight in kilograms, height in centimetres.
/// Classifies a measurement: weight in kilograms, height in centimetres.
/// Every positive measurement has a classification, computed exactly.
pub fn classify(weight_kg: Decimal, height_cm: Decimal, gender: Gender) -> (r: Result<
    ClassificationResult,
    ClassifierError,
>)
    ensures
        match r {
            Ok(res) => {
                &&& weight_kg.mantissa > 0
                &&& height_cm.mantissa > 0
                &&& classifies(res, bmi_tenths(weight_kg, height_cm), gender)
            },
            Err(e) => {
                &&& e == ClassifierError::InvalidMeasurement
                &&& (weight_kg.mantissa <= 0 || height_cm.mantissa <= 0)
            },
        },
{
    if weight_kg.mantissa <= 0 || height_cm.mantissa <= 0 {
        return Err(ClassifierError::InvalidMeasurement);
    }
    let digits = bmi_digits(weight_kg, height_cm);
    let t = capped_value(&digits, 1000);
    proof {
        let exact = bmi_tenths(weight_kg, height_cm);
        if exact > 1000 {
            lemma_marker_held_at_end(exact);
            lemma_marker_held_at_end(1000);
        }
    }
    Ok(
        ClassificationResult {
            bmi_tenths: digits,
            bucket: Bucket::who(t),
            dge_bucket: Bucket::dge(t, gender),
            scale_marker_position: scale_marker_position(t),
        },
    )
}

/// The digits of `m * 10^z`.
fn scaled_digits(m: u128, z: u128) -> (v: Vec<u8>)
    ensures
        all_decimal(v@),
        digits_num(v@) == m * pow10(z as nat),
{
    let mut v: Vec<u8> = Vec::new();
    proof {
        assert(digits_num(v@) == 0);
    }
    append_number(&mut v, m);
    let mut j: u128 = 0;
    assert(pow10(0) == 1);
    while j < z
        invariant
            j <= z,
            all_decimal(v@),
            digits_num(v@) == m * pow10(j as nat),
        decreases z - j,
    {
        proof {
            lemma_push(v@, 0);
            assert(pow10((j + 1) as nat) == 10 * pow10(j as nat));
            assert(m * pow10(j as nat) * 10 == m * (10 * pow10(j as nat))) by (nonlinear_arith);
        }
        v.push(0);
        j += 1;
    }
    v
}

/// The digits of `x / 10^z`, for `z` up to 40.
fn shift_right(x: Vec<u8>, z: u128) -> (q: Vec<u8>)
    requires
        all_decimal(x@),
    ensures
        canonical(q@),
        digits_num(q@) == digits_num(x@) as int / pow10(z as nat),
{
    let mut q = div_small(&x, 1);
    let mut j: u128 = 0;
    assert(pow10(0) == 1);
    while j < z
        invariant
            j <= z,
            canonical(q@),
            digits_num(q@) == digits_num(x@) as int / pow10(j as nat),
        decreases z - j,
    {
        proof {
            lemma_pow10_positive(j as nat);
            lemma_div_denominator(digits_num(x@) as int, pow10(j as nat), 10);
            assert(pow10((j + 1) as nat) == pow10(j as nat) * 10);
        }
        q = div_small(&q, 10);
        j += 1;
    }
    q
}

/// The digits of the BMI in tenths, rounded down, for a positive measurement.
#[verifier::rlimit(40)]
fn bmi_digits(w: Decimal, h: Decimal) -> (r: Vec<u8>)
    requires
        w.mantissa > 0,
        h.mantissa > 0,
    ensures
        canonical(r@),
        digits_num(r@) == bmi_tenths(w, h),
{
    let wm = w.mantissa as u128;
    let hm = h.mantissa as u128;
    // ten times the BMI is wm * 10^(e + 1) / (hm^2 * 10^ws), with e = 2 * hs + 4
    let e: u128 = 2 * (h.scale as u128) + 4;
    let ws = w.scale as u128;
    let ghost num = tenfold_numerator(w, h);
    let ghost den = tenfold_denominator(w, h);
    let ghost hh = hm as int * hm as int;
    proof {
        lemma_pow10_positive(ws as nat);
        lemma_pow10_positive(h.scale as nat);
        lemma_pow10_add(h.scale as nat, h.scale as nat);
        assert(pow10(2) == 100) by {
            reveal_with_fuel(pow10, 3);
        }
        lemma_pow10_add(2, h.scale as nat);
        lemma_pow10_add(2 + h.scale as nat, 2 + h.scale as nat);
        let ph = pow10(h.scale as nat);
        assert(100 * ph * (100 * ph) == pow10((e) as nat)) by (nonlinear_arith)
            requires
                pow10((2 + h.scale) as nat) == 100 * ph,
                pow10(e as nat) == pow10((2 + h.scale) as nat) * pow10((2 + h.scale) as nat),
        ;
        assert(pow10((e + 1) as nat) == 10 * pow10(e as nat));
        assert(num == wm * pow10((e + 1) as nat)) by (nonlinear_arith)
            requires
                num == 10 * wm * (100 * ph) * (100 * ph),
                100 * ph * (100 * ph) == pow10(e as nat),
                pow10((e + 1) as nat) == 10 * pow10(e as nat),
        ;
        assert(hh >= 1) by (nonlinear_arith)
            requires
                hm >= 1,
                hh == hm as int * hm as int,
        ;
    }
    if e >= ws {
        let z = e + 1 - ws;
        let x = scaled_digits(wm, z);
        let q1 = div_small(&x, hm);
        let q2 = div_small(&q1, hm);
        proof {
            let p = pow10(ws as nat);
            let xv = digits_num(x@) as int;
            lemma_pow10_add(z as nat, ws as nat);
            assert(num == xv * p) by (nonlinear_arith)
                requires
                    num == wm * pow10((e + 1) as nat),
                    pow10((e + 1) as nat) == pow10(z as nat) * p,
                    xv == wm * pow10(z as nat),
            ;
            lemma_div_denominator(xv, hm as int, hm as int);
            lemma_div_denominator(xv * p, p, hh);
            lemma_div_multiples_vanish(xv, p);
            assert(p * xv == xv * p) by (nonlinear_arith);
            assert(den == p * hh) by (nonlinear_arith)
                requires
                    den == hm * hm * p,
                    hh == hm as int * hm as int,
            ;
        }
        q2
    } else {
        let z = ws - e;
        let x = scaled_digits(wm, 1);
        let q1 = div_small(&x, hm);
        let q2 = div_small(&q1, hm);
        let ghost xv = digits_num(x@) as int;
        let ghost pe = pow10(e as nat);
        let ghost pz = pow10(z as nat);
        proof {
            assert(pow10(1) == 10) by {
                reveal_with_fuel(pow10, 2);
            }
            lemma_pow10_positive(e as nat);
            lemma_pow10_positive(z as nat);
            lemma_pow10_add(e as nat, z as nat);
            assert(num == xv * pe) by (nonlinear_arith)
                requires
                    num == wm * pow10((e + 1) as nat),
                    pow10((e + 1) as nat) == 10 * pe,
                    xv == wm * 10,
            ;
            assert(den == (hh * pz) * pe) by (nonlinear_arith)
                requires
                    den == hm * hm * pow10(ws as nat),
                    pow10(ws as nat) == pe * pz,
                    hh == hm as int * hm as int,
            ;
            assert(hh * pz >= 1) by (nonlinear_arith)
                requires
                    hh >= 1,
                    pz >= 1,
            ;
            lemma_div_denominator(xv * pe, pe, hh * pz);
            lemma_div_multiples_vanish(xv, pe);
            assert(pe * xv == xv * pe) by (nonlinear_arith);
            assert((hh * pz) * pe == pe * (hh * pz)) by (nonlinear_arith);
            lemma_div_denominator(xv, hm as int, hm as int);
            lemma_div_denominator(xv, hh, pz);
            assert(bmi_tenths(w, h) == (xv / hh) / pz);
        }
        if z > 40 {
            proof {
                reveal_with_fuel(pow10, 41);
                lemma_pow10_monotone(40, z as nat);
                assert(xv < pow10(40));
                lemma_div_is_ordered(0, xv, hh);
                lemma_div_basics(xv);
                lemma_div_is_ordered_by_denominator(xv, 1, hh);
                lemma_fundamental_div_mod_converse(xv / hh, pz, 0, xv / hh);
            }
            let r: Vec<u8> = Vec::new();
            proof {
                assert(digits_num(r@) == 0);
            }
            return r;
        }
        shift_right(q2, z)
    }
}

/// The reported BMI is ten times the weight over the squared height in
/// metres, rounded down, in tenths: the largest `t` with
/// `t <= 10 * weight / (height / 100)^2`.
pub proof fn lemma_bmi_rounds_down_to_tenth(w: Decimal, h: Decimal)
    requires
        w.mantissa > 0,
        h.mantissa > 0,
    ensures
        bmi_tenths(w, h) * tenfold_denominator(w, h) <= tenfold_numerator(w, h),
        tenfold_numerator(w, h) < (bmi_tenths(w, h) + 1) * tenfold_denominator(w, h),
        bmi_tenths(w, h) >= 0,
{
    let num = tenfold_numerator(w, h);
    let den = tenfold_denominator(w, h);
    lemma_pow10_positive(w.scale as nat);
    lemma_pow10_positive(h.scale as nat);
    lemma_product_at_least(h.mantissa as int, h.mantissa as int);
    lemma_product_at_least(h.mantissa * h.mantissa, pow10(w.scale as nat));
    let c = 100 * pow10(h.scale as nat);
    lemma_product_at_least(10 * w.mantissa, c);
    lemma_product_at_least(10 * w.mantissa * c, c);
    assert(den > 0);
    assert(num >= 0);
    lemma_fundamental_div_mod(num, den);
    lemma_mod_pos_bound(num, den);
    let t = num / den;
    assert(t * den <= num < (t + 1) * den) by (nonlinear_arith)
        requires
            num == den * t + num % den,
            0 <= num % den < den,
    ;
    assert(t >= 0) by (nonlinear_arith)
        requires
            t * den <= num < (t + 1) * den,
            den >= 1,
            num >= 0,
    ;
}

/// Classification is a function of the measurement alone: two results for
/// equal inputs show the same BMI, bands and marker position.
pub proof fn lemma_classify_deterministic(
    w: Decimal,
    h: Decimal,
    g: Gender,
    r1: ClassificationResult,
    r2: ClassificationResult,
)
    requires
        classifies(r1, bmi_tenths(w, h), g),
        classifies(r2, bmi_tenths(w, h), g),
    ensures
        digits_num(r1.bmi_tenths@) == digits_num(r2.bmi_tenths@),
        r1.bucket == r2.bucket,
        r1.dge_bucket == r2.dge_bucket,
        r1.scale_marker_position == r2.scale_marker_position,
{
}

/// The marker never moves back as the BMI grows, and stays on the gauge,
/// between 0 and 310 px; so does the whole-pixel margin shown for it.
pub proof fn lemma_marker_monotone(t1: int, t2: int)
    requires
        t1 <= t2,
    ensures
        marker_position(t1) <= marker_position(t2),
        0 <= marker_position(t1) <= 310 * 1400,
        0 <= marker_position(t2) <= 310 * 1400,
        marker_position(t1) / 1400 <= marker_position(t2) / 1400,
{
    lemma_band_slopes();
    assert(0 <= marker_position(t1) <= 310 * 1400);
    assert(0 <= marker_position(t2) <= 310 * 1400);
    lemma_div_is_ordered(marker_position(t1), marker_position(t2), 1400);
}

/// From a BMI of 60.0 on, the marker rests at the end of the gauge, 310 px.
pub proof fn lemma_marker_held_at_end(t: int)
    requires
        t >= 600,
    ensures
        marker_position(t) == 310 * 1400,
{
    lemma_band_slopes();
}

/// Every positive measurement puts the marker on the gauge, between 0 and
/// 310 px, and from a BMI of 60.0 on at its end, in the highest band of
/// both tables.
pub proof fn lemma_classified_marker_on_gauge(w: Decimal, h: Decimal, g: Gender)
    requires
        w.mantissa > 0,
        h.mantissa > 0,
    ensures
        0 <= marker_position(bmi_tenths(w, h)) <= 310 * 1400,
        bmi_tenths(w, h) >= 600 ==> {
            &&& marker_position(bmi_tenths(w, h)) == 310 * 1400
            &&& who_bucket(bmi_tenths(w, h)) == Bucket::ObeseClassIII
            &&& dge_bucket(bmi_tenths(w, h), g) == Bucket::ObeseClassIII
        },
{
    let t = bmi_tenths(w, h);
    lemma_marker_monotone(t, t);
    if t >= 600 {
        lemma_marker_held_at_end(t);
    }
}

} // verus!
