use bmicalculator::bmi::{
    classify, scale_marker_position, Bucket, MARKER_UNITS_PER_PIXEL, ClassificationResult, ClassifierError, Gender,
};
use bmicalculator::form::classify_entries;
use bmicalculator::number::Decimal;

/// The number that a result's BMI digits spell, where it fits.
fn tenths(digits: &[u8]) -> u128 {
    digits.iter().fold(0u128, |v, d| v * 10 + *d as u128)
}

fn dec(mantissa: i128, scale: usize) -> Decimal {
    Decimal { mantissa, scale }
}

#[test]
fn boundary_at_normal_band_start() {
    let r = classify(dec(74, 0), dec(200, 0), Gender::Male).unwrap();
    assert_eq!(tenths(&r.bmi_tenths), 185);
    assert_eq!(r.bucket, Bucket::Normal);
    assert_eq!(r.scale_marker_position, 60200);
    let f = classify(dec(74, 0), dec(200, 0), Gender::Female).unwrap();
    assert_eq!(f.bucket, Bucket::Normal);
    assert_eq!(f.scale_marker_position, 60200);
}

#[test]
fn overweight_male_at_twenty_five() {
    let r = classify(dec(5625, 2), dec(150, 0), Gender::Male).unwrap();
    assert_eq!(tenths(&r.bmi_tenths), 250);
    assert_eq!(r.bucket, Bucket::Overweight);
    assert_eq!(r.dge_bucket, Bucket::Overweight);
}

#[test]
fn normal_female() {
    let r = classify(dec(475, 1), dec(150, 0), Gender::Female).unwrap();
    assert_eq!(tenths(&r.bmi_tenths), 211);
    assert_eq!(r.bucket, Bucket::Normal);
    assert_eq!(r.dge_bucket, Bucket::Normal);
}

#[test]
fn underweight_marker_held_at_zero() {
    let r = classify(dec(40, 0), dec(200, 0), Gender::Male).unwrap();
    assert_eq!(tenths(&r.bmi_tenths), 100);
    assert_eq!(r.bucket, Bucket::Underweight);
    assert_eq!(r.scale_marker_position, 0);
}

#[test]
fn obese_marker_held_at_end() {
    let r = classify(dec(240, 0), dec(200, 0), Gender::Female).unwrap();
    assert_eq!(tenths(&r.bmi_tenths), 600);
    assert_eq!(r.bucket, Bucket::ObeseClassIII);
    assert_eq!(r.dge_bucket, Bucket::ObeseClassIII);
    assert_eq!(r.scale_marker_position, 434000);
    let heavier = classify(dec(400, 0), dec(200, 0), Gender::Male).unwrap();
    assert_eq!(heavier.scale_marker_position, 434000);
}

#[test]
fn same_inputs_same_result() {
    let a = classify(dec(7050, 2), dec(1795, 1), Gender::Female);
    let b = classify(dec(7050, 2), dec(1795, 1), Gender::Female);
    assert_eq!(a, b);
}

#[test]
fn bmi_rounds_down_to_a_tenth() {
    // 70 / 1.8^2 = 21.6049...
    let r = classify(dec(70, 0), dec(180, 0), Gender::Male).unwrap();
    assert_eq!(tenths(&r.bmi_tenths), 216);
    // 100 / 1.7^2 = 34.6020...
    let r = classify(dec(100, 0), dec(170, 0), Gender::Male).unwrap();
    assert_eq!(tenths(&r.bmi_tenths), 346);
    assert_eq!(r.bucket, Bucket::ObeseClassI);
    // 1 / 3^2 = 0.111...
    let r = classify(dec(1, 0), dec(300, 0), Gender::Male).unwrap();
    assert_eq!(tenths(&r.bmi_tenths), 1);
}

#[test]
fn marker_never_moves_back_and_stays_on_gauge() {
    let mut last = scale_marker_position(0);
    let mut t: u128 = 0;
    while t <= 1000 {
        let p = scale_marker_position(t);
        assert!(p >= last);
        assert!(p <= 310 * MARKER_UNITS_PER_PIXEL);
        last = p;
        t += 1;
    }
    assert_eq!(scale_marker_position(u128::MAX), 434000);
}

#[test]
fn marker_positions_are_exact() {
    // 56 / 6.4 * (18.6 - 18.5) + 43 = 43.875 px
    assert_eq!(scale_marker_position(186), 61425);
    assert_eq!(scale_marker_position(186) * 1000, 43875 * 1400);
    let r = classify(dec(186, 1), dec(100, 0), Gender::Male).unwrap();
    assert_eq!(tenths(&r.bmi_tenths), 186);
    assert_eq!(r.scale_marker_position, 61425);
    assert_eq!(r.marker_margin(), 43);
    // 56 / 8 * (18.4 - 18.5) + 43 = 42.3 px
    assert_eq!(scale_marker_position(184), 59220);
    // 56 / 4.9 * (27.5 - 25) + 99 = 127.571... px
    assert_eq!(scale_marker_position(275), 178600);
    // 56 / 20 * (55.3 - 40) + 267 = 309.84 px
    assert_eq!(scale_marker_position(553), 433776);
}

#[test]
fn marker_positions_at_band_edges() {
    assert_eq!(scale_marker_position(123), 0);
    assert_eq!(scale_marker_position(124), 420);
    assert_eq!(scale_marker_position(185), 60200);
    assert_eq!(scale_marker_position(249), 138600);
    assert_eq!(scale_marker_position(250), 138600);
    assert_eq!(scale_marker_position(299), 217000);
    assert_eq!(scale_marker_position(300), 217000);
    assert_eq!(scale_marker_position(350), 295400);
    assert_eq!(scale_marker_position(400), 373800);
    assert_eq!(scale_marker_position(554), 434000);
}

#[test]
fn trailing_zeros_do_not_reach_the_limit() {
    let r = classify(dec(70, 0), dec(1800000000000000000, 16), Gender::Male).unwrap();
    assert_eq!(tenths(&r.bmi_tenths), 216);
    let r = classify_entries("70.000000000000000000000000", "180.0000000000000000", 0).unwrap();
    assert_eq!(tenths(&r.bmi_tenths), 216);
    let r = classify(dec(70, 0), dec(1800000000000000001, 16), Gender::Male).unwrap();
    assert_eq!(tenths(&r.bmi_tenths), 216);
    let r = classify(dec(705, 1), dec(18012345678901234567, 17), Gender::Male).unwrap();
    assert_eq!(tenths(&r.bmi_tenths), 217);
    assert_eq!(r.bmi_text(), "21.7");
    let r = classify_entries("70.5", "180.12345678901234567", 0).unwrap();
    assert_eq!(r.bmi_text(), "21.7");
}

#[test]
fn entries_in_scientific_notation() {
    let r = classify_entries("7.4e1", "2E2", 0).unwrap();
    assert_eq!(tenths(&r.bmi_tenths), 185);
    let r = classify_entries("7400e-2", "0.2e3", 1).unwrap();
    assert_eq!(tenths(&r.bmi_tenths), 185);
}

#[test]
fn bmi_as_shown() {
    let r = classify(dec(74, 0), dec(200, 0), Gender::Male).unwrap();
    assert_eq!(r.bmi_text(), "18.5");
    let r = classify(dec(5625, 2), dec(150, 0), Gender::Male).unwrap();
    assert_eq!(r.bmi_text(), "25");
    let r = classify(dec(1, 0), dec(300, 0), Gender::Male).unwrap();
    assert_eq!(r.bmi_text(), "0.1");
    let r = classify(dec(1, 0), dec(1, 0), Gender::Male).unwrap();
    assert_eq!(r.bmi_text(), "10000");
    assert_eq!(r.marker_margin(), 310);
}

#[test]
fn who_band_edges() {
    assert_eq!(Bucket::who(184), Bucket::Underweight);
    assert_eq!(Bucket::who(185), Bucket::Normal);
    assert_eq!(Bucket::who(249), Bucket::Normal);
    assert_eq!(Bucket::who(250), Bucket::Overweight);
    assert_eq!(Bucket::who(299), Bucket::Overweight);
    assert_eq!(Bucket::who(300), Bucket::ObeseClassI);
    assert_eq!(Bucket::who(349), Bucket::ObeseClassI);
    assert_eq!(Bucket::who(350), Bucket::ObeseClassII);
    assert_eq!(Bucket::who(399), Bucket::ObeseClassII);
    assert_eq!(Bucket::who(400), Bucket::ObeseClassIII);
}

#[test]
fn dge_band_edges_depend_on_gender() {
    assert_eq!(Bucket::dge(189, Gender::Female), Bucket::Underweight);
    assert_eq!(Bucket::dge(190, Gender::Female), Bucket::Normal);
    assert_eq!(Bucket::dge(199, Gender::Male), Bucket::Underweight);
    assert_eq!(Bucket::dge(200, Gender::Male), Bucket::Normal);
    assert_eq!(Bucket::dge(239, Gender::Female), Bucket::Normal);
    assert_eq!(Bucket::dge(240, Gender::Female), Bucket::Overweight);
    assert_eq!(Bucket::dge(240, Gender::Male), Bucket::Normal);
    assert_eq!(Bucket::dge(249, Gender::Male), Bucket::Normal);
    assert_eq!(Bucket::dge(250, Gender::Male), Bucket::Overweight);
    assert_eq!(Bucket::dge(300, Gender::Female), Bucket::ObeseClassI);
    assert_eq!(Bucket::dge(350, Gender::Male), Bucket::ObeseClassII);
    assert_eq!(Bucket::dge(400, Gender::Female), Bucket::ObeseClassIII);
}

#[test]
fn non_positive_measurement_is_rejected() {
    assert_eq!(
        classify(dec(0, 0), dec(180, 0), Gender::Male),
        Err(ClassifierError::InvalidMeasurement)
    );
    assert_eq!(
        classify(dec(70, 0), dec(-180, 0), Gender::Male),
        Err(ClassifierError::InvalidMeasurement)
    );
}

#[test]
fn every_positive_measurement_is_classified() {
    let r = classify(dec(70, 0), dec(180, 40), Gender::Male).unwrap();
    assert_eq!(
        r.bmi_text(),
        "2160493827160493827160493827160493827160493827160493827160493827160493827160493827.1"
    );
    assert_eq!(r.bucket, Bucket::ObeseClassIII);
    assert_eq!(r.dge_bucket, Bucket::ObeseClassIII);
    assert_eq!(r.scale_marker_position, 434000);
    let r = classify(dec(70, 50), dec(180, 0), Gender::Female).unwrap();
    assert!(r.bmi_tenths.is_empty());
    assert_eq!(r.bmi_text(), "0");
    assert_eq!(r.bucket, Bucket::Underweight);
    assert_eq!(r.dge_bucket, Bucket::Underweight);
    assert_eq!(r.scale_marker_position, 0);
    let r = classify(dec(i128::MAX, 0), dec(180, 0), Gender::Male).unwrap();
    assert_eq!(r.bmi_text(), "52512710944589269052989908554285217816.9");
    let r = classify(dec(1, 0), dec(i128::MAX, 0), Gender::Male).unwrap();
    assert_eq!(r.bmi_text(), "0");
    let r = classify(dec(1, 60), dec(1, 60), Gender::Male).unwrap();
    assert_eq!(r.bmi_text(), "10000000000000000000000000000000000000000000000000000000000000000");
}

#[test]
fn entries_classified_from_text() {
    let r = classify_entries("56.25", "150", 0).unwrap();
    assert_eq!(
        r,
        ClassificationResult {
            bmi_tenths: vec![2, 5, 0],
            bucket: Bucket::Overweight,
            dge_bucket: Bucket::Overweight,
            scale_marker_position: 138600,
        }
    );
    let f = classify_entries("24", "100", 1).unwrap();
    assert_eq!(f.dge_bucket, Bucket::Overweight);
    let m = classify_entries("24", "100", 7).unwrap();
    assert_eq!(m.dge_bucket, Bucket::Normal);
}

#[test]
fn entries_that_are_not_numbers_are_rejected() {
    assert_eq!(classify_entries("abc", "180", 0), Err(ClassifierError::InvalidInput));
    assert_eq!(classify_entries("70", "", 0), Err(ClassifierError::InvalidInput));
    assert_eq!(classify_entries("-70", "180", 0), Err(ClassifierError::InvalidMeasurement));
}

#[test]
fn gender_from_selector_position() {
    assert_eq!(Gender::from_selected(0), Gender::Male);
    assert_eq!(Gender::from_selected(1), Gender::Female);
    assert_eq!(Gender::from_selected(u32::MAX), Gender::Male);
}
