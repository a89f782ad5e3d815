use bmicalculator::bmi::{classify, Bucket, Gender};
use bmicalculator::labels::Standard;
use bmicalculator::number::Decimal;
use bmicalculator::scheme::{same_text, ColorScheme};

#[test]
fn markup_for_each_table() {
    assert_eq!(
        Bucket::Underweight.markup(Standard::Who),
        "<span color='#7c7cfc' weight='normal'>Underweight</span>\n<span size='x-small'>WHO</span>"
    );
    assert_eq!(
        Bucket::ObeseClassIII.markup(Standard::Dge),
        "<span color='#dd2599' weight='normal'>Obese (Class III)</span>\n<span size='x-small'>DGE</span>"
    );
}

#[test]
fn band_texts_and_colors() {
    assert_eq!(Bucket::Normal.css_class(), "normal_weight");
    assert_eq!(Bucket::ObeseClassI.css_class(), "overweight1");
    assert_eq!(Bucket::Normal.label(), "Normal range");
    assert_eq!(Bucket::ObeseClassII.label(), "Obese (Class II)");
    assert_eq!(Bucket::Overweight.color(), "#e7b632");
    assert_eq!(Bucket::ObeseClassI.color(), "#ff8b66");
    assert_eq!(Bucket::ObeseClassII.color(), "#ee6080");
    assert_eq!(Bucket::Normal.color(), "#00aa00");
}

#[test]
fn result_markup_follows_both_tables() {
    let r = classify(Decimal { mantissa: 74, scale: 0 }, Decimal { mantissa: 200, scale: 0 }, Gender::Male)
        .unwrap();
    assert_eq!(r.css_class(), "normal_weight");
    assert_eq!(
        r.who_markup(),
        "<span color='#00aa00' weight='normal'>Normal range</span>\n<span size='x-small'>WHO</span>"
    );
    assert_eq!(
        r.dge_markup(),
        "<span color='#7c7cfc' weight='normal'>Underweight</span>\n<span size='x-small'>DGE</span>"
    );
}

#[test]
fn color_scheme_names_round_trip() {
    for c in [ColorScheme::Follow, ColorScheme::Light, ColorScheme::Dark] {
        assert_eq!(ColorScheme::from_name(c.name()), Some(c));
        assert_eq!(ColorScheme::from_index(c.index()), Some(c));
    }
    assert_eq!(ColorScheme::from_name("dark"), Some(ColorScheme::Dark));
    assert_eq!(ColorScheme::from_name("Dark"), None);
    assert_eq!(ColorScheme::from_name(""), None);
    assert_eq!(ColorScheme::from_index(1), Some(ColorScheme::Light));
    assert_eq!(ColorScheme::from_index(3), None);
}

#[test]
fn text_comparison() {
    assert!(same_text("light", "light"));
    assert!(!same_text("light", "lighter"));
    assert!(!same_text("light", "night"));
    assert!(same_text("", ""));
}
