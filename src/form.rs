//! The entry form: which entries are numbers, and the classification of
//! what was entered.
use vstd::prelude::*;
use crate::number::{
    Decimal, parse, reads_as_int, reads_as_decimal, reads_as_scientific, plain_value,
    scientific_mantissa, scientific_scale,
};
use crate::bmi::{
    ClassificationResult, ClassifierError, Gender, classify, classifies, bmi_tenths, selected_gender,
};

verus! {

/// Text that reads as a number, in integer, decimal or scientific notation.
pub open spec fn reads_as_number(t: Seq<char>) -> bool {
    reads_as_int(t) || reads_as_decimal(t) || reads_as_scientific(t)
}

/// The number that an entry reads as.
pub open spec fn entry_value(t: Seq<char>) -> Decimal {
    if reads_as_scientific(t) {
        Decimal {
            mantissa: scientific_mantissa(t) as i128,
            scale: scientific_scale(t) as usize,
        }
    } else {
        plain_value(t)
    }
}

/// Whether an entry field holds a number.
pub fn is_valid_entry(text: &str) -> (r: bool)
    ensures
        r == reads_as_number(text@),
{
    parse(text).is_some()
}

/// Whether the calculation may run: both fields hold numbers.
pub fn can_calculate(weight_text: &str, height_text: &str) -> (r: bool)
    ensures
        r == (reads_as_number(weight_text@) && reads_as_number(height_text@)),
{
    is_valid_entry(weight_text) && is_valid_entry(height_text)
}

/// Reads an entry as a decimal, if it is a number.
fn entry_decimal(text: &str) -> (r: Option<Decimal>)
    ensures
        match r {
            Some(d) => reads_as_number(text@) && d == entry_value(text@),
            None => !reads_as_number(text@),
        },
{
    match parse(text) {
        Some(n) => Some(n.value()),
        None => None,
    }
}

/// Classifies what was entered: weight in kilograms, height in centimetres,
/// and the position chosen in the gender selector.
pub fn classify_entries(weight_text: &str, height_text: &str, gender_index: u32) -> (r: Result<
    ClassificationResult,
    ClassifierError,
>)
    ensures
        match r {
            Ok(res) => {
                &&& reads_as_number(weight_text@)
                &&& reads_as_number(height_text@)
                &&& entry_value(weight_text@).mantissa > 0
                &&& entry_value(height_text@).mantissa > 0
                &&& classifies(
                    res,
                    bmi_tenths(entry_value(weight_text@), entry_value(height_text@)),
                    selected_gender(gender_index as int),
                )
            },
            Err(e) => if reads_as_number(weight_text@) && reads_as_number(height_text@) {
                &&& e == ClassifierError::InvalidMeasurement
                &&& (entry_value(weight_text@).mantissa <= 0 || entry_value(height_text@).mantissa
                    <= 0)
            } else {
                e == ClassifierError::InvalidInput
            },
        },
{
    let weight = match entry_decimal(weight_text) {
        Some(d) => d,
        None => {
            return Err(ClassifierError::InvalidInput);
        },
    };
    let height = match entry_decimal(height_text) {
        Some(d) => d,
        None => {
            return Err(ClassifierError::InvalidInput);
        },
    };
    classify(weight, height, Gender::from_selected(gender_index))
}

} // verus!
