//! How a band is shown: its style class, display text, colour and markup.
use vstd::prelude::*;
use crate::bmi::{Bucket, ClassificationResult, MARKER_UNITS_PER_PIXEL};
use crate::digits::all_decimal;

verus! {

/// The reference table that a classification follows.
#[derive(Clone, Copy, Debug, PartialEq, Eq, Structural)]
pub enum Standard {
    Who,
    Dge,
}

pub open spec fn css_class_text(b: Bucket) -> Seq<char> {
    match b {
        Bucket::Underweight => "underweight"@,
        Bucket::Normal => "normal_weight"@,
        Bucket::Overweight => "overweight"@,
        Bucket::ObeseClassI => "overweight1"@,
        Bucket::ObeseClassII => "overweight2"@,
        Bucket::ObeseClassIII => "overweight3"@,
    }
}

pub open spec fn label_text(b: Bucket) -> Seq<char> {
    match b {
        Bucket::Underweight => "Underweight"@,
        Bucket::Normal => "Normal range"@,
        Bucket::Overweight => "Overweight"@,
        Bucket::ObeseClassI => "Obese (Class I)"@,
        Bucket::ObeseClassII => "Obese (Class II)"@,
        Bucket::ObeseClassIII => "Obese (Class III)"@,
    }
}

pub open spec fn color_text(b: Bucket) -> Seq<char> {
    match b {
        Bucket::Underweight => "#7c7cfc"@,
        Bucket::Normal => "#00aa00"@,
        Bucket::Overweight => "#e7b632"@,
        Bucket::ObeseClassI => "#ff8b66"@,
        Bucket::ObeseClassII => "#ee6080"@,
        Bucket::ObeseClassIII => "#dd2599"@,
    }
}

pub open spec fn standard_text(s: Standard) -> Seq<char> {
    match s {
        Standard::Who => "WHO"@,
        Standard::Dge => "DGE"@,
    }
}

/// The band's text in its colour, over the table's name in small print.
pub open spec fn markup_text(b: Bucket, s: Standard) -> Seq<char> {
    "<span color='"@ + color_text(b) + "' weight='normal'>"@ + label_text(b)
        + "</span>\n<span size='x-small'>"@ + standard_text(s) + "</span>"@
}

pub open spec fn digit_char(d: int) -> char {
    seq!['0', '1', '2', '3', '4', '5', '6', '7', '8', '9'][d]
}

/// The characters of a run of digits.
pub open spec fn digit_chars(s: Seq<u8>) -> Seq<char> {
    s.map_values(|d: u8| digit_char(d as int))
}

/// A BMI, given by the digits of its tenths without leading zeros, as the
/// result label shows it: a whole number without a decimal, else with its
/// one decimal (`25`, `18.5`, `0.1`).
pub open spec fn bmi_display(s: Seq<u8>) -> Seq<char> {
    let whole = if s.len() <= 1 {
        seq!['0']
    } else {
        digit_chars(s.drop_last())
    };
    if s.len() == 0 || s.last() == 0 {
        whole
    } else {
        whole + seq!['.', digit_char(s.last() as int)]
    }
}

fn digit_str(d: u128) -> (r: &'static str)
    requires
        d < 10,
    ensures
        r@ == seq![digit_char(d as int)],
{
    proof {
        reveal_strlit("0");
        reveal_strlit("1");
        reveal_strlit("2");
        reveal_strlit("3");
        reveal_strlit("4");
        reveal_strlit("5");
        reveal_strlit("6");
        reveal_strlit("7");
        reveal_strlit("8");
        reveal_strlit("9");
    }
    let r = match d {
        0 => "0",
        1 => "1",
        2 => "2",
        3 => "3",
        4 => "4",
        5 => "5",
        6 => "6",
        7 => "7",
        8 => "8",
        _ => "9",
    };
    assert(r@ =~= seq![digit_char(d as int)]);
    r
}

impl Standard {
    pub fn name(&self) -> (r: &'static str)
        ensures
            r@ == standard_text(*self),
    {
        match self {
            Standard::Who => "WHO",
            Standard::Dge => "DGE",
        }
    }
}

impl Bucket {
    /// The style class of the result text.
    pub fn css_class(&self) -> (r: &'static str)
        ensures
            r@ == css_class_text(*self),
    {
        match self {
            Bucket::Underweight => "underweight",
            Bucket::Normal => "normal_weight",
            Bucket::Overweight => "overweight",
            Bucket::ObeseClassI => "overweight1",
            Bucket::ObeseClassII => "overweight2",
            Bucket::ObeseClassIII => "overweight3",
        }
    }

    pub fn label(&self) -> (r: &'static str)
        ensures
            r@ == label_text(*self),
    {
        match self {
            Bucket::Underweight => "Underweight",
            Bucket::Normal => "Normal range",
            Bucket::Overweight => "Overweight",
            Bucket::ObeseClassI => "Obese (Class I)",
            Bucket::ObeseClassII => "Obese (Class II)",
            Bucket::ObeseClassIII => "Obese (Class III)",
        }
    }

    pub fn color(&self) -> (r: &'static str)
        ensures
            r@ == color_text(*self),
    {
        match self {
            Bucket::Underweight => "#7c7cfc",
            Bucket::Normal => "#00aa00",
            Bucket::Overweight => "#e7b632",
            Bucket::ObeseClassI => "#ff8b66",
            Bucket::ObeseClassII => "#ee6080",
            Bucket::ObeseClassIII => "#dd2599",
        }
    }

    /// The markup that shows the band as classified after `standard`.
    pub fn markup(&self, standard: Standard) -> (r: String)
        ensures
            r@ == markup_text(*self, standard),
    {
        let mut r = String::from_str("<span color='");
        r.append(self.color());
        r.append("' weight='normal'>");
        r.append(self.label());
        r.append("</span>\n<span size='x-small'>");
        r.append(standard.name());
        r.append("</span>");
        r
    }
}

impl ClassificationResult {
    /// The BMI as the result label shows it.
    pub fn bmi_text(&self) -> (r: String)
        requires
            all_decimal(self.bmi_tenths@),
        ensures
            r@ == bmi_display(self.bmi_tenths@),
    {
        let s = &self.bmi_tenths;
        let n = s.len();
        let mut r = String::new();
        if n <= 1 {
            r.append("0");
            proof {
                reveal_strlit("0");
                assert(r@ =~= seq!['0']);
            }
        } else {
            let mut i: usize = 0;
            proof {
                assert(r@ =~= digit_chars(s@.take(0)));
            }
            while i < n - 1
                invariant
                    n == s@.len(),
                    n >= 2,
                    i <= n - 1,
                    all_decimal(s@),
                    r@ == digit_chars(s@.take(i as int)),
                decreases n - 1 - i,
            {
                r.append(digit_str(s[i] as u128));
                proof {
                    assert(digit_chars(s@.take(i + 1)) =~= digit_chars(s@.take(i as int)).push(
                        digit_char(s@[i as int] as int),
                    ));
                    assert(r@ =~= digit_chars(s@.take(i + 1)));
                }
                i += 1;
            }
            proof {
                assert(s@.take(n - 1) =~= s@.drop_last());
            }
        }
        if n > 0 && s[n - 1] != 0 {
            let ghost before = r@;
            r.append(".");
            r.append(digit_str(s[n - 1] as u128));
            proof {
                reveal_strlit(".");
                assert(r@ =~= before + seq!['.', digit_char(s@.last() as int)]);
            }
        }
        r
    }

    /// The marker's margin from the start of the gauge in whole pixels,
    /// its exact position rounded down.
    pub fn marker_margin(&self) -> (r: u32)
        ensures
            r == self.scale_marker_position / 1400,
    {
        self.scale_marker_position / MARKER_UNITS_PER_PIXEL
    }

    /// The style class that the WHO band gives the result text.
    pub fn css_class(&self) -> (r: &'static str)
        ensures
            r@ == css_class_text(self.bucket),
    {
        self.bucket.css_class()
    }

    pub fn who_markup(&self) -> (r: String)
        ensures
            r@ == markup_text(self.bucket, Standard::Who),
    {
        self.bucket.markup(Standard::Who)
    }

    pub fn dge_markup(&self) -> (r: String)
        ensures
            r@ == markup_text(self.dge_bucket, Standard::Dge),
    {
        self.dge_bucket.markup(Standard::Dge)
    }
}

} // verus!
