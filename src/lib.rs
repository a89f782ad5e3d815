//! A body-mass-index calculator core: parsing of entered numbers, exact BMI
//! computation, classification after the WHO and DGE tables, and the position
//! of the marker on the result gauge.
pub mod number;
pub mod digits;
pub mod bmi;
pub mod labels;
pub mod scheme;
pub mod form;
