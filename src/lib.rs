//! Recognition of operator queries over flight-departure records, and the
//! record computations those queries lead to.
pub mod text;
pub mod codes;
pub mod intent;
pub mod records;
pub mod monthly;
pub mod ranking;
pub mod dispatch;
