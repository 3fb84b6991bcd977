//! A PLONKish constraint system: columns, selectors and gates, a layouter that
//! places regions of witness assignments into a cyclic table, copy constraints,
//! and a checker that reports every violated constraint.
pub mod check;
pub mod circuit;
pub mod example1;
pub mod example2;
pub mod field;
pub mod layout;
pub mod mock;
pub mod permutation;
pub mod pyth;
pub mod table;
