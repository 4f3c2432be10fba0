//! Commitments to tabular datasets and proofs that a row belongs to one.
//!
//! A dataset is a pipe-delimited text file. Its cells are encoded as integers,
//! its rows are padded to a fixed number of field elements, and its columns are
//! committed one polynomial at a time. A circuit with the dataset in its fixed
//! columns shows that a public row is in the committed table.

pub mod capacity;
pub mod circuit;
pub mod columns;
pub mod commit;
pub mod dataset;
pub mod decimal;
pub mod encode;
pub mod field;
pub mod files;
pub mod membership;
pub mod text;
