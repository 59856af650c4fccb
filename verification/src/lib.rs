//! Dictionary encoding of a column into the pages of a columnar file: whether
//! a column is worth a dictionary, how the dictionary and its keys are built,
//! and how keys and values become one dictionary page and the data pages that
//! point into it.

pub mod vectors;
pub mod bits;
pub mod varint;
pub mod bit_packing;
pub mod hybrid_rle;
pub mod types;
pub mod occurrence;
pub mod kernels;
pub mod min_max_dictionary;
pub mod page;
pub mod levels;
pub mod keys;
pub mod nested;
pub mod data_pages;
pub mod plain;
pub mod statistics;
pub mod dictionary;
pub mod random;
pub mod decode;
