//! Recovery of the password of an encrypted ZIP entry by exhaustive search:
//! the candidate enumeration, its sharding across workers, and the checks
//! that accept or reject a candidate.

pub mod args;
pub mod charsets;
pub mod finder_errors;
pub mod index_map;
pub mod password_finder;
pub mod password_gen;
pub mod password_reader;
pub mod password_worker;
pub mod search_space;
pub mod text;
pub mod zip_utils;
