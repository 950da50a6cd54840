//! Predicates on field values, alone and combined per record.

pub mod fieldfilter;
pub mod recordfilter;
