//! day-stamps: a catalog of special-day stamps, the date lookup that decides
//! which stamp fires on a given day, line-schema validation, and ESC/POS
//! byte assembly for a stamp.
//!
//! Date-specific stamps (`<YYYY-MM-DD>.json`) fire once; recurring stamps
//! (`<MM-DD>.json`) fire every year; the date-specific file shadows the
//! recurring one.

pub mod text;
pub mod validate;
pub mod date;
pub mod catalog;
pub mod render;
pub mod commands;
