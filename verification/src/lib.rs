//! A typed, sortable, globally unique identifier scheme: a short
//! human-readable type prefix joined to a 128-bit time-ordered random
//! payload, rendered as a canonical lowercase string whose byte order
//! tracks creation order.

pub mod base32;
pub mod chars;
pub mod id;
pub mod payload;
pub mod prefix;
pub mod ui;
