//! Verified core of the control software for the OWON SPE6103 bench supply.

pub mod access;
pub mod csvlog;
pub mod double;
pub mod http;
pub mod json;
pub mod limits;
pub mod numeral;
pub mod outside;
pub mod page;
pub mod presets;
pub mod psu;
pub mod scan;
pub mod scpi;
pub mod server;
pub mod text;
pub mod unicode;
