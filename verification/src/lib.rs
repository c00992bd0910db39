//! Typed models and verified logic for the BART Legacy API.

pub mod board;
pub mod cli;
pub mod common;
pub mod decimal;
pub mod error;
pub mod etd;
pub mod fields;
pub mod parse;
pub mod render;
pub mod request;
pub mod route;
pub mod station;
pub mod text;

pub use common::Direction;
pub use error::{Error, Result};
pub use etd::{DirectionGroups, Estimate, Etd, Minutes, StationEtd};
pub use route::Route;
pub use station::Station;
