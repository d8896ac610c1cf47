//! Detection engine for blind SQL injection probing of a single HTTP endpoint.

pub mod calibrate;
pub mod cli;
pub mod client;
pub mod detect;
pub mod dispatch;
pub mod encode;
pub mod error;
pub mod headers;
pub mod pairs;
pub mod text;
pub mod utils;
