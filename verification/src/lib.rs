//! Defanging and refanging of IOCs (URLs, email and IP addresses): making
//! them unclickable and safe to send, and giving them their teeth back.
use vstd::prelude::*;

pub mod defangify;
pub mod dfang;
pub mod laws;
pub mod lemmas;
pub mod pattern;
pub mod recognition;
pub mod refangify;
pub mod rfang;
pub mod text;

pub use dfang::defang;
pub use rfang::refang;
