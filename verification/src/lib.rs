//! A console banking simulator: exact decimal amounts, the catalog of
//! actions with its parser, validation of console input, and the session
//! state machine that sequences onboarding and the action loop.

pub mod decimal;
pub mod digits;
pub mod domain;
pub mod error;
pub mod input;
pub mod numeral;
pub mod session;
pub mod text;
pub mod writing;
