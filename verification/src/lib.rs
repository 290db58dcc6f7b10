//! A minimal voting service core: a pure voting-machine state model with
//! at-most-one-vote-per-voter semantics, a text snapshot codec for the file
//! backend, the command dispatcher shared by every transport, and the
//! localized response texts.

pub mod configuration;
pub mod digits;
pub mod dispatch;
pub mod domain;
pub mod laws;
pub mod lexicon;
pub mod snapshot;
pub mod use_cases;
