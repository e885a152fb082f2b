pub mod adr;
pub mod audit;
pub mod error;
pub mod guard;
pub mod matching;
pub mod text;
