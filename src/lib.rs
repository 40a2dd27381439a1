//! The narrative engine of a day-structured petition game: petitioners bring
//! requests, the ruler's verdicts change the realm, named handlers record how
//! story threads went, named filters lock or unlock later requests, and a
//! day/night cycle decides when the run ends.

pub mod decision;
pub mod character;
mod random;
pub mod handlers;
pub mod kingdom;
pub mod state;
pub mod time_state;
pub mod type_writer;
