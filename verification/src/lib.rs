use vstd::prelude::*;

pub mod text;
pub mod system;
pub mod magic;
pub mod path;
pub mod util;
pub mod dat;
pub mod table;
pub mod bios;
pub mod unpack;
pub mod identify;
pub mod intake;
pub mod shelve;
pub mod config;
pub mod locate;
pub mod db;
pub mod runner;
pub mod order;
pub mod input;
pub mod guard;
pub mod net;
pub mod den;
pub mod views;
pub mod processor;
pub mod doctor;

verus! {

} // verus!
