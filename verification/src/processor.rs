//! The stages of an intake, one call each.
//!
//! Each stage here stands for a step whose work is done elsewhere in this
//! library; this type only gives the steps their names and order.

use vstd::prelude::*;
use crate::identify::Identification;

verus! {

broadcast use vstd::string::group_string_axioms;

/// The intake stages, as one value.
pub struct IntakeProcessor {}

impl IntakeProcessor {
    /// A processor ready to run the stages.
    pub fn new() -> (r: Result<IntakeProcessor, String>)
        ensures
            r is Ok,
    {
        Ok(IntakeProcessor {  })
    }

    /// Stage 1: the drop, staged where it is.
    pub fn stage_drop(&self, drop_path: &str) -> (r: Result<String, String>)
        ensures
            r matches Ok(p) && p@ == drop_path@,
    {
        Ok(drop_path.to_owned())
    }

    /// Stage 2: what unpacking the archives under a staged path found.
    pub fn unpack_archives(&self, staged_path: &str) -> (r: Result<Vec<String>, String>)
        ensures
            r matches Ok(v) && v@.len() == 0,
    {
        Ok(Vec::new())
    }

    /// Stage 3: the games identified among the extracted paths.
    pub fn identify_games(&self, extracted_paths: &[String]) -> (r: Result<Vec<(String, Identification)>, String>)
        ensures
            r matches Ok(v) && v@.len() == 0,
    {
        Ok(Vec::new())
    }

    /// Stage 4: repairs to the identified games.
    pub fn repair_files(&self, games_to_repair: &[(String, Identification)]) -> (r: Result<(), String>)
        ensures
            r is Ok,
    {
        Ok(())
    }

    /// Stage 5: the identified games put on the shelf.
    pub fn shelve_games(&self, identified_games: &[(String, Identification)]) -> (r: Result<(), String>)
        ensures
            r is Ok,
    {
        Ok(())
    }

    /// Stage 6: the report card.
    pub fn generate_report(&self, input_files: &[String], outcomes: Vec<&str>) -> (r: String)
        ensures
            r@ == "Report generated."@,
    {
        "Report generated.".to_owned()
    }
}

} // verus!
