//! What the web remote sends for the library and for one game.

use vstd::prelude::*;
use crate::db::{Game, Save};
use crate::den::{CoreStatus, RetroArchStatus};

verus! {

/// A system and how many games it has.
#[derive(Debug)]
pub struct SystemRow {
    pub name: String,
    pub count: i64,
}

/// The library as the remote's front page shows it.
#[derive(Debug)]
pub struct LibraryView {
    pub path: String,
    pub games: Vec<Game>,
    pub systems: Vec<SystemRow>,
    pub continue_game: Option<Game>,
    pub recent: Vec<Game>,
    pub retroarch: RetroArchStatus,
}

/// One game as the remote shows it.
#[derive(Debug)]
pub struct GameView {
    pub game: Game,
    pub saves: Vec<Save>,
    pub retroarch: RetroArchStatus,
    pub core: CoreStatus,
}

/// The system rows of the database's (name, count) pairs, in order.
pub fn system_rows(pairs: Vec<(String, i64)>) -> (r: Vec<SystemRow>)
    ensures
        r@.len() == pairs@.len(),
        forall|k: int| 0 <= k < r@.len() ==> (#[trigger] r@[k]).name == pairs@[k].0 && r@[k].count == pairs@[k].1,
{
    let mut out: Vec<SystemRow> = Vec::new();
    let mut i: usize = 0;
    while i < pairs.len()
        invariant
            i <= pairs@.len(),
            out@.len() == i,
            forall|k: int| 0 <= k < i ==> (#[trigger] out@[k]).name == pairs@[k].0 && out@[k].count == pairs@[k].1,
        decreases pairs@.len() - i,
    {
        let (name, count) = &pairs[i];
        out.push(SystemRow { name: name.clone(), count: *count });
        i += 1;
    }
    out
}

/// What a failed request is answered with: not found when the message
/// says so, otherwise a bad request.
pub open spec fn error_status_spec(message: Seq<char>) -> u16 {
    if crate::text::contains_seq(message, "not found"@) {
        404
    } else {
        400
    }
}

pub fn error_status(message: &str) -> (r: u16)
    ensures
        r == error_status_spec(message@),
{
    let m = crate::text::chars_of(message);
    if crate::text::contains_literal(&m, "not found") {
        404
    } else {
        400
    }
}

} // verus!
