//! Decisions around the external graph store: gating on its availability
//! and the rule that classifies a history entry as a watched video.
//!
//! The store itself (connections, traversals) lives outside the core; the
//! core only decides, the caller performs.

use vstd::prelude::*;
use crate::errors::CoreError;

verus! {

/// Watch-percentage threshold, in thousandths, above which a history entry
/// counts as a watched video even when its watched flag is unset.
pub const WATCHED_PERMILLE_FLOOR: u32 = 700;

/// Gate a batch run on the availability of the graph store: the caller
/// probes the store and hands in the outcome; an unavailable store is a
/// storage failure, never a panic.
pub fn launch_db(db_running: bool) -> (r: Result<(), CoreError>)
    ensures
        r is Ok <==> db_running,
        !db_running ==> r == Result::<(), CoreError>::Err(CoreError::Storage),
{
    if db_running {
        Ok(())
    } else {
        Err(CoreError::Storage)
    }
}

/// A history entry counts as watched when its flag says so or when at
/// least seven tenths of the video was played (given in thousandths).
pub fn counts_as_watched(is_watched: bool, watch_permille: u32) -> (r: bool)
    ensures
        r <==> (is_watched || watch_permille >= WATCHED_PERMILLE_FLOOR),
{
    is_watched || watch_permille >= WATCHED_PERMILLE_FLOOR
}

} // verus!
