//! What the autopilot has done.

use vstd::prelude::*;

verus! {

/// The counts of one profile.
#[derive(Debug, Clone, Copy, PartialEq, Eq, Structural)]
pub struct PilotStats {
    pub applied_total: i64,
    pub applied_today: i64,
    pub daily_limit: i64,
    pub chats_acted: i64,
}

impl Default for PilotStats {
    fn default() -> (r: PilotStats)
        ensures
            r == (PilotStats {
                applied_total: 0,
                applied_today: 0,
                daily_limit: 0,
                chats_acted: 0,
            }),
    {
        PilotStats { applied_total: 0, applied_today: 0, daily_limit: 0, chats_acted: 0 }
    }
}

} // verus!
