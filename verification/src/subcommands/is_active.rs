//! Whether an activity is going on.

use crate::collector::{
    can_end,
    collect_blocks,
    read_log,
    refuses_end,
    CollectorView,
    MAX_LOAD,
};
use crate::configfile::TTConfig;
use crate::error::TTError;
use crate::log_parser::complains;
use crate::text::{same_text, texts};
use crate::time::Time;
use crate::utils::prefix_of;
use vstd::prelude::*;

verus! {

/// Whether work is going on at the end of a day of which the collector
/// holds `state`: an activity is going on, and it is not called `break`.
pub open spec fn is_working(state: CollectorView) -> bool {
    match state {
        CollectorView::Empty => false,
        CollectorView::Open { current, .. } => current.activity != "break"@,
    }
}

/// Tells from the lines of today's log whether an activity is going on at
/// `add_endit_at`.
pub fn is_active(add_endit_at: &Time, logfile: Vec<String>, config: &TTConfig) -> (active: Result<
    bool,
    TTError,
>)
    requires
        logfile.len() < MAX_LOAD,
    ensures
        match read_log(CollectorView::Empty, texts(logfile@), prefix_of(*config)) {
            Err((message, line)) => active matches Err(e) && complains(e, message, line),
            Ok(state) => {
                if can_end(state, Some(add_endit_at@)) {
                    active == Ok::<bool, TTError>(is_working(state))
                } else {
                    active matches Err(e) && refuses_end(e)
                }
            },
        },
{
    match collect_blocks(logfile, Some(add_endit_at), config) {
        Err(error) => Err(error),
        Ok(None) => Ok(false),
        Ok(Some(collected)) => Ok(!same_text(collected.final_activity.as_str(), "break")),
    }
}

} // verus!
