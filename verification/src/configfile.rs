//! The settings of the program.

use vstd::prelude::*;

verus! {

/// Settings for watching the window manager, all in seconds.
#[derive(Debug, Clone)]
pub struct WatchI3Config {
    /// How often to look at the workspaces.
    pub granularity: u64,
    /// How long a titled workspace must keep the focus to count as work on
    /// its activity.
    pub timeblock: u64,
    /// The same for a workspace without a title.
    pub timeblock_empty: u64,
}

/// The settings.
#[derive(Debug, Clone)]
pub struct TTConfig {
    /// Put in front of activities that are bare numbers, with a hyphen.
    pub prefix: Option<String>,
    pub watch_i3: WatchI3Config,
}

impl Default for TTConfig {
    fn default() -> (config: TTConfig)
        ensures
            config.prefix is None,
            config.watch_i3.granularity == 10,
            config.watch_i3.timeblock == 120,
            config.watch_i3.timeblock_empty == 300,
    {
        TTConfig {
            prefix: None,
            watch_i3: WatchI3Config { granularity: 10, timeblock: 120, timeblock_empty: 300 },
        }
    }
}

/// A number of seconds from a setting: the setting itself, or `default`
/// where there is none; a negative setting counts as the number that the
/// same 64 bits hold without a sign.
pub open spec fn seconds_setting(setting: Option<i64>, default: u64) -> u64 {
    match setting {
        Some(n) => if n >= 0 {
            n as u64
        } else {
            (n + 0x1_0000_0000_0000_0000) as u64
        },
        None => default,
    }
}

/// A number of seconds from a setting.
pub fn seconds_from(setting: Option<i64>, default: u64) -> (seconds: u64)
    ensures
        seconds == seconds_setting(setting, default),
{
    match setting {
        Some(n) => if n >= 0 {
            n as u64
        } else {
            u64::MAX - (-(n + 1)) as u64
        },
        None => default,
    }
}

impl TTConfig {
    /// The settings that a settings file gives: the prefix that it holds
    /// under `prefix`, if any, and the seconds for watching the window
    /// manager that it holds under `watch-i3.granularity`,
    /// `watch-i3.timeblock` and `watch-i3.timeblock_empty`, which are 10,
    /// 120 and 600 where the file gives none.
    pub fn from_settings(
        prefix: Option<String>,
        granularity: Option<i64>,
        timeblock: Option<i64>,
        timeblock_empty: Option<i64>,
    ) -> (config: TTConfig)
        ensures
            config.prefix == prefix,
            config.watch_i3.granularity == seconds_setting(granularity, 10),
            config.watch_i3.timeblock == seconds_setting(timeblock, 120),
            config.watch_i3.timeblock_empty == seconds_setting(timeblock_empty, 600),
    {
        TTConfig {
            prefix,
            watch_i3: WatchI3Config {
                granularity: seconds_from(granularity, 10),
                timeblock: seconds_from(timeblock, 120),
                timeblock_empty: seconds_from(timeblock_empty, 600),
            },
        }
    }
}

} // verus!
