//! The launcher's own settings, their defaults, and the memory figure the settings page offers.
use vstd::prelude::*;

use crate::mods::{join_path, path_in, path_view};

verus! {

/// What the player has set in the launcher.
#[derive(Debug, Clone)]
pub struct LauncherSettings {
    /// Gigabytes of heap the game may use.
    pub ram_gb: u32,
    /// Extra JVM options, separated by whitespace.
    pub jvm_args: String,
    /// Join the LemiCraft server as soon as the game starts.
    pub auto_connect: bool,
    /// What happens to the launcher window once the game starts: `none`, `hide` or `close`.
    pub on_launch: String,
    /// Where the game is installed, if not in the launcher's own folder.
    pub game_dir: Option<String>,
    pub show_logs: bool,
    pub crash_analyzer: bool,
}

pub const DEFAULT_JVM_ARGS: &'static str = "-XX:+UseG1GC -XX:+UnlockExperimentalVMOptions";

pub fn default_ram_gb() -> (r: u32)
    ensures
        r == 4,
{
    4
}

pub fn default_true() -> (b: bool)
    ensures
        b,
{
    true
}

pub fn default_jvm_args() -> (s: String)
    ensures
        s@ == DEFAULT_JVM_ARGS@,
{
    DEFAULT_JVM_ARGS.to_owned()
}

pub fn default_on_launch() -> (s: String)
    ensures
        s@ == "hide"@,
{
    "hide".to_owned()
}

impl Default for LauncherSettings {
    fn default() -> (s: Self)
        ensures
            s.ram_gb == 4,
            s.jvm_args@ == DEFAULT_JVM_ARGS@,
            !s.auto_connect,
            s.on_launch@ == "hide"@,
            s.game_dir is None,
            !s.show_logs,
            s.crash_analyzer,
    {
        LauncherSettings {
            ram_gb: default_ram_gb(),
            jvm_args: default_jvm_args(),
            auto_connect: false,
            on_launch: default_on_launch(),
            game_dir: None,
            show_logs: false,
            crash_analyzer: default_true(),
        }
    }
}

/// Where the settings are saved.
pub fn settings_path(game_dir: &str) -> (p: Vec<String>)
    ensures
        path_view(p@) == path_in(game_dir@, "launcher_settings.json"@),
{
    join_path(game_dir, "launcher_settings.json")
}

/// The machine's memory in whole gigabytes, as the settings page offers it: a reading of zero
/// (no figure) shows as 16.
pub open spec fn ram_gb_of(total_bytes: u64) -> u32 {
    let gb = total_bytes / 0x4000_0000;
    if gb == 0 {
        16
    } else {
        (gb % 0x1_0000_0000) as u32
    }
}

pub fn ram_gb_from_bytes(total_bytes: u64) -> (r: u32)
    ensures
        r == ram_gb_of(total_bytes),
{
    let gb = total_bytes / 0x4000_0000;
    if gb == 0 {
        16
    } else {
        (gb % 0x1_0000_0000) as u32
    }
}

/// `sysinfo::System::total_memory` after `refresh_memory` on a new `System`: the machine's
/// memory in bytes, or `None` when `System::new` fails. What the machine reports is not stated.
#[verifier::external_body]
fn total_memory_bytes() -> (r: Option<u64>) {
    match sysinfo::System::new() {
        Ok(mut sys) => {
            sys.refresh_memory();
            Some(sys.total_memory())
        },
        Err(_) => None,
    }
}

/// The memory figure for a reading of the machine's memory; no reading counts as zero.
pub fn ram_gb_from_reading(reading: Option<u64>) -> (r: u32)
    ensures
        r == ram_gb_of(
            match reading {
                Some(b) => b,
                None => 0,
            },
        ),
{
    match reading {
        Some(b) => ram_gb_from_bytes(b),
        None => ram_gb_from_bytes(0),
    }
}

/// The machine's memory in whole gigabytes (16 when it cannot be read). The figure is
/// `ram_gb_of` of some byte count; which one the machine reports is not stated.
pub fn get_total_ram_gb() -> (r: u32)
    ensures
        exists|bytes: u64| r == ram_gb_of(bytes),
{
    let reading = total_memory_bytes();
    let r = ram_gb_from_reading(reading);
    proof {
        let b: u64 = match reading {
            Some(x) => x,
            None => 0,
        };
        assert(r == ram_gb_of(b));
    }
    r
}

} // verus!
