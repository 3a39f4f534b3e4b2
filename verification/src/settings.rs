//! The settings of the server: what is saved, what is changed, and what is shown.

use crate::ai::copy_option;
use crate::number::{bounded_numeral, decimal, law_numerals_are_read_back, parse_number};
use crate::search::same;
use crate::text::{lower_case, lower_cased};
use vstd::prelude::*;

verus! {

/// The level that is set where nothing else is.
pub const DEFAULT_LEVEL: u8 = 50;

/// The length of lyric lines that is set where nothing else is.
pub const DEFAULT_LRC_CHARS: usize = 15;

/// The settings that are saved.
#[derive(Debug)]
pub struct ServerConfig {
    pub api_url: Option<String>,
    pub default_volume: Option<u8>,
    pub default_speed: Option<u8>,
    pub default_pitch: Option<u8>,
    pub preserve_structure: Option<bool>,
    pub enable_lrc: Option<bool>,
    pub lrc_chars: Option<usize>,
    pub analysis_only: Option<bool>,
    pub delete_task_allocations: Option<bool>,
    pub delete_task_outputs: Option<bool>,
    pub delete_task_sources: Option<bool>,
}

/// The settings that a request changes.
#[derive(Clone, Copy, Debug)]
pub struct SettingsChange {
    pub preserve_structure: Option<bool>,
    pub enable_lrc: Option<bool>,
    pub lrc_chars: Option<usize>,
    pub analysis_only: Option<bool>,
    pub delete_task_allocations: Option<bool>,
    pub delete_task_outputs: Option<bool>,
    pub delete_task_sources: Option<bool>,
}

/// The settings that are shown.
#[derive(Clone, Copy, Debug)]
pub struct ShownSettings {
    pub preserve_structure: bool,
    pub enable_lrc: bool,
    pub lrc_chars: usize,
    pub analysis_only: bool,
    pub delete_task_allocations: bool,
    pub delete_task_outputs: bool,
    pub delete_task_sources: bool,
}

/// The new value, else the old one.
pub open spec fn or_else<T>(new: Option<T>, old: Option<T>) -> Option<T> {
    if new is Some {
        new
    } else {
        old
    }
}

/// The value, else the default.
pub open spec fn or_default<T>(value: Option<T>, default: T) -> T {
    match value {
        Some(v) => v,
        None => default,
    }
}

/// The saved settings after a change.
pub open spec fn merged(config: ServerConfig, change: SettingsChange) -> ServerConfig {
    ServerConfig {
        preserve_structure: or_else(change.preserve_structure, config.preserve_structure),
        enable_lrc: or_else(change.enable_lrc, config.enable_lrc),
        lrc_chars: or_else(change.lrc_chars, config.lrc_chars),
        analysis_only: or_else(change.analysis_only, config.analysis_only),
        delete_task_allocations: or_else(
            change.delete_task_allocations,
            config.delete_task_allocations,
        ),
        delete_task_outputs: or_else(change.delete_task_outputs, config.delete_task_outputs),
        delete_task_sources: or_else(change.delete_task_sources, config.delete_task_sources),
        ..config
    }
}

/// The shown settings after saved ones were read.
pub open spec fn shown_after(shown: ShownSettings, config: ServerConfig) -> ShownSettings {
    ShownSettings {
        preserve_structure: or_default(config.preserve_structure, shown.preserve_structure),
        enable_lrc: or_default(config.enable_lrc, shown.enable_lrc),
        lrc_chars: or_default(config.lrc_chars, shown.lrc_chars),
        analysis_only: or_default(config.analysis_only, shown.analysis_only),
        delete_task_allocations: or_default(
            config.delete_task_allocations,
            shown.delete_task_allocations,
        ),
        delete_task_outputs: or_default(config.delete_task_outputs, shown.delete_task_outputs),
        delete_task_sources: or_default(config.delete_task_sources, shown.delete_task_sources),
    }
}

/// The settings that are shown where none are saved.
pub open spec fn shown_first() -> ShownSettings {
    ShownSettings {
        preserve_structure: false,
        enable_lrc: false,
        lrc_chars: DEFAULT_LRC_CHARS,
        analysis_only: false,
        delete_task_allocations: false,
        delete_task_outputs: false,
        delete_task_sources: false,
    }
}

fn flag_or_else(new: Option<bool>, old: Option<bool>) -> (r: Option<bool>)
    ensures
        r == or_else(new, old),
{
    if new.is_some() {
        new
    } else {
        old
    }
}

fn flag_or(value: Option<bool>, default: bool) -> (r: bool)
    ensures
        r == or_default(value, default),
{
    match value {
        Some(v) => v,
        None => default,
    }
}

/// Changes the saved settings.
pub fn merge_settings(config: &mut ServerConfig, change: SettingsChange)
    ensures
        *final(config) == merged(*old(config), change),
{
    config.preserve_structure = flag_or_else(change.preserve_structure, config.preserve_structure);
    config.enable_lrc = flag_or_else(change.enable_lrc, config.enable_lrc);
    if change.lrc_chars.is_some() {
        config.lrc_chars = change.lrc_chars;
    }
    config.analysis_only = flag_or_else(change.analysis_only, config.analysis_only);
    config.delete_task_allocations = flag_or_else(
        change.delete_task_allocations,
        config.delete_task_allocations,
    );
    config.delete_task_outputs = flag_or_else(
        change.delete_task_outputs,
        config.delete_task_outputs,
    );
    config.delete_task_sources = flag_or_else(
        change.delete_task_sources,
        config.delete_task_sources,
    );
}

/// Shows the saved settings.
pub fn show_settings(shown: &mut ShownSettings, config: &ServerConfig)
    ensures
        *final(shown) == shown_after(*old(shown), *config),
{
    shown.preserve_structure = flag_or(config.preserve_structure, shown.preserve_structure);
    shown.enable_lrc = flag_or(config.enable_lrc, shown.enable_lrc);
    if let Some(n) = config.lrc_chars {
        shown.lrc_chars = n;
    }
    shown.analysis_only = flag_or(config.analysis_only, shown.analysis_only);
    shown.delete_task_allocations = flag_or(
        config.delete_task_allocations,
        shown.delete_task_allocations,
    );
    shown.delete_task_outputs = flag_or(config.delete_task_outputs, shown.delete_task_outputs);
    shown.delete_task_sources = flag_or(config.delete_task_sources, shown.delete_task_sources);
}

/// The settings that are shown when the server starts.
pub fn settings_at_start(config: &ServerConfig) -> (r: ShownSettings)
    ensures
        r == shown_after(shown_first(), *config),
{
    let mut r = ShownSettings {
        preserve_structure: false,
        enable_lrc: false,
        lrc_chars: DEFAULT_LRC_CHARS,
        analysis_only: false,
        delete_task_allocations: false,
        delete_task_outputs: false,
        delete_task_sources: false,
    };
    show_settings(&mut r, config);
    r
}

/// After a change what is shown is what is shown after a restart, where it was so before.
pub proof fn law_a_restart_shows_the_same(config: ServerConfig, change: SettingsChange)
    ensures
        ({
            let shown = shown_after(shown_first(), config);
            let saved = merged(config, change);
            shown_after(shown, saved) == shown_after(shown_first(), saved)
        }),
{
}

/// What a change sets is shown, and a change that sets nothing changes nothing.
pub proof fn law_changes_are_shown(
    shown: ShownSettings,
    config: ServerConfig,
    change: SettingsChange,
)
    ensures
        ({
            let after = shown_after(shown, merged(config, change));
            &&& change.preserve_structure matches Some(v) ==> after.preserve_structure == v
            &&& change.enable_lrc matches Some(v) ==> after.enable_lrc == v
            &&& change.lrc_chars matches Some(v) ==> after.lrc_chars == v
            &&& change.analysis_only matches Some(v) ==> after.analysis_only == v
            &&& change.delete_task_allocations matches Some(v) ==> after.delete_task_allocations
                == v
            &&& change.delete_task_outputs matches Some(v) ==> after.delete_task_outputs == v
            &&& change.delete_task_sources matches Some(v) ==> after.delete_task_sources == v
        }),
        merged(
            config,
            (SettingsChange {
                preserve_structure: None,
                enable_lrc: None,
                lrc_chars: None,
                analysis_only: None,
                delete_task_allocations: None,
                delete_task_outputs: None,
                delete_task_sources: None,
            }),
        ) == config,
{
}

/// The level that an environment variable gives, else the saved one, else the default.
pub open spec fn level_at_start(variable: Option<Seq<char>>, saved: Option<u8>) -> u8 {
    let given = match variable {
        Some(v) => bounded_numeral(v, 255),
        None => None,
    };
    match given {
        Some(n) => n as u8,
        None => or_default(saved, DEFAULT_LEVEL),
    }
}

/// The level that an environment variable gives, else the saved one, else the default.
pub fn default_level(variable: Option<&str>, saved: Option<u8>) -> (r: u8)
    ensures
        r == level_at_start(
            match variable {
                Some(v) => Some(v@),
                None => None,
            },
            saved,
        ),
{
    if let Some(v) = variable {
        if let Some(n) = parse_number(v, 255) {
            return n as u8;
        }
    }
    match saved {
        Some(n) => n,
        None => DEFAULT_LEVEL,
    }
}

/// Whether an environment variable turns the watch over the books on.
pub fn autorun_wanted(variable: Option<&str>) -> (r: bool)
    ensures
        r == (variable matches Some(v) && lower_cased(v@) == "true"@),
{
    match variable {
        Some(v) => same(lower_case(v).as_str(), "true"),
        None => false,
    }
}

/// What a request about the watch for new books comes to.
#[derive(Clone, Copy, Debug, PartialEq, Eq, Structural)]
pub enum AutorunChange {
    /// The watch is off.
    Off,
    /// The watch is on, with the settings of the request.
    Configured,
    /// The watch is on, with the settings it had.
    Kept,
    /// There are no settings to watch with.
    Unconfigured,
}

/// What a request about the watch for new books comes to.
pub fn autorun_change(enabled: bool, brings_settings: bool, has_settings: bool) -> (r: AutorunChange)
    ensures
        r == if !enabled {
            AutorunChange::Off
        } else if brings_settings {
            AutorunChange::Configured
        } else if has_settings {
            AutorunChange::Kept
        } else {
            AutorunChange::Unconfigured
        },
{
    if !enabled {
        AutorunChange::Off
    } else if brings_settings {
        AutorunChange::Configured
    } else if has_settings {
        AutorunChange::Kept
    } else {
        AutorunChange::Unconfigured
    }
}

/// The address of the speech service for books that are found: that of the settings, else the one
/// that is known.
pub fn watched_api(settings: &Option<String>, known: &Option<String>) -> (r: Option<String>)
    ensures
        r == or_else(*settings, *known),
{
    if settings.is_some() {
        copy_option(settings)
    } else {
        copy_option(known)
    }
}

/// Whether something is to be deleted: as the request says, else as the settings say.
pub fn delete_wanted(asked: Option<bool>, config: Option<bool>) -> (r: bool)
    ensures
        r == or_default(or_else(asked, config), false),
{
    flag_or(flag_or_else(asked, config), false)
}

/// What a change leaves open stays as it was saved, and the address of the service and the default
/// levels stay whatever a change says.
pub proof fn law_other_settings_stay(config: ServerConfig, change: SettingsChange)
    ensures
        ({
            let after = merged(config, change);
            &&& after.api_url == config.api_url
            &&& after.default_volume == config.default_volume
            &&& after.default_speed == config.default_speed
            &&& after.default_pitch == config.default_pitch
            &&& change.preserve_structure is None ==> after.preserve_structure
                == config.preserve_structure
            &&& change.enable_lrc is None ==> after.enable_lrc == config.enable_lrc
            &&& change.lrc_chars is None ==> after.lrc_chars == config.lrc_chars
            &&& change.analysis_only is None ==> after.analysis_only == config.analysis_only
            &&& change.delete_task_allocations is None ==> after.delete_task_allocations
                == config.delete_task_allocations
            &&& change.delete_task_outputs is None ==> after.delete_task_outputs
                == config.delete_task_outputs
            &&& change.delete_task_sources is None ==> after.delete_task_sources
                == config.delete_task_sources
            &&& change.preserve_structure is Some ==> after.preserve_structure
                == change.preserve_structure
            &&& change.enable_lrc is Some ==> after.enable_lrc == change.enable_lrc
            &&& change.lrc_chars is Some ==> after.lrc_chars == change.lrc_chars
            &&& change.analysis_only is Some ==> after.analysis_only == change.analysis_only
            &&& change.delete_task_allocations is Some ==> after.delete_task_allocations
                == change.delete_task_allocations
            &&& change.delete_task_outputs is Some ==> after.delete_task_outputs
                == change.delete_task_outputs
            &&& change.delete_task_sources is Some ==> after.delete_task_sources
                == change.delete_task_sources
        }),
{
}

/// What is saved is shown, and what is not saved is shown as before.
pub proof fn law_saved_settings_are_shown(shown: ShownSettings, config: ServerConfig)
    ensures
        ({
            let after = shown_after(shown, config);
            &&& config.preserve_structure matches Some(v) ==> after.preserve_structure == v
            &&& config.preserve_structure is None ==> after.preserve_structure
                == shown.preserve_structure
            &&& config.enable_lrc matches Some(v) ==> after.enable_lrc == v
            &&& config.enable_lrc is None ==> after.enable_lrc == shown.enable_lrc
            &&& config.lrc_chars matches Some(v) ==> after.lrc_chars == v
            &&& config.lrc_chars is None ==> after.lrc_chars == shown.lrc_chars
            &&& config.analysis_only matches Some(v) ==> after.analysis_only == v
            &&& config.analysis_only is None ==> after.analysis_only == shown.analysis_only
            &&& config.delete_task_allocations matches Some(v) ==> after.delete_task_allocations
                == v
            &&& config.delete_task_allocations is None ==> after.delete_task_allocations
                == shown.delete_task_allocations
            &&& config.delete_task_outputs matches Some(v) ==> after.delete_task_outputs == v
            &&& config.delete_task_outputs is None ==> after.delete_task_outputs
                == shown.delete_task_outputs
            &&& config.delete_task_sources matches Some(v) ==> after.delete_task_sources == v
            &&& config.delete_task_sources is None ==> after.delete_task_sources
                == shown.delete_task_sources
        }),
{
}

/// A server that starts deletes nothing but tasks, makes no lyrics, keeps no structure and makes
/// sound, with lyric lines of fifteen characters, as far as nothing else is saved.
pub proof fn law_a_fresh_server_deletes_nothing(config: ServerConfig)
    ensures
        ({
            let after = shown_after(shown_first(), config);
            &&& config.preserve_structure is None ==> !after.preserve_structure
            &&& config.enable_lrc is None ==> !after.enable_lrc
            &&& config.lrc_chars is None ==> after.lrc_chars == 15
            &&& config.analysis_only is None ==> !after.analysis_only
            &&& config.delete_task_allocations is None ==> !after.delete_task_allocations
            &&& config.delete_task_outputs is None ==> !after.delete_task_outputs
            &&& config.delete_task_sources is None ==> !after.delete_task_sources
        }),
{
}

/// A level that an environment variable holds comes before the saved one, and that before fifty; a
/// variable that holds no level counts as none.
pub proof fn law_variables_come_before_saved_levels(n: u8, text: Seq<char>, saved: u8)
    ensures
        level_at_start(Some(decimal(n as nat)), Some(saved)) == n,
        level_at_start(Some(decimal(n as nat)), None) == n,
        bounded_numeral(text, 255) is None ==> level_at_start(Some(text), Some(saved)) == saved
            && level_at_start(Some(text), None) == 50,
        level_at_start(None, Some(saved)) == saved,
        level_at_start(None, None) == 50,
{
    law_numerals_are_read_back(n as nat);
}

} // verus!
