//! Settings that background services re-read, so a config reload takes
//! effect without restarting them, and the counters services coordinate by.
use vstd::prelude::*;

verus! {

broadcast use vstd::string::group_string_axioms;

/// Fastest system meter refresh, in milliseconds.
pub const MIN_SYS_REFRESH_MS: u64 = 50;

/// Live service settings.
#[derive(Debug, Clone)]
pub struct LiveServiceConfig {
    /// strftime format of the clock island.
    pub clock_format: String,
    /// System meter refresh period, never under `MIN_SYS_REFRESH_MS`.
    pub sys_refresh_ms: u64,
    /// Bumped on every reload; custom island loops of older generations stop.
    pub custom_generation: u64,
    /// The tray host has been started (it starts once).
    pub tray_started: bool,
    pub volume_detect_bluetooth: bool,
    /// Volume ceiling in hundredths of a percent (150.0 % is 15000).
    pub volume_max_centi: u64,
}

pub open spec fn refresh_floor(ms: u64) -> u64 {
    if ms < MIN_SYS_REFRESH_MS {
        MIN_SYS_REFRESH_MS
    } else {
        ms
    }
}

impl LiveServiceConfig {
    /// Settings from a freshly loaded config: generation 0, tray not started.
    pub fn new(
        clock_format: String,
        sys_refresh_ms: u64,
        volume_detect_bluetooth: bool,
        volume_max_centi: u64,
    ) -> (r: Self)
        ensures
            r.clock_format@ == clock_format@,
            r.sys_refresh_ms == refresh_floor(sys_refresh_ms),
            r.custom_generation == 0,
            !r.tray_started,
            r.volume_detect_bluetooth == volume_detect_bluetooth,
            r.volume_max_centi == volume_max_centi,
    {
        LiveServiceConfig {
            clock_format,
            sys_refresh_ms: if sys_refresh_ms < MIN_SYS_REFRESH_MS {
                MIN_SYS_REFRESH_MS
            } else {
                sys_refresh_ms
            },
            custom_generation: 0,
            tray_started: false,
            volume_detect_bluetooth,
            volume_max_centi,
        }
    }

    /// Takes the settings of a reloaded config; the generation and the tray
    /// flag are left alone.
    pub fn apply(
        &mut self,
        clock_format: String,
        sys_refresh_ms: u64,
        volume_detect_bluetooth: bool,
        volume_max_centi: u64,
    )
        ensures
            final(self).clock_format@ == clock_format@,
            final(self).sys_refresh_ms == refresh_floor(sys_refresh_ms),
            final(self).custom_generation == old(self).custom_generation,
            final(self).tray_started == old(self).tray_started,
            final(self).volume_detect_bluetooth == volume_detect_bluetooth,
            final(self).volume_max_centi == volume_max_centi,
    {
        self.clock_format = clock_format;
        self.sys_refresh_ms = if sys_refresh_ms < MIN_SYS_REFRESH_MS {
            MIN_SYS_REFRESH_MS
        } else {
            sys_refresh_ms
        };
        self.volume_detect_bluetooth = volume_detect_bluetooth;
        self.volume_max_centi = volume_max_centi;
    }

    /// Starts a new generation of custom islands and returns its number.
    pub fn next_custom_generation(&mut self) -> (g: u64)
        requires
            old(self).custom_generation < u64::MAX,
        ensures
            g == old(self).custom_generation + 1,
            final(self).custom_generation == g,
            final(self).clock_format == old(self).clock_format,
            final(self).sys_refresh_ms == old(self).sys_refresh_ms,
            final(self).tray_started == old(self).tray_started,
            final(self).volume_detect_bluetooth == old(self).volume_detect_bluetooth,
            final(self).volume_max_centi == old(self).volume_max_centi,
    {
        self.custom_generation = self.custom_generation + 1;
        self.custom_generation
    }

    /// Marks the tray host started; says whether it already was (then it
    /// must not start again).
    pub fn start_tray(&mut self) -> (was_started: bool)
        ensures
            was_started == old(self).tray_started,
            final(self).tray_started,
            final(self).clock_format == old(self).clock_format,
            final(self).sys_refresh_ms == old(self).sys_refresh_ms,
            final(self).custom_generation == old(self).custom_generation,
            final(self).volume_detect_bluetooth == old(self).volume_detect_bluetooth,
            final(self).volume_max_centi == old(self).volume_max_centi,
    {
        let was = self.tray_started;
        self.tray_started = true;
        was
    }
}

/// A custom island loop of generation `mine` keeps running while it is the
/// current generation.
pub fn generation_current(current: u64, mine: u64) -> (r: bool)
    ensures
        r == (current == mine),
{
    current == mine
}

} // verus!
