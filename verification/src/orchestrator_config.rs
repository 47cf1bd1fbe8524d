use vstd::prelude::*;

verus! {

/// Limits the orchestrator enforces before opening a profile.
///
/// The load threshold is a percentage held as the bit pattern of an `f64`
/// (`f64::to_bits`); comparisons against it happen where floating point is available.
#[derive(Debug)]
pub struct OrchestratorConfig {
    pub max_active_profiles: usize,
    pub max_xfce_sessions: usize,
    pub min_free_ram_mb: u64,
    pub max_load_pct_bits: u64,
    pub max_chrome_procs: usize,
    pub queue_enabled: bool,
}

/// The bit pattern of the `f64` 80.0.
pub open spec fn eighty_bits() -> u64 {
    0x4054_0000_0000_0000
}

/// Default limit of profiles open at once.
pub fn default_max_active_profiles() -> (n: usize)
    ensures
        n == 3,
{
    3
}

/// Default limit of desktop sessions.
pub fn default_max_xfce_sessions() -> (n: usize)
    ensures
        n == 2,
{
    2
}

/// Default minimum of free memory, in MB.
pub fn default_min_free_ram_mb() -> (n: u64)
    ensures
        n == 512,
{
    512
}

/// Default load threshold, 80.0 as the bits of an `f64`.
pub fn default_max_load_pct_bits() -> (n: u64)
    ensures
        n == eighty_bits(),
{
    0x4054_0000_0000_0000
}

/// Default limit of browser processes.
pub fn default_max_chrome_procs() -> (n: usize)
    ensures
        n == 30,
{
    30
}

/// Requests beyond the limit are queued by default.
pub fn default_queue_enabled() -> (b: bool)
    ensures
        b,
{
    true
}

impl OrchestratorConfig {
    /// The default limits: 3 profiles, 2 sessions, 512 MB, load 80, 30 processes, queue on.
    pub fn default_config() -> (c: Self)
        ensures
            c.max_active_profiles == 3,
            c.max_xfce_sessions == 2,
            c.min_free_ram_mb == 512,
            c.max_load_pct_bits == eighty_bits(),
            c.max_chrome_procs == 30,
            c.queue_enabled,
    {
        OrchestratorConfig {
            max_active_profiles: default_max_active_profiles(),
            max_xfce_sessions: default_max_xfce_sessions(),
            min_free_ram_mb: default_min_free_ram_mb(),
            max_load_pct_bits: default_max_load_pct_bits(),
            max_chrome_procs: default_max_chrome_procs(),
            queue_enabled: default_queue_enabled(),
        }
    }

    /// An exact copy.
    pub fn duplicate(&self) -> (c: Self)
        ensures
            c == *self,
    {
        OrchestratorConfig {
            max_active_profiles: self.max_active_profiles,
            max_xfce_sessions: self.max_xfce_sessions,
            min_free_ram_mb: self.min_free_ram_mb,
            max_load_pct_bits: self.max_load_pct_bits,
            max_chrome_procs: self.max_chrome_procs,
            queue_enabled: self.queue_enabled,
        }
    }
}

impl Default for OrchestratorConfig {
    fn default() -> (c: Self)
        ensures
            c.max_active_profiles == 3,
            c.max_xfce_sessions == 2,
            c.min_free_ram_mb == 512,
            c.max_load_pct_bits == eighty_bits(),
            c.max_chrome_procs == 30,
            c.queue_enabled,
    {
        Self::default_config()
    }
}

} // verus!
