//! Execution strategies and the configuration of adaptive execution.

use vstd::prelude::*;

verus! {

/// How to execute a function, given what was detected about it.
#[derive(Debug, Clone, PartialEq, Eq, Structural)]
pub enum ExecutionStrategy {
    /// Normal execution (blocks the REPL until done).
    Normal,
    /// Spawn in a background thread and return at once.
    Detached,
    /// Run on the main thread in a detached context (GUI on macOS).
    DetachedMainThread,
    /// Suggest asynchronous execution to the user.
    SuggestAsync,
    /// Parallelize where possible.
    Parallel,
}

/// How aggressively to adapt execution.
#[derive(Debug, Clone, Copy, PartialEq, Eq, Structural)]
pub enum AdaptationLevel {
    /// No adaptation (traditional REPL).
    Off,
    /// Warn about potential issues.
    Warn,
    /// Adapt automatically, with notifications.
    AutoAdapt,
    /// Adapt automatically, silently.
    Silent,
}

/// Configuration of adaptive execution.
#[derive(Debug, Clone)]
pub struct AdaptiveConfig {
    /// Whether adaptive features are on.
    pub enabled: bool,
    /// How aggressive adaptation is.
    pub level: AdaptationLevel,
    /// Run on the main thread (for GUI).
    pub main_thread: bool,
    /// Detach GUI functions automatically.
    pub auto_detach_gui: bool,
    /// Detach server functions automatically.
    pub auto_detach_servers: bool,
    /// Suggest optimizations to the user.
    pub suggest_optimizations: bool,
    /// Warn when a function is expected to run longer than this (ms).
    pub warn_long_running_ms: u64,
}

/// The default configuration: enabled, auto-adapting, off the main
/// thread, detaching GUI functions but not servers, suggesting
/// optimizations, warning after five seconds.
pub open spec fn is_default_config(c: AdaptiveConfig) -> bool {
    &&& c.enabled
    &&& c.level == AdaptationLevel::AutoAdapt
    &&& !c.main_thread
    &&& c.auto_detach_gui
    &&& !c.auto_detach_servers
    &&& c.suggest_optimizations
    &&& c.warn_long_running_ms == 5000
}

impl Default for AdaptiveConfig {
    fn default() -> (r: Self)
        ensures
            is_default_config(r),
    {
        AdaptiveConfig {
            enabled: true,
            level: AdaptationLevel::AutoAdapt,
            main_thread: false,
            auto_detach_gui: true,
            auto_detach_servers: false,
            suggest_optimizations: true,
            warn_long_running_ms: 5000,
        }
    }
}

impl AdaptiveConfig {
    /// A copy of the configuration.
    pub fn copy(&self) -> (r: Self)
        ensures
            r == *self,
    {
        AdaptiveConfig {
            enabled: self.enabled,
            level: self.level,
            main_thread: self.main_thread,
            auto_detach_gui: self.auto_detach_gui,
            auto_detach_servers: self.auto_detach_servers,
            suggest_optimizations: self.suggest_optimizations,
            warn_long_running_ms: self.warn_long_running_ms,
        }
    }

    /// The default configuration on the main thread, with GUI functions
    /// detached.
    pub fn main_thread_gui() -> (r: Self)
        ensures
            r == (AdaptiveConfig { main_thread: true, auto_detach_gui: true, ..r }),
            is_default_config(AdaptiveConfig { main_thread: false, ..r }),
    {
        let mut c = AdaptiveConfig::default();
        c.main_thread = true;
        c.auto_detach_gui = true;
        c
    }

    /// The default configuration with warnings only.
    pub fn warn_only() -> (r: Self)
        ensures
            r.level == AdaptationLevel::Warn,
            is_default_config(AdaptiveConfig { level: AdaptationLevel::AutoAdapt, ..r }),
    {
        let mut c = AdaptiveConfig::default();
        c.level = AdaptationLevel::Warn;
        c
    }
}

} // verus!
