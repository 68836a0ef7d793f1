//! Adaptive execution: decides, from what the detector found out about an
//! expression, whether to run it as typed or wrapped in a `go` block, and
//! which strategy suits it.

use crate::detector::{ExecutionPattern, spec_function_name, spec_is_blocking, spec_needs_main_thread, spec_detect_pattern, spec_pattern_duration, FunctionDetector, FunctionMetadata, metadata_matches};
use crate::repl::{is_default_repl_config, ReplConfig};
use crate::strategy::{is_default_config, AdaptationLevel, AdaptiveConfig, ExecutionStrategy};
use crate::text::{push_str, same_text, string_from};
use vstd::prelude::*;

verus! {

/// Wraps the REPL's evaluation with adaptive execution.
pub struct AdaptiveWrapper {
    pub(crate) config: AdaptiveConfig,
    pub(crate) detector: FunctionDetector,
}

/// Whether the function named `n` is a blocking GUI function that `c`
/// detaches.
pub open spec fn detaches_gui(c: AdaptiveConfig, n: Seq<char>) -> bool {
    spec_is_blocking(n) && spec_needs_main_thread(n) && c.auto_detach_gui
}

/// Whether the function named `n` is a blocking server function that `c`
/// detaches.
pub open spec fn detaches_server(c: AdaptiveConfig, n: Seq<char>) -> bool {
    spec_is_blocking(n) && spec_detect_pattern(n) == ExecutionPattern::Server && c.auto_detach_servers
}

/// Whether an expression gets adapted under `c`: adaptation is on, and the
/// expression is a blocking GUI function with GUI detaching on, or a
/// blocking server function with server detaching on.
pub open spec fn adapts(c: AdaptiveConfig, expr: Seq<char>) -> bool {
    let n = spec_function_name(expr);
    c.enabled && (detaches_gui(c, n) || detaches_server(c, n))
}

/// `expr` wrapped in a `go` block.
pub open spec fn go_form(expr: Seq<char>) -> Seq<char> {
    "(go "@ + expr + ")"@
}

/// Whether an adapted expression is held back because it needs the main
/// thread on macOS, where a `go` block cannot run it.
pub open spec fn held_on_main(expr: Seq<char>, macos: bool) -> bool {
    macos && spec_needs_main_thread(spec_function_name(expr))
}

/// The expression to evaluate and whether it was adapted, on macOS when
/// `macos` holds: adapted expressions at the automatic levels run in a `go`
/// block, except main-thread functions on macOS.
pub open spec fn spec_transform_on(c: AdaptiveConfig, expr: Seq<char>, macos: bool) -> (Seq<char>, bool) {
    if adapts(c, expr) && !held_on_main(expr, macos) && (c.level == AdaptationLevel::AutoAdapt || c.level
        == AdaptationLevel::Silent) {
        (go_form(expr), true)
    } else {
        (expr, false)
    }
}

/// The expression to evaluate and whether it was adapted, elsewhere than
/// on macOS.
pub open spec fn spec_transform(c: AdaptiveConfig, expr: Seq<char>) -> (Seq<char>, bool) {
    spec_transform_on(c, expr, false)
}

/// The lines shown to the user when an expression is transformed, on macOS
/// when `macos` holds.
pub open spec fn spec_transform_notices_on(c: AdaptiveConfig, expr: Seq<char>, macos: bool) -> Seq<Seq<char>> {
    if !adapts(c, expr) {
        Seq::empty()
    } else if held_on_main(expr, macos) {
        if c.level == AdaptationLevel::Warn || c.level == AdaptationLevel::AutoAdapt {
            seq![
                "⚠️  macOS GUI detected: "@ + spec_function_name(expr) + " requires main thread"@,
                "💡 Note: GUI will block REPL until window closes"@,
                "   This is a macOS limitation - GUI EventLoop must run on main thread"@,
            ]
        } else {
            Seq::empty()
        }
    } else if c.level == AdaptationLevel::Warn {
        seq![
            "⚠️  Warning: "@ + spec_function_name(expr) + " may block the REPL"@,
            "💡 Suggestion: Use (go "@ + expr + ") for background execution"@,
        ]
    } else if c.level == AdaptationLevel::AutoAdapt {
        seq!["⚡ Detected: Blocking function"@, "✓ Auto-adapted: Running in go block"@]
    } else {
        Seq::empty()
    }
}

/// The lines shown to the user when an expression is transformed,
/// elsewhere than on macOS.
pub open spec fn spec_transform_notices(c: AdaptiveConfig, expr: Seq<char>) -> Seq<Seq<char>> {
    spec_transform_notices_on(c, expr, false)
}

impl AdaptiveWrapper {
    /// The wrapper's configuration.
    pub closed spec fn spec_config(&self) -> AdaptiveConfig {
        self.config
    }

    /// A wrapper with the given configuration.
    pub fn new(config: AdaptiveConfig) -> (r: Self)
        ensures
            r.spec_config() == config,
    {
        AdaptiveWrapper { config, detector: FunctionDetector::new() }
    }

    /// The configuration.
    pub fn config(&self) -> (r: &AdaptiveConfig)
        ensures
            *r == self.spec_config(),
    {
        &self.config
    }

    /// Whether the analyzed function is one this wrapper detaches.
    fn detaches(&self, m: &FunctionMetadata) -> (r: bool)
        requires
            m.blocks == spec_is_blocking(m.name@),
            m.needs_main_thread == spec_needs_main_thread(m.name@),
            m.pattern == spec_detect_pattern(m.name@),
        ensures
            r == (detaches_gui(self.spec_config(), m.name@) || detaches_server(self.spec_config(), m.name@)),
    {
        let server = match m.pattern {
            ExecutionPattern::Server => true,
            _ => false,
        };
        m.blocks && ((m.needs_main_thread && self.config.auto_detach_gui) || (server
            && self.config.auto_detach_servers))
    }

    /// The expression to evaluate, and whether it was adapted, on macOS
    /// when `macos` holds (see [`spec_transform_on`]).
    pub fn transform_expr_on(&self, expr: &str, macos: bool) -> (r: (String, bool))
        ensures
            (r.0@, r.1) == spec_transform_on(self.spec_config(), expr@, macos),
    {
        if !self.config.enabled {
            return (string_from(expr), false);
        }
        let metadata = self.detector.analyze(expr);
        if !self.detaches(&metadata) || (macos && metadata.needs_main_thread) {
            return (string_from(expr), false);
        }
        match self.config.level {
            AdaptationLevel::Off => (string_from(expr), false),
            AdaptationLevel::Warn => (string_from(expr), false),
            AdaptationLevel::AutoAdapt => (wrap_in_go(expr), true),
            AdaptationLevel::Silent => (wrap_in_go(expr), true),
        }
    }

    /// The expression to evaluate, and whether it was adapted, elsewhere
    /// than on macOS.
    pub fn transform_expr(&self, expr: &str) -> (r: (String, bool))
        ensures
            (r.0@, r.1) == spec_transform(self.spec_config(), expr@),
    {
        self.transform_expr_on(expr, false)
    }

    /// The lines to show the user when `expr` is transformed, on macOS when
    /// `macos` holds.
    pub fn transform_notices_on(&self, expr: &str, macos: bool) -> (r: Vec<String>)
        ensures
            r@.len() == spec_transform_notices_on(self.spec_config(), expr@, macos).len(),
            forall|i: int|
                0 <= i < r@.len() ==> #[trigger] r@[i]@ == spec_transform_notices_on(
                    self.spec_config(),
                    expr@,
                    macos,
                )[i],
    {
        let mut out: Vec<String> = Vec::new();
        if !self.config.enabled {
            return out;
        }
        let metadata = self.detector.analyze(expr);
        if !self.detaches(&metadata) {
            return out;
        }
        if macos && metadata.needs_main_thread {
            match self.config.level {
                AdaptationLevel::Warn => {
                    self.push_macos_notes(&mut out, metadata.name.as_str());
                },
                AdaptationLevel::AutoAdapt => {
                    self.push_macos_notes(&mut out, metadata.name.as_str());
                },
                _ => {},
            }
            return out;
        }
        match self.config.level {
            AdaptationLevel::Warn => {
                let mut first = string_from("⚠️  Warning: ");
                push_str(&mut first, metadata.name.as_str());
                push_str(&mut first, " may block the REPL");
                let mut second = string_from("💡 Suggestion: Use (go ");
                push_str(&mut second, expr);
                push_str(&mut second, ") for background execution");
                out.push(first);
                out.push(second);
            },
            AdaptationLevel::AutoAdapt => {
                out.push(string_from("⚡ Detected: Blocking function"));
                out.push(string_from("✓ Auto-adapted: Running in go block"));
            },
            _ => {},
        }
        out
    }

    fn push_macos_notes(&self, out: &mut Vec<String>, name: &str)
        ensures
            final(out)@.len() == old(out)@.len() + 3,
            forall|i: int| 0 <= i < old(out)@.len() ==> final(out)@[i] == old(out)@[i],
            final(out)@[old(out)@.len() as int]@ == "⚠️  macOS GUI detected: "@ + name@ + " requires main thread"@,
            final(out)@[old(out)@.len() + 1int]@ == "💡 Note: GUI will block REPL until window closes"@,
            final(out)@[old(out)@.len() + 2int]@ == "   This is a macOS limitation - GUI EventLoop must run on main thread"@,
    {
        let mut first = string_from("⚠️  macOS GUI detected: ");
        push_str(&mut first, name);
        push_str(&mut first, " requires main thread");
        out.push(first);
        out.push(string_from("💡 Note: GUI will block REPL until window closes"));
        out.push(string_from("   This is a macOS limitation - GUI EventLoop must run on main thread"));
    }

    /// The lines to show the user when `expr` is transformed, elsewhere
    /// than on macOS.
    pub fn transform_notices(&self, expr: &str) -> (r: Vec<String>)
        ensures
            r@.len() == spec_transform_notices(self.spec_config(), expr@).len(),
            forall|i: int|
                0 <= i < r@.len() ==> #[trigger] r@[i]@ == spec_transform_notices(self.spec_config(), expr@)[i],
    {
        self.transform_notices_on(expr, false)
    }
}

/// `(go expr)`.
fn wrap_in_go(expr: &str) -> (r: String)
    ensures
        r@ == go_form(expr@),
{
    let mut s = string_from("(go ");
    push_str(&mut s, expr);
    push_str(&mut s, ")");
    s
}

/// The REPL with adaptive execution.
pub struct ReplX {
    pub(crate) config: AdaptiveConfig,
    pub(crate) detector: FunctionDetector,
    pub(crate) profiles: Vec<FunctionProfile>,
}

/// What the REPL has learned about a function from running it: how often
/// it ran, how often it blocked, and the pattern learned for it.
pub struct FunctionProfile {
    pub name: String,
    pub call_count: u64,
    pub blocked_count: u64,
    pub learned_pattern: Option<ExecutionPattern>,
}

/// A profile's counts and learned pattern.
pub open spec fn profile_counts(p: FunctionProfile) -> (u64, u64, Option<ExecutionPattern>) {
    (p.call_count, p.blocked_count, p.learned_pattern)
}

/// The first profile of `ps` for the function `name`.
pub open spec fn profile_of(ps: Seq<FunctionProfile>, name: Seq<char>) -> Option<(u64, u64, Option<ExecutionPattern>)>
    decreases ps.len(),
{
    if ps.len() == 0 {
        None
    } else if ps[0].name@ == name {
        Some(profile_counts(ps[0]))
    } else {
        profile_of(ps.drop_first(), name)
    }
}

/// The profile after one more run of a function, blocked or not: a
/// function that has blocked more than three times is learned to be a GUI
/// function, to be detached.
pub open spec fn learned_profile(old: Option<(u64, u64, Option<ExecutionPattern>)>, blocked: bool) -> (
    u64,
    u64,
    Option<ExecutionPattern>,
) {
    let (c, b, p) = match old {
        Some(t) => t,
        None => (0u64, 0u64, None),
    };
    let b2 = if blocked {
        b + 1
    } else {
        b as int
    };
    (
        (c + 1) as u64,
        b2 as u64,
        if b2 > 3 && p is None {
            Some(ExecutionPattern::GUI)
        } else {
            p
        },
    )
}

/// Profiles after replacing the first one for its name.
proof fn lemma_profile_update(ps: Seq<FunctionProfile>, i: int, new: FunctionProfile, n: Seq<char>)
    requires
        0 <= i < ps.len(),
        ps[i].name@ == new.name@,
        forall|j: int| 0 <= j < i ==> (#[trigger] ps[j]).name@ != new.name@,
    ensures
        profile_of(ps.update(i, new), n) == if n == new.name@ {
            Some(profile_counts(new))
        } else {
            profile_of(ps, n)
        },
    decreases ps.len(),
{
    if i > 0 {
        assert(ps.update(i, new).drop_first() =~= ps.drop_first().update(i - 1, new));
        assert forall|j: int| 0 <= j < i - 1 implies (#[trigger] ps.drop_first()[j]).name@ != new.name@ by {
            assert(ps.drop_first()[j] == ps[j + 1]);
        }
        lemma_profile_update(ps.drop_first(), i - 1, new, n);
    } else {
        assert(ps.update(i, new).drop_first() =~= ps.drop_first());
    }
}

/// Profiles after adding one for a name that had none.
proof fn lemma_profile_push(ps: Seq<FunctionProfile>, new: FunctionProfile, n: Seq<char>)
    requires
        profile_of(ps, new.name@) is None,
    ensures
        profile_of(ps.push(new), n) == if n == new.name@ {
            Some(profile_counts(new))
        } else {
            profile_of(ps, n)
        },
    decreases ps.len(),
{
    if ps.len() > 0 {
        assert(ps.push(new)[0] == ps[0]);
        assert(ps[0].name@ != new.name@);
        assert(ps.push(new).drop_first() =~= ps.drop_first().push(new));
        lemma_profile_push(ps.drop_first(), new, n);
    } else {
        assert(ps.push(new)[0] == new);
        assert(ps.push(new).drop_first() =~= Seq::<FunctionProfile>::empty());
        assert(profile_of(Seq::<FunctionProfile>::empty(), n) is None);
        assert(profile_of(ps, n) is None);
    }
}

/// The strategy for an analyzed function: blocking main-thread functions
/// are run detached on the main thread when GUI detaching is on; no
/// strategy otherwise.
pub open spec fn spec_determine_strategy(c: AdaptiveConfig, blocks: bool, main: bool, pattern: ExecutionPattern) -> Option<
    ExecutionStrategy,
> {
    if blocks && main && c.auto_detach_gui {
        Some(ExecutionStrategy::DetachedMainThread)
    } else if blocks && pattern == ExecutionPattern::Server && c.auto_detach_servers {
        Some(ExecutionStrategy::Detached)
    } else {
        None
    }
}

/// Whether, and how, an expression gets adapted under `c`.
pub open spec fn spec_should_adapt(c: AdaptiveConfig, expr: Seq<char>) -> Option<ExecutionStrategy> {
    let n = spec_function_name(expr);
    if !c.enabled {
        None
    } else if c.level == AdaptationLevel::AutoAdapt || c.level == AdaptationLevel::Silent {
        spec_determine_strategy(c, spec_is_blocking(n), spec_needs_main_thread(n), spec_detect_pattern(n))
    } else {
        None
    }
}

/// The lines the adaptive REPL shows while deciding how to run `expr`
/// under `c`: a warning at the warning level, a notice when a blocking
/// main-thread function is detached (at the auto-adapt level), and a hint
/// for a long computation when optimisations are suggested.
pub open spec fn spec_should_adapt_notices(c: AdaptiveConfig, expr: Seq<char>) -> Seq<Seq<char>> {
    let n = spec_function_name(expr);
    let detached = spec_is_blocking(n) && spec_needs_main_thread(n) && c.auto_detach_gui;
    if !c.enabled || c.level == AdaptationLevel::Off {
        Seq::empty()
    } else if c.level == AdaptationLevel::Warn {
        if spec_is_blocking(n) && spec_needs_main_thread(n) {
            seq!["⚠️  Warning: This function may block the REPL"@, "💡 Consider using: clorus replx --main-thread"@]
        } else {
            Seq::empty()
        }
    } else if detached {
        if c.level == AdaptationLevel::AutoAdapt {
            seq!["⚡ Detected: GUI function (blocks on main thread)"@, "✓ Auto-adapted: Spawned in detached context"@]
        } else {
            Seq::empty()
        }
    } else if detaches_server(c, n) {
        Seq::empty()
    } else if spec_pattern_duration(spec_detect_pattern(n)) > c.warn_long_running_ms && c.suggest_optimizations {
        seq!["💡 Hint: Long computation detected."@, "   Consider: (async "@ + n + ") for background execution"@]
    } else {
        Seq::empty()
    }
}

impl ReplX {
    /// The REPL's configuration.
    pub closed spec fn spec_config(&self) -> AdaptiveConfig {
        self.config
    }

    /// An adaptive REPL with the given configuration, that has learned
    /// nothing yet.
    pub fn new(config: AdaptiveConfig) -> (r: Self)
        ensures
            r.spec_config() == config,
            forall|n: Seq<char>| #[trigger] r.profile_view(n) is None,
    {
        ReplX { config, detector: FunctionDetector::new(), profiles: Vec::new() }
    }

    /// What has been learned about the function `name`, if it ran.
    pub closed spec fn profile_view(&self, name: Seq<char>) -> Option<(u64, u64, Option<ExecutionPattern>)> {
        profile_of(self.profiles@, name)
    }

    /// What has been learned about the function `name`, if it ran: its
    /// run count, blocked count and learned pattern.
    pub fn profile(&self, name: &str) -> (r: Option<(u64, u64, Option<ExecutionPattern>)>)
        ensures
            r == self.profile_view(name@),
    {
        match self.find_profile(name) {
            Some(i) => {
                let p = &self.profiles[i];
                Some((p.call_count, p.blocked_count, p.learned_pattern))
            },
            None => None,
        }
    }

    /// The index of the first profile for `name`.
    fn find_profile(&self, name: &str) -> (r: Option<usize>)
        ensures
            match r {
                Some(i) => i < self.profiles@.len() && self.profiles@[i as int].name@ == name@ && (forall|j: int|
                    0 <= j < i ==> (#[trigger] self.profiles@[j]).name@ != name@) && self.profile_view(name@)
                    == Some(profile_counts(self.profiles@[i as int])),
                None => self.profile_view(name@) is None,
            },
    {
        let ghost ps = self.profiles@;
        let mut i: usize = 0;
        proof {
            assert(ps.skip(0) =~= ps);
        }
        while i < self.profiles.len()
            invariant
                i <= ps.len(),
                ps == self.profiles@,
                profile_of(ps, name@) == profile_of(ps.skip(i as int), name@),
                forall|j: int| 0 <= j < i ==> (#[trigger] ps[j]).name@ != name@,
            decreases self.profiles.len() - i,
        {
            proof {
                assert(ps.skip(i as int)[0] == ps[i as int]);
                assert(ps.skip(i as int).drop_first() =~= ps.skip(i + 1));
            }
            if same_text(self.profiles[i].name.as_str(), name) {
                return Some(i);
            }
            i += 1;
        }
        None
    }

    /// Records one run of the function `func_name`, and whether it blocked
    /// (see [`learned_profile`]); true when this run taught that it is to be
    /// detached.
    pub fn learn_from_execution(&mut self, func_name: &str, blocked: bool) -> (learned: bool)
        requires
            old(self).profile_view(func_name@) matches Some(t) ==> t.0 < u64::MAX && t.1 < u64::MAX,
        ensures
            final(self).spec_config() == old(self).spec_config(),
            final(self).profile_view(func_name@) == Some(learned_profile(old(self).profile_view(func_name@), blocked)),
            forall|n: Seq<char>| n != func_name@ ==> #[trigger] final(self).profile_view(n) == old(self).profile_view(n),
            learned == (learned_profile(old(self).profile_view(func_name@), blocked).2 is Some && !(old(
                self,
            ).profile_view(func_name@) matches Some(t) && t.2 is Some)),
    {
        let (c, b, p, found) = match self.find_profile(func_name) {
            Some(i) => {
                let q = &self.profiles[i];
                (q.call_count, q.blocked_count, q.learned_pattern, Some(i))
            },
            None => (0u64, 0u64, None, None),
        };
        let c2 = c + 1;
        let b2 = if blocked {
            b + 1
        } else {
            b
        };
        let learned = b2 > 3 && p.is_none();
        let p2 = if learned {
            Some(ExecutionPattern::GUI)
        } else {
            p
        };
        let new = FunctionProfile { name: string_from(func_name), call_count: c2, blocked_count: b2, learned_pattern: p2 };
        let ghost ps = self.profiles@;
        let ghost newv = new;
        match found {
            Some(i) => {
                self.profiles.set(i, new);
                proof {
                    assert forall|n: Seq<char>| #[trigger] profile_of(self.profiles@, n) == if n == func_name@ {
                        Some(profile_counts(newv))
                    } else {
                        profile_of(ps, n)
                    } by {
                        lemma_profile_update(ps, i as int, newv, n);
                    }
                }
            },
            None => {
                self.profiles.push(new);
                proof {
                    assert forall|n: Seq<char>| #[trigger] profile_of(self.profiles@, n) == if n == func_name@ {
                        Some(profile_counts(newv))
                    } else {
                        profile_of(ps, n)
                    } by {
                        lemma_profile_push(ps, newv, n);
                    }
                }
            },
        }
        learned
    }

    /// An adaptive REPL with the default configuration.
    pub fn default() -> (r: Self)
        ensures
            is_default_config(r.spec_config()),
    {
        ReplX::new(AdaptiveConfig::default())
    }

    /// The configuration.
    pub fn config(&self) -> (r: &AdaptiveConfig)
        ensures
            *r == self.spec_config(),
    {
        &self.config
    }

    /// The base REPL configuration: the default one, on the main thread
    /// when this configuration asks for it.
    pub fn to_repl_config(&self) -> (r: ReplConfig)
        ensures
            r.main_thread == self.spec_config().main_thread,
            is_default_repl_config(ReplConfig { main_thread: false, ..r }),
    {
        let mut c = ReplConfig::default();
        c.main_thread = self.config.main_thread;
        c
    }

    /// The strategy for `expr`, if it gets adapted.
    pub fn should_adapt(&self, expr: &str) -> (r: Option<ExecutionStrategy>)
        ensures
            r == spec_should_adapt(self.spec_config(), expr@),
    {
        if !self.config.enabled {
            return None;
        }
        let metadata = self.detector.analyze(expr);
        match self.config.level {
            AdaptationLevel::Off => None,
            AdaptationLevel::Warn => None,
            AdaptationLevel::AutoAdapt => self.determine_strategy(&metadata),
            AdaptationLevel::Silent => self.determine_strategy(&metadata),
        }
    }

    /// The lines shown while deciding how to run `expr` (see
    /// [`spec_should_adapt_notices`]).
    pub fn should_adapt_notices(&self, expr: &str) -> (r: Vec<String>)
        ensures
            r@.len() == spec_should_adapt_notices(self.spec_config(), expr@).len(),
            forall|i: int|
                0 <= i < r@.len() ==> #[trigger] r@[i]@ == spec_should_adapt_notices(self.spec_config(), expr@)[i],
    {
        let mut out: Vec<String> = Vec::new();
        if !self.config.enabled {
            return out;
        }
        let metadata = self.detector.analyze(expr);
        match self.config.level {
            AdaptationLevel::Off => {},
            AdaptationLevel::Warn => {
                if metadata.blocks && metadata.needs_main_thread {
                    out.push(string_from("⚠️  Warning: This function may block the REPL"));
                    out.push(string_from("💡 Consider using: clorus replx --main-thread"));
                }
            },
            _ => {
                if metadata.blocks && metadata.needs_main_thread && self.config.auto_detach_gui {
                    if self.config.level == AdaptationLevel::AutoAdapt {
                        out.push(string_from("⚡ Detected: GUI function (blocks on main thread)"));
                        out.push(string_from("✓ Auto-adapted: Spawned in detached context"));
                    }
                } else if self.detaches_server_fn(&metadata) {
                } else if metadata.estimated_duration_ms > self.config.warn_long_running_ms
                    && self.config.suggest_optimizations {
                    let mut second = string_from("   Consider: (async ");
                    push_str(&mut second, metadata.name.as_str());
                    push_str(&mut second, ") for background execution");
                    out.push(string_from("💡 Hint: Long computation detected."));
                    out.push(second);
                }
            },
        }
        out
    }

    fn detaches_server_fn(&self, m: &FunctionMetadata) -> (r: bool)
        requires
            m.blocks == spec_is_blocking(m.name@),
            m.pattern == spec_detect_pattern(m.name@),
        ensures
            r == detaches_server(self.spec_config(), m.name@),
    {
        let server = match m.pattern {
            ExecutionPattern::Server => true,
            _ => false,
        };
        m.blocks && server && self.config.auto_detach_servers
    }

    /// The strategy for analyzed metadata.
    pub fn determine_strategy(&self, metadata: &FunctionMetadata) -> (r: Option<ExecutionStrategy>)
        ensures
            r == spec_determine_strategy(
                self.spec_config(),
                metadata.blocks,
                metadata.needs_main_thread,
                metadata.pattern,
            ),
    {
        if metadata.blocks && metadata.needs_main_thread && self.config.auto_detach_gui {
            return Some(ExecutionStrategy::DetachedMainThread);
        }
        let server = match metadata.pattern {
            ExecutionPattern::Server => true,
            _ => false,
        };
        if metadata.blocks && server && self.config.auto_detach_servers {
            return Some(ExecutionStrategy::Detached);
        }
        None
    }
}

} // verus!
