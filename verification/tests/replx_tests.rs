use clorus_runtime::adaptive::{AdaptiveWrapper, ReplX};
use clorus_runtime::detector::{ExecutionPattern, FunctionDetector};
use clorus_runtime::strategy::{AdaptationLevel, AdaptiveConfig, ExecutionStrategy};

#[test]
fn detector_reads_the_function_name() {
    let d = FunctionDetector::new();
    let m = d.analyze("  (show-window 1 2)");
    assert_eq!(m.name, "show-window");
    assert!(m.blocks);
    assert!(m.needs_main_thread);
    assert_eq!(m.pattern, ExecutionPattern::GUI);
    assert_eq!(m.estimated_duration_ms, 0);
    assert!(!m.pure);

    let c = d.analyze("((compute-sum xs))");
    assert_eq!(c.name, "compute-sum");
    assert_eq!(c.pattern, ExecutionPattern::Compute);
    assert_eq!(c.estimated_duration_ms, 1000);
    assert!(c.pure);

    assert_eq!(d.analyze("x").name, "x");
    assert_eq!(d.analyze("(read-file f)").pattern, ExecutionPattern::IO);
    assert_eq!(d.analyze("(start-server)").pattern, ExecutionPattern::Server);
    assert_eq!(d.analyze("(reset! a 1)").estimated_duration_ms, 100);
    assert!(!d.analyze("(reset! a 1)").pure);
}

#[test]
fn configurations() {
    let d = AdaptiveConfig::default();
    assert!(d.enabled);
    assert_eq!(d.level, AdaptationLevel::AutoAdapt);
    assert_eq!(d.warn_long_running_ms, 5000);
    let g = AdaptiveConfig::main_thread_gui();
    assert!(g.main_thread && g.auto_detach_gui);
    assert_eq!(AdaptiveConfig::warn_only().level, AdaptationLevel::Warn);
}

#[test]
fn wrapper_adapts_blocking_gui_calls() {
    let w = AdaptiveWrapper::new(AdaptiveConfig::default());
    assert_eq!(w.transform_expr("(show-gui)"), ("(go (show-gui))".to_string(), true));
    assert_eq!(w.transform_expr("(+ 1 2)"), ("(+ 1 2)".to_string(), false));
    assert_eq!(w.transform_notices("(show-gui)").len(), 2);

    let warn = AdaptiveWrapper::new(AdaptiveConfig::warn_only());
    assert_eq!(warn.transform_expr("(show-gui)"), ("(show-gui)".to_string(), false));
    let notes = warn.transform_notices("(show-gui)");
    assert_eq!(notes[0], "⚠️  Warning: show-gui may block the REPL");
    assert_eq!(notes[1], "💡 Suggestion: Use (go (show-gui)) for background execution");

    let mut off = AdaptiveConfig::default();
    off.enabled = false;
    assert_eq!(AdaptiveWrapper::new(off).transform_expr("(show-gui)").1, false);
}

#[test]
fn replx_strategy() {
    let r = ReplX::default();
    assert_eq!(r.should_adapt("(show-window)"), Some(ExecutionStrategy::DetachedMainThread));
    assert_eq!(r.should_adapt("(compute 1)"), None);
    assert!(!r.to_repl_config().main_thread);
    let m = ReplX::new(AdaptiveConfig::main_thread_gui());
    assert!(m.to_repl_config().main_thread);
    assert_eq!(ReplX::new(AdaptiveConfig::warn_only()).should_adapt("(show-window)"), None);
}

#[test]
fn should_adapt_notices_per_level() {
    let auto = ReplX::new(AdaptiveConfig::default());
    assert_eq!(
        auto.should_adapt_notices("(show-gui)"),
        vec!["⚡ Detected: GUI function (blocks on main thread)", "✓ Auto-adapted: Spawned in detached context"]
    );
    assert!(auto.should_adapt_notices("(+ 1 2)").is_empty());
    let warn = ReplX::new(AdaptiveConfig::warn_only());
    assert_eq!(
        warn.should_adapt_notices("(show-window)"),
        vec!["⚠️  Warning: This function may block the REPL", "💡 Consider using: clorus replx --main-thread"]
    );
    let mut quick = AdaptiveConfig::default();
    quick.warn_long_running_ms = 200;
    let hinting = ReplX::new(quick);
    assert_eq!(
        hinting.should_adapt_notices("(compute-pi 10)"),
        vec!["💡 Hint: Long computation detected.", "   Consider: (async compute-pi) for background execution"]
    );
    let mut silent = AdaptiveConfig::default();
    silent.level = AdaptationLevel::Silent;
    assert!(ReplX::new(silent).should_adapt_notices("(show-gui)").is_empty());
}

#[test]
fn server_functions_are_detached_when_asked() {
    let mut c = AdaptiveConfig::default();
    c.auto_detach_servers = true;
    let w = AdaptiveWrapper::new(c.copy());
    assert_eq!(w.transform_expr("(start-server)"), ("(go (start-server))".to_string(), true));
    assert_eq!(w.transform_notices("(start-server)").len(), 2);
    assert_eq!(ReplX::new(c).should_adapt("(start-server)"), Some(ExecutionStrategy::Detached));
    let plain = AdaptiveWrapper::new(AdaptiveConfig::default());
    assert_eq!(plain.transform_expr("(start-server)"), ("(start-server)".to_string(), false));
    assert_eq!(ReplX::new(AdaptiveConfig::default()).should_adapt("(start-server)"), None);
}

#[test]
fn main_thread_functions_stay_on_macos() {
    let w = AdaptiveWrapper::new(AdaptiveConfig::default());
    assert_eq!(w.transform_expr_on("(show-gui)", true), ("(show-gui)".to_string(), false));
    assert_eq!(
        w.transform_notices_on("(show-gui)", true),
        vec![
            "⚠️  macOS GUI detected: show-gui requires main thread",
            "💡 Note: GUI will block REPL until window closes",
            "   This is a macOS limitation - GUI EventLoop must run on main thread",
        ]
    );
    let mut c = AdaptiveConfig::default();
    c.auto_detach_servers = true;
    let s = AdaptiveWrapper::new(c);
    assert_eq!(s.transform_expr_on("(start-server)", true), ("(go (start-server))".to_string(), true));
}

#[test]
fn learns_to_detach_after_repeated_blocking() {
    let mut r = ReplX::new(AdaptiveConfig::default());
    assert_eq!(r.profile("draw"), None);
    assert!(!r.learn_from_execution("draw", true));
    assert!(!r.learn_from_execution("draw", false));
    assert!(!r.learn_from_execution("draw", true));
    assert!(!r.learn_from_execution("draw", true));
    assert_eq!(r.profile("draw"), Some((4, 3, None)));
    assert!(r.learn_from_execution("draw", true));
    assert_eq!(r.profile("draw"), Some((5, 4, Some(ExecutionPattern::GUI))));
    assert!(!r.learn_from_execution("draw", true));
    assert_eq!(r.profile("draw"), Some((6, 5, Some(ExecutionPattern::GUI))));
    assert_eq!(r.profile("other"), None);
}

#[test]
fn detector_names_and_patterns_follow_the_docs() {
    let d = FunctionDetector::new();
    let w = d.analyze("(show-window)");
    assert_eq!(w.name, "show-window");
    let g = d.analyze("(show-dialog)");
    assert_eq!(g.pattern, ExecutionPattern::GUI);
    assert!(g.blocks && g.needs_main_thread);
    let s = d.analyze("(serve-files)");
    assert_eq!(s.pattern, ExecutionPattern::Server);
    assert!(s.blocks);
    assert_eq!(s.estimated_duration_ms, 0);
    assert_eq!(d.analyze("(listen)").name, "listen");
    assert_eq!(d.analyze("()").name, "");
}
