use hyprland_per_window_layout::engine::Engine;
use hyprland_per_window_layout::options::Options;

fn policy(entries: Vec<(u16, Vec<&str>)>) -> Options {
    let mut opts = Options::new();
    for (index, patterns) in entries {
        let owned: Vec<String> = patterns.iter().map(|p| p.to_string()).collect();
        opts.default_layouts.push((index, owned));
    }
    opts
}

#[test]
fn focus_then_close_unseen_window() {
    let mut engine = Engine::new();
    engine.fullfill_keyboards_list("kb0".to_string());
    engine.fullfill_layouts_list("German".to_string());
    let opts = Options::new();
    assert!(engine.association_of("0xAA").is_none());
    let _ = engine.event("activewindowv2", "AA", &opts);
    assert_eq!(engine.association_of("0xAA"), Some(0));
    let _ = engine.event("closewindow", "AA", &opts);
    assert!(engine.association_of("0xAA").is_none());
    assert_eq!(engine.keyboard_names(), vec!["kb0".to_string()]);
    assert_eq!(engine.layout_names(), vec!["German".to_string()]);
}

#[test]
fn apply_layout_reissues_commands() {
    let mut engine = Engine::new();
    engine.fullfill_keyboards_list("kb0".to_string());
    let first = engine.change_layout(3);
    assert_eq!(engine.active_layout_index(), 3);
    assert_eq!(first.len(), 1);
    assert_eq!(first[0].device, "kb0");
    assert_eq!(first[0].index, 3);
    let second = engine.change_layout(3);
    assert_eq!(engine.active_layout_index(), 3);
    assert_eq!(second.len(), 1);
    assert_eq!(second[0].device, "kb0");
    assert_eq!(second[0].index, 3);
}

#[test]
fn apply_layout_without_keyboards_is_noop() {
    let mut engine = Engine::new();
    let cmds = engine.change_layout(5);
    assert!(cmds.is_empty());
    assert_eq!(engine.active_layout_index(), 0);
}

#[test]
fn default_assignment_is_deterministic() {
    let opts = policy(vec![(2, vec!["firefox"]), (1, vec!["kitty"])]);
    let mut engine = Engine::new();
    let _ = engine.event("activewindow", "kitty,dialog", &opts);
    let _ = engine.event("activewindowv2", "AB", &opts);
    assert_eq!(engine.association_of("0xAB"), Some(1));
}

#[test]
fn first_matching_policy_entry_wins() {
    let opts = policy(vec![(2, vec!["kitty"]), (1, vec!["kitty"])]);
    let mut engine = Engine::new();
    let _ = engine.event("activewindow", "kitty", &opts);
    let _ = engine.event("activewindowv2", "AC", &opts);
    assert_eq!(engine.association_of("0xAC"), Some(2));
}

#[test]
fn unmatched_class_falls_back_to_zero() {
    let opts = policy(vec![(2, vec!["firefox"])]);
    let mut engine = Engine::new();
    let _ = engine.event("activewindow", "kitty", &opts);
    let _ = engine.event("activewindowv2", "AD", &opts);
    assert_eq!(engine.association_of("0xAD"), Some(0));
}

#[test]
fn excluded_device_registered_but_never_commanded() {
    let mut engine = Engine::new();
    let opts = Options::new();
    engine.fullfill_keyboards_list("kb0".to_string());
    engine.fullfill_keyboards_list("foo-yubikey-bar".to_string());
    assert_eq!(
        engine.keyboard_names(),
        vec!["kb0".to_string(), "foo-yubikey-bar".to_string()]
    );
    let cmds = engine.change_layout(1);
    assert_eq!(cmds.len(), 1);
    assert_eq!(cmds[0].device, "kb0");
    let cmds = engine.event("activewindowv2", "AE", &opts);
    for c in cmds.iter() {
        assert!(!c.device.contains("yubikey"));
    }
}

#[test]
fn blacklisted_layout_is_never_registered() {
    let mut engine = Engine::new();
    let opts = Options::new();
    engine.fullfill_layouts_list("wvkbd".to_string());
    assert!(engine.layout_names().is_empty());
    let _ = engine.event("activelayout", "kb0,wvkbd", &opts);
    assert!(engine.layout_names().is_empty());
    assert_eq!(engine.keyboard_names(), vec!["kb0".to_string()]);
    assert_eq!(engine.active_layout_index(), 0);
}

#[test]
fn failed_device_is_pruned_and_not_retried() {
    let mut engine = Engine::new();
    engine.fullfill_keyboards_list("kb0".to_string());
    engine.fullfill_keyboards_list("kb1".to_string());
    let cmds = engine.change_layout(2);
    assert_eq!(cmds.len(), 2);
    engine.prune_keyboards(&vec!["kb0".to_string()]);
    assert_eq!(engine.keyboard_names(), vec!["kb1".to_string()]);
    let cmds = engine.change_layout(2);
    assert_eq!(cmds.len(), 1);
    assert_eq!(cmds[0].device, "kb1");
}

#[test]
fn end_to_end_scenario() {
    let mut engine = Engine::new();
    let opts = Options::new();
    engine.fullfill_keyboards_list("kb0".to_string());

    let cmds = engine.event("activewindowv2", "AA", &opts);
    assert_eq!(engine.association_of("0xAA"), Some(0));
    assert_eq!(cmds.len(), 1);
    assert_eq!(cmds[0].device, "kb0");
    assert_eq!(cmds[0].index, 0);

    let cmds = engine.event("activelayout", "kb0,German", &opts);
    assert!(cmds.is_empty());
    assert_eq!(engine.layout_names(), vec!["German".to_string()]);
    assert_eq!(engine.active_layout_index(), 0);
    assert_eq!(engine.association_of("0xAA"), Some(0));

    let cmds = engine.event("activelayout", "kb0,French", &opts);
    assert!(cmds.is_empty());
    assert_eq!(
        engine.layout_names(),
        vec!["German".to_string(), "French".to_string()]
    );
    assert_eq!(engine.active_layout_index(), 1);
    assert_eq!(engine.association_of("0xAA"), Some(1));

    let cmds = engine.event("activewindowv2", "AA", &opts);
    assert_eq!(cmds.len(), 1);
    assert_eq!(cmds[0].device, "kb0");
    assert_eq!(cmds[0].index, 1);
}

#[test]
fn refocus_uses_stored_index_not_policy() {
    let opts = policy(vec![(2, vec!["kitty"])]);
    let mut engine = Engine::new();
    engine.fullfill_keyboards_list("kb0".to_string());
    let _ = engine.event("activewindow", "other", &opts);
    let _ = engine.event("activewindowv2", "AF", &opts);
    assert_eq!(engine.association_of("0xAF"), Some(0));
    let _ = engine.event("activewindow", "kitty", &opts);
    let cmds = engine.event("activewindowv2", "AF", &opts);
    assert_eq!(engine.association_of("0xAF"), Some(0));
    assert_eq!(cmds.len(), 1);
    assert_eq!(cmds[0].index, 0);
}

#[test]
fn malformed_layout_event_is_ignored() {
    let mut engine = Engine::new();
    let opts = Options::new();
    let cmds = engine.event("activelayout", "no-comma-here", &opts);
    assert!(cmds.is_empty());
    assert!(engine.keyboard_names().is_empty());
    assert!(engine.layout_names().is_empty());
}

#[test]
fn virtual_keyboard_events_are_ignored() {
    let mut engine = Engine::new();
    let opts = Options::new();
    let _ = engine.event("activelayout", "wlr_virtual_keyboard_v1,German", &opts);
    assert!(engine.keyboard_names().is_empty());
    assert!(engine.layout_names().is_empty());
}

#[test]
fn unknown_event_is_ignored() {
    let mut engine = Engine::new();
    let opts = Options::new();
    let cmds = engine.event("monitoradded", "HDMI-1", &opts);
    assert!(cmds.is_empty());
    assert!(engine.association_of("0xHDMI-1").is_none());
}

#[test]
fn layout_name_may_hold_commas() {
    let mut engine = Engine::new();
    let opts = Options::new();
    let _ = engine.event(
        "activelayout",
        "at-translated-set-2-keyboard,English (US, intl., with dead keys)",
        &opts,
    );
    assert_eq!(
        engine.keyboard_names(),
        vec!["at-translated-set-2-keyboard".to_string()]
    );
    assert_eq!(
        engine.layout_names(),
        vec!["English (US, intl., with dead keys)".to_string()]
    );
}

#[test]
fn manual_switch_before_any_focus_tags_empty_address() {
    let mut engine = Engine::new();
    let opts = Options::new();
    let _ = engine.event("activelayout", "kb0,German", &opts);
    let _ = engine.event("activelayout", "kb0,French", &opts);
    assert_eq!(engine.active_layout_index(), 1);
    assert_eq!(engine.association_of(""), Some(1));
}

#[test]
fn registries_deduplicate() {
    let mut engine = Engine::new();
    engine.fullfill_keyboards_list("kb0".to_string());
    engine.fullfill_keyboards_list("kb0".to_string());
    engine.fullfill_layouts_list("German".to_string());
    engine.fullfill_layouts_list("German".to_string());
    assert_eq!(engine.keyboard_names(), vec!["kb0".to_string()]);
    assert_eq!(engine.layout_names(), vec!["German".to_string()]);
}

#[test]
fn manual_switch_updates_association_without_commands() {
    let mut engine = Engine::new();
    let opts = Options::new();
    engine.fullfill_keyboards_list("kb0".to_string());
    let _ = engine.event("activewindowv2", "AA", &opts);
    let _ = engine.event("activelayout", "kb0,German", &opts);
    let cmds = engine.event("activelayout", "kb0,French", &opts);
    assert!(cmds.is_empty());
    assert_eq!(engine.association_of("0xAA"), Some(1));
}
