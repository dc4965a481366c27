use element::providers::system::{
    arg_after, format_duration, parse_action, parse_timer_seconds, SystemAction, SystemProvider,
};

#[test]
fn matches_command_words_only() {
    let provider = SystemProvider;
    assert!(provider.should_run("lock"));
    assert!(provider.should_run("LOCK"));
    assert!(provider.should_run("restart"));
    assert!(provider.should_run("shutdown now"));
    assert!(provider.should_run("volume 40"));
    assert!(provider.should_run("screen off"));
    assert!(!provider.should_run("locksmith"));
    assert!(!provider.should_run("shut"));
    assert!(!provider.should_run(""));
}

#[test]
fn search_returns_matching_command() {
    let provider = SystemProvider;
    let results = provider.search("lock", None);
    assert_eq!(results.len(), 1);
    assert_eq!(results[0].title, "Lock");
    assert_eq!(results[0].action, "lock");
    assert_eq!(results[0].score, 300);

    // "reboot" maps to the restart action.
    let results = provider.search("reboot", None);
    assert_eq!(results[0].action, "restart");
}

#[test]
fn volume_needs_a_valid_level() {
    let provider = SystemProvider;
    let results = provider.search("volume 40", None);
    assert_eq!(results.len(), 1);
    assert_eq!(results[0].action, "volume:40");
    assert!(results[0].subtitle.contains("40%"));
    // bare "volume" shows the current level
    assert!(provider.needs_current_volume("volume"));
    let results = provider.search("volume", Some(35));
    assert_eq!(results.len(), 1);
    assert_eq!(results[0].action, "volume:show");
    assert_eq!(results[0].subtitle, "Current volume: 35%");
    let results = provider.search("volume", None);
    assert_eq!(results[0].subtitle, "Set the volume, e.g. volume 40");
    // bad levels produce no result
    assert!(provider.search("volume loud", None).is_empty());
    assert!(provider.search("volume 101", None).is_empty());
}

#[test]
fn mute_is_static() {
    let provider = SystemProvider;
    let results = provider.search("mute", None);
    assert_eq!(results.len(), 1);
    assert_eq!(results[0].action, "mute");
}

#[test]
fn timer_parses_durations() {
    // bare number = minutes
    assert_eq!(parse_timer_seconds("10"), Some(600));
    assert_eq!(parse_timer_seconds("5m"), Some(300));
    assert_eq!(parse_timer_seconds("30s"), Some(30));
    assert_eq!(parse_timer_seconds("1h"), Some(3600));
    assert_eq!(parse_timer_seconds("2H"), Some(7200));
    assert_eq!(parse_timer_seconds("1 min"), None);
    assert_eq!(parse_timer_seconds("0"), None);
    assert_eq!(parse_timer_seconds(""), None);
    assert_eq!(parse_timer_seconds("30s"), Some(30));
    // 25 hours is over the 24 h cap
    assert_eq!(parse_timer_seconds("25h"), None);
    assert!(parse_timer_seconds("100000000000000000000m").is_none());
}

#[test]
fn timer_search_builds_action() {
    let provider = SystemProvider;
    let results = provider.search("timer 10", None);
    assert_eq!(results.len(), 1);
    assert_eq!(results[0].action, "timer:600");
    assert!(results[0].subtitle.contains("10 min"));
    // bare "timer" (no duration) produces no result
    assert!(provider.search("timer", None).is_empty());
}

#[test]
fn password_defaults_and_length() {
    let provider = SystemProvider;
    let results = provider.search("password", None);
    assert_eq!(results[0].action, "password:16");
    assert_eq!(results[0].kind, "password");
    let results = provider.search("password 24", None);
    assert_eq!(results[0].action, "password:24");
    let results = provider.search("password notanumber", None);
    assert_eq!(results[0].action, "password:16");
}

#[test]
fn screenshot_and_screen_off() {
    let provider = SystemProvider;
    let results = provider.search("screenshot", None);
    assert_eq!(results[0].action, "screenshot");
    assert_eq!(results[0].kind, "system");
    let results = provider.search("screen off", None);
    assert_eq!(results[0].action, "screenoff");
}

#[test]
fn durations_read_in_words() {
    assert_eq!(format_duration(600), "10 min");
    assert_eq!(format_duration(90), "1 min 30 sec");
    assert_eq!(format_duration(45), "45 sec");
}

#[test]
fn argument_follows_the_keyword() {
    let a: String = arg_after("  timer   5m ", "timer").into_iter().collect();
    assert_eq!(a, "5m");
    let a: String = arg_after("lock", "lock").into_iter().collect();
    assert_eq!(a, "");
}

#[test]
fn actions_read_back() {
    assert_eq!(parse_action("lock"), SystemAction::Lock);
    assert_eq!(parse_action("volume:show"), SystemAction::ShowVolume);
    assert_eq!(parse_action("volume:40"), SystemAction::SetVolume(40));
    assert_eq!(parse_action("volume:x"), SystemAction::SetVolume(0));
    assert_eq!(parse_action("timer:600"), SystemAction::Timer(600));
    assert_eq!(parse_action("password:24"), SystemAction::Password(24));
    assert_eq!(parse_action("password:"), SystemAction::Password(16));
    assert_eq!(parse_action("reboot"), SystemAction::Unknown);
}
