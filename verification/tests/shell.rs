use ribbit::shell::tray_click_hides;
use ribbit::shell::check_channel;
use ribbit::fallback::{ProviderEntry, Stack};
use ribbit::shell::{
    api_key_var, catalog_lookup, clamp_cooldown_mins, clamp_history_days, clamp_threshold,
    endpoint_for_channel, entry_host, entry_label, env_file_with, field_value, history_cap,
    history_days, just_auto_hid, log_tail, migrate_stacks_inner, move_target, new_entry,
    next_provider_id, parse_env_line, parse_stack, remaining_secs, require_https, tray_badge,
    update_channel, LegacyConfig, TrayBadge, BETA_ENDPOINT, HTTPS_REQUIRED, RELEASES_URL,
    STABLE_ENDPOINT,
};

fn pe(label: &str, url: &str, model: &str) -> ProviderEntry {
    ProviderEntry {
        id: "x".to_string(),
        label: label.to_string(),
        url: url.to_string(),
        model: model.to_string(),
        key_env: "K".to_string(),
    }
}

fn fresh() -> LegacyConfig {
    LegacyConfig {
        has_audio_stack: false,
        has_text_stack: false,
        llm_provider: None,
        llm_models: Vec::new(),
        threshold_set: false,
        cooldown_set: false,
    }
}

#[test]
fn the_version_item_points_at_the_release_list() {
    assert_eq!(RELEASES_URL, "https://github.com/olegperegudov/ribbit/releases");
}

#[test]
fn stable_is_the_default_and_the_fallback() {
    assert_eq!(endpoint_for_channel("stable"), STABLE_ENDPOINT);
    assert_eq!(endpoint_for_channel("betaa"), STABLE_ENDPOINT);
    assert_eq!(endpoint_for_channel(""), STABLE_ENDPOINT);
}

#[test]
fn beta_points_at_the_moving_prerelease() {
    assert_eq!(endpoint_for_channel("beta"), BETA_ENDPOINT);
    assert!(BETA_ENDPOINT.ends_with("/releases/download/beta/beta.json"));
}

#[test]
fn both_channels_hit_the_same_repo() {
    assert!(STABLE_ENDPOINT.starts_with("https://github.com/olegperegudov/ribbit/"));
    assert!(BETA_ENDPOINT.starts_with("https://github.com/olegperegudov/ribbit/"));
}

#[test]
fn only_an_exact_beta_setting_selects_beta() {
    assert_eq!(update_channel(Some("beta")), "beta");
    assert_eq!(update_channel(Some("Beta")), "stable");
    assert_eq!(update_channel(Some("nightly")), "stable");
    assert_eq!(update_channel(None), "stable");
}

#[test]
fn a_plain_http_endpoint_is_refused() {
    assert!(require_https("http://api.example.com/v1").is_err(), "http would send the key in the clear");
    assert!(require_https("ftp://api.example.com").is_err());
    assert!(require_https("api.example.com").is_err(), "no scheme is not a scheme we trust");
    assert_eq!(require_https("http://x").unwrap_err(), HTTPS_REQUIRED);
}

#[test]
fn https_and_an_empty_field_are_fine() {
    assert!(require_https("https://api.groq.com/openai/v1").is_ok());
    assert!(require_https("  https://api.openai.com/v1 ").is_ok());
    assert!(require_https("").is_ok(), "clearing the field is not an attack");
}

#[test]
fn a_dictation_that_never_arrived_outranks_a_waiting_release() {
    assert_eq!(tray_badge(true, true), TrayBadge::Failure);
    assert_eq!(tray_badge(true, false), TrayBadge::Failure);
}

#[test]
fn clearing_a_failure_falls_back_to_the_release_badge() {
    assert_eq!(tray_badge(false, true), TrayBadge::Update);
}

#[test]
fn nothing_to_report_leaves_the_plain_frog() {
    assert_eq!(tray_badge(false, false), TrayBadge::Plain);
}

#[test]
fn migrate_seeds_groq_primary_with_openai_fallback() {
    let (m, changed) = migrate_stacks_inner(&fresh(), true, true);
    assert!(changed);
    let audio = m.audio.unwrap();
    assert_eq!(audio.len(), 2);
    assert_eq!(audio[0].label, "groq");
    assert_eq!(audio[1].label, "openai");
    assert_eq!(audio[0].key_env, "GROQ_API_KEY");
}

#[test]
fn migrate_seeds_openai_primary_when_only_openai_key() {
    let (m, _) = migrate_stacks_inner(&fresh(), false, true);
    let audio = m.audio.unwrap();
    assert_eq!(audio.len(), 1);
    assert_eq!(audio[0].label, "openai");
}

#[test]
fn migrate_seeds_groq_on_fresh_install() {
    let (m, _) = migrate_stacks_inner(&fresh(), false, false);
    let audio = m.audio.unwrap();
    assert_eq!(audio.len(), 1);
    assert_eq!(audio[0].label, "groq");
}

#[test]
fn migrate_seeds_text_from_legacy_provider_and_model() {
    let mut cfg = fresh();
    cfg.llm_provider = Some("routerai".to_string());
    cfg.llm_models = vec![("routerai".to_string(), "custom/model-x".to_string())];
    let (m, _) = migrate_stacks_inner(&cfg, true, false);
    let text = m.text.unwrap();
    assert_eq!(text.len(), 1);
    assert_eq!(text[0].label, "routerai");
    assert_eq!(text[0].model, "custom/model-x");
    assert_eq!(text[0].key_env, "ROUTERAI_API_KEY");
}

#[test]
fn migrate_is_idempotent() {
    let cfg = fresh();
    let (m, changed) = migrate_stacks_inner(&cfg, true, true);
    assert!(changed);
    let after = LegacyConfig {
        has_audio_stack: cfg.has_audio_stack || m.audio.is_some(),
        has_text_stack: cfg.has_text_stack || m.text.is_some(),
        threshold_set: cfg.threshold_set || m.threshold.is_some(),
        cooldown_set: cfg.cooldown_set || m.cooldown_mins.is_some(),
        ..cfg
    };
    let (m2, changed2) = migrate_stacks_inner(&after, true, true);
    assert!(!changed2);
    assert!(m2.audio.is_none() && m2.text.is_none());
}

#[test]
fn migrate_sets_default_knobs() {
    let (m, _) = migrate_stacks_inner(&fresh(), true, false);
    assert_eq!(m.threshold, Some(2));
    assert_eq!(m.cooldown_mins, Some(60));
}

#[test]
fn migrate_falls_back_to_the_default_provider_and_model() {
    let mut cfg = fresh();
    cfg.llm_provider = Some("nonesuch".to_string());
    cfg.llm_models = vec![("groq".to_string(), "   ".to_string())];
    let (m, _) = migrate_stacks_inner(&cfg, false, false);
    let text = m.text.unwrap();
    assert_eq!(text[0].id, "t_primary");
    assert_eq!(text[0].label, "groq");
    assert_eq!(text[0].model, "openai/gpt-oss-120b");
    assert_eq!(text[0].url, "https://api.groq.com/openai/v1/chat/completions");
}

#[test]
fn next_id_avoids_collisions() {
    let ids = vec!["p1".to_string(), "p3".to_string()];
    assert_eq!(next_provider_id(&ids), "p4");
}

#[test]
fn next_id_ignores_ids_of_another_shape() {
    let ids = vec!["a_groq".to_string(), "t_primary".to_string(), "pz".to_string(), "p+9".to_string()];
    assert_eq!(next_provider_id(&ids), "p10");
    assert_eq!(next_provider_id(&Vec::new()), "p1");
}

#[test]
fn entry_host_and_label() {
    assert_eq!(entry_host(&pe("", "https://routerai.ru/api/v1/chat/completions", "m")), "routerai.ru");
    assert_eq!(entry_host(&pe("", "https://api.groq.com", "m")), "api.groq.com");
    assert_eq!(entry_host(&pe("", "no-slashes", "m")), "?");
    assert_eq!(entry_host(&pe("", "a/b", "m")), "?");
    assert_eq!(entry_label(&pe("groq", "https://api.groq.com/x", "whisper")), "groq/whisper");
    assert_eq!(entry_label(&pe("", "https://api.groq.com/x", "whisper")), "api.groq.com/whisper");
}

#[test]
fn stacks_are_named_audio_and_text() {
    assert_eq!(parse_stack("audio"), Ok(Stack::Audio));
    assert_eq!(parse_stack("text"), Ok(Stack::Text));
    assert_eq!(parse_stack("video"), Err("unknown stack: video".to_string()));
}

#[test]
fn catalog_lookup_prefills_known_providers() {
    let (label, url, model, key) = catalog_lookup(Stack::Text, "routerai").unwrap();
    assert_eq!(label, "routerai");
    assert_eq!(url, "https://routerai.ru/api/v1/chat/completions");
    assert_eq!(model, "google/gemma-4-26b-a4b-it");
    assert_eq!(key, "ROUTERAI_API_KEY");
    let (_, url, model, _) = catalog_lookup(Stack::Audio, "openai").unwrap();
    assert_eq!(url, "https://api.openai.com/v1/audio/transcriptions");
    assert_eq!(model, "whisper-1");
    assert!(catalog_lookup(Stack::Audio, "routerai").is_none());
}

#[test]
fn new_entries_are_custom_or_from_the_catalog() {
    let e = new_entry(Stack::Text, "custom", "p7").unwrap();
    assert_eq!((e.label.as_str(), e.url.as_str(), e.key_env.as_str()), ("custom", "", "RIBBIT_KEY_p7"));
    let e = new_entry(Stack::Audio, "groq", "p8").unwrap();
    assert_eq!(e.id, "p8");
    assert_eq!(e.key_env, "GROQ_API_KEY");
    assert_eq!(new_entry(Stack::Audio, "nope", "p9").unwrap_err(), "unknown provider: nope");
}

#[test]
fn only_url_model_and_label_are_editable() {
    assert_eq!(field_value("model", "  m1 ").unwrap(), "m1");
    assert_eq!(field_value("url", " https://x/y ").unwrap(), "https://x/y");
    assert_eq!(field_value("url", "http://x").unwrap_err(), HTTPS_REQUIRED);
    assert_eq!(field_value("id", "x").unwrap_err(), "field not editable: id");
}

#[test]
fn moving_stops_at_either_end() {
    assert_eq!(move_target(0, 3, true), None);
    assert_eq!(move_target(1, 3, true), Some(0));
    assert_eq!(move_target(1, 3, false), Some(2));
    assert_eq!(move_target(2, 3, false), None);
}

#[test]
fn api_keys_land_in_the_right_variable() {
    assert_eq!(api_key_var("gsk_abc", None), "GROQ_API_KEY");
    assert_eq!(api_key_var("sk-abc", None), "OPENAI_API_KEY");
    assert_eq!(api_key_var("x", Some("router_ai")), "ROUTERAI_API_KEY");
    assert_eq!(api_key_var("x", Some("routerai")), "ROUTERAI_API_KEY");
    assert_eq!(api_key_var("x", Some("openrouter")), "OPENROUTER_API_KEY");
    assert_eq!(api_key_var("gsk_x", Some("openai")), "OPENAI_API_KEY");
}

#[test]
fn the_env_file_replaces_one_line_and_keeps_the_rest() {
    assert_eq!(env_file_with("", "A", "1"), "A=1\n");
    assert_eq!(env_file_with("B=2\nA=old\nC=3\n", "A", "new"), "B=2\nC=3\nA=new\n");
    assert_eq!(env_file_with("AB=2\r\n", "A", "1"), "AB=2\nA=1\n");
}

#[test]
fn env_lines_are_read_as_trimmed_pairs() {
    assert_eq!(parse_env_line(" KEY = v=1 "), Some(("KEY".to_string(), "v=1".to_string())));
    assert_eq!(parse_env_line("# KEY=1"), None);
    assert_eq!(parse_env_line("=1"), None);
    assert_eq!(parse_env_line("no equals"), None);
}

#[test]
fn the_log_viewer_shows_the_last_two_hundred_lines() {
    let log: String = (0..250).map(|i| format!("line {}\n", i)).collect();
    let tail = log_tail(&log);
    assert!(tail.starts_with("line 50\n"));
    assert!(tail.ends_with("line 249"));
    assert_eq!(tail.lines().count(), 200);
    assert_eq!(log_tail("a\r\nb"), "a\nb");
    assert_eq!(log_tail(""), "");
}

#[test]
fn settings_values_are_clamped() {
    assert_eq!(history_days(None), 7);
    assert_eq!(history_days(Some(0)), 1);
    assert_eq!(history_days(Some(1000)), 365);
    assert_eq!(clamp_history_days(30), 30);
    assert_eq!(clamp_threshold(0), 1);
    assert_eq!(clamp_threshold(500), 100);
    assert_eq!(clamp_cooldown_mins(0), 1);
    assert_eq!(clamp_cooldown_mins(5000), 1440);
    assert_eq!(history_cap(0), usize::MAX);
    assert_eq!(history_cap(50), 50);
    assert_eq!(remaining_secs(3600, 100), 3500);
    assert_eq!(remaining_secs(60, 100), 0);
}

#[test]
fn a_click_right_after_an_auto_hide_is_what_hid_the_window() {
    assert!(just_auto_hid(Some(1_000), 1_300));
    assert!(!just_auto_hid(Some(1_000), 1_400));
    assert!(!just_auto_hid(None, 1_000));
    assert!(just_auto_hid(Some(2_000), 1_000));
}

#[test]
fn the_saved_hotkey_or_the_default() {
    assert_eq!(ribbit::shell::saved_shortcut(None), "ctrl+alt+space");
    assert_eq!(ribbit::shell::saved_shortcut(Some("cmd+shift+d")), "cmd+shift+d");
}

#[test]
fn a_tray_click_toggles_the_window() {
    assert!(tray_click_hides(true, false));
    assert!(tray_click_hides(false, true));
    assert!(!tray_click_hides(false, false));
}

#[test]
fn only_two_update_channels_are_stored() {
    assert!(check_channel("stable").is_ok());
    assert!(check_channel("beta").is_ok());
    assert_eq!(check_channel("nightly").unwrap_err(), "unknown update channel: nightly");
}
