use ribbit::pipeline::{hotkey_action, HotkeyAction, HotkeyEvent};
use ribbit::pipeline::any_key;
use ribbit::fallback::{CallError, ProviderEntry, Stack, StackStates};
use ribbit::pipeline::{
    edit_plan, edit_report, gate_message, gate_recording, no_audio_report, nothing_heard,
    raw_transcript, stt_report, walk_start, EditPlan, Gate, LastError,
};
use ribbit::vocab::VocabEntry;

fn pe(id: &str, label: &str, url: &str, model: &str) -> ProviderEntry {
    ProviderEntry {
        id: id.to_string(),
        label: label.to_string(),
        url: url.to_string(),
        model: model.to_string(),
        key_env: "K".to_string(),
    }
}

fn vocab() -> Vec<VocabEntry> {
    vec![VocabEntry { target: "merge".to_string(), aliases: vec!["мёрж".to_string()] }]
}

#[test]
fn short_and_silent_recordings_are_not_sent() {
    assert_eq!(gate_recording(0, 16000, false), Gate::TooShort);
    assert_eq!(gate_recording(4799, 16000, false), Gate::TooShort);
    assert_eq!(gate_recording(4800, 16000, false), Gate::Send);
    assert_eq!(gate_recording(48000, 16000, true), Gate::Silent);
    assert_eq!(gate_message(Gate::TooShort), Some("too short, try again"));
    assert_eq!(gate_message(Gate::Send), None);
}

#[test]
fn the_walk_starts_at_the_active_entry_within_the_stack() {
    let mut states = StackStates::new();
    states.audio.record_switch_fail(0, 5, 1, None);
    states.audio.record_switch_fail(0, 5, 1, None);
    assert_eq!(walk_start(&mut states, Stack::Audio, 5, 10, 60_000), 2);
    assert_eq!(walk_start(&mut states, Stack::Audio, 2, 10, 60_000), 1);
    assert_eq!(walk_start(&mut states, Stack::Audio, 5, 70_000, 60_000), 0);
}

#[test]
fn the_speech_report_names_the_entry_that_answered() {
    let entries = [pe("a", "groq", "https://api.groq.com/x", "w1"), pe("b", "", "https://api.openai.com/x", "w2")];
    let (r, label) = stt_report(&entries, 0, Ok(("текст".to_string(), 1)));
    assert_eq!(r, Ok("текст".to_string()));
    assert_eq!(label, "api.openai.com/w2");
    let (r, label) = stt_report(&entries, 0, Err(CallError::transport(true, "slow".to_string())));
    assert_eq!(r, Err("slow".to_string()));
    assert_eq!(label, "groq/w1");
    let (r, label) = no_audio_report();
    assert_eq!(r, Err("No audio provider configured. Add one in Settings.".to_string()));
    assert_eq!(label, "none");
}

#[test]
fn the_editor_runs_only_when_it_can() {
    assert_eq!(edit_plan(false, 2, "текст", true), EditPlan::Strict);
    assert_eq!(edit_plan(true, 0, "текст", true), EditPlan::Strict);
    assert_eq!(edit_plan(true, 2, "   ", true), EditPlan::Strict);
    assert_eq!(edit_plan(true, 2, "текст", false), EditPlan::NoKey);
    assert_eq!(edit_plan(true, 2, "текст", true), EditPlan::Edit);
}

#[test]
fn the_terms_are_always_the_strict_pass_job() {
    let entries = [pe("t", "routerai", "https://routerai.ru/api/v1", "gemma")];
    let v = vocab();
    let ok = edit_report("надо сделать мёрж", &v, EditPlan::Edit, &entries, 0, Some(Ok(("Надо сделать мёрж.".to_string(), 0))));
    assert_eq!(ok.text, "Надо сделать merge.");
    assert!(ok.edited && ok.attempted);
    assert_eq!(ok.llm_host.as_deref(), Some("routerai.ru"));
    assert_eq!(ok.llm_model.as_deref(), Some("gemma"));
    assert!(matches!(ok.last_error, LastError::Clear));

    let failed = edit_report(
        "надо сделать мёрж",
        &v,
        EditPlan::Edit,
        &entries,
        0,
        Some(Err(CallError::http(429, "slow down".to_string(), None))),
    );
    assert_eq!(failed.text, "надо сделать merge");
    assert!(!failed.edited && failed.attempted);
    assert_eq!(failed.llm_error, Some("rate limit / free tier"));
    assert!(matches!(failed.last_error, LastError::Record(ref m) if m == "slow down"));

    let nokey = edit_report("мёрж", &v, EditPlan::NoKey, &entries, 0, None);
    assert_eq!(nokey.text, "merge");
    assert_eq!(nokey.llm_error, Some("no key set"));
    assert!(matches!(nokey.last_error, LastError::Record(ref m) if m == "no key set for any text provider"));

    let strict = edit_report("мёрж", &v, EditPlan::Strict, &entries, 0, None);
    assert_eq!(strict.text, "merge");
    assert!(!strict.attempted);
    assert!(matches!(strict.last_error, LastError::Keep));
}

#[test]
fn the_phantom_is_cut_before_anything_else() {
    assert_eq!(raw_transcript("текст Продолжение следует..."), "текст");
    assert!(nothing_heard(""));
    assert!(!nothing_heard("a"));
}

#[test]
fn push_to_talk() {
    assert_eq!(hotkey_action(false, HotkeyEvent::Pressed), HotkeyAction::StartRecording);
    assert_eq!(hotkey_action(true, HotkeyEvent::Pressed), HotkeyAction::Ignore);
    assert_eq!(hotkey_action(true, HotkeyEvent::Released), HotkeyAction::StopAndTranscribe);
    assert_eq!(hotkey_action(false, HotkeyEvent::Released), HotkeyAction::Ignore);
}

#[test]
fn any_key_looks_for_a_non_empty_one() {
    assert!(!any_key(&[]));
    assert!(!any_key(&[String::new(), String::new()]));
    assert!(any_key(&[String::new(), "k".to_string()]));
}
