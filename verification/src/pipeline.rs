//! The decisions of one dictation, from the released hotkey to the typed
//! text: whether the recording is worth sending, where the audio stack walk
//! starts, what its outcome is reported as, whether the LLM editor runs, what
//! its outcome turns the transcript into, and whether anything is typed.
//!
//! The shell performs each step (recording, the provider calls, events,
//! typing) and hands the outcome back here.

use vstd::prelude::*;

use crate::fallback::{CallError, ProviderEntry, Stack, StackStates};
use crate::hallucinations;
use crate::shell::{entry_host, entry_label, host_spec, label_spec};
use crate::text;
use crate::vocab::{apply, apply_spec, vocab_view, VocabEntry};

verus! {

// ---------------------------------------------------------------------------
// The hotkey.
// ---------------------------------------------------------------------------

/// What the global hotkey reports.
#[derive(Debug, Clone, Copy, PartialEq, Eq, Structural)]
pub enum HotkeyEvent {
    Pressed,
    Released,
}

/// What the shell does about it.
#[derive(Debug, Clone, Copy, PartialEq, Eq, Structural)]
pub enum HotkeyAction {
    /// Open the microphone and start collecting samples.
    StartRecording,
    /// Close it and run the dictation.
    StopAndTranscribe,
    /// A repeated press while the key is held, or a release with nothing
    /// recording.
    Ignore,
}

/// Push to talk: a press starts a recording unless one is running, a release
/// ends the one that is running.
pub open spec fn hotkey_spec(recording: bool, event: HotkeyEvent) -> HotkeyAction {
    match event {
        HotkeyEvent::Pressed => if recording {
            HotkeyAction::Ignore
        } else {
            HotkeyAction::StartRecording
        },
        HotkeyEvent::Released => if recording {
            HotkeyAction::StopAndTranscribe
        } else {
            HotkeyAction::Ignore
        },
    }
}

/// What the shell does about a hotkey event.
pub fn hotkey_action(recording: bool, event: HotkeyEvent) -> (a: HotkeyAction)
    ensures
        a == hotkey_spec(recording, event),
        a == (match event {
            HotkeyEvent::Pressed => if recording {
                HotkeyAction::Ignore
            } else {
                HotkeyAction::StartRecording
            },
            HotkeyEvent::Released => if recording {
                HotkeyAction::StopAndTranscribe
            } else {
                HotkeyAction::Ignore
            },
        }),
{
    match event {
        HotkeyEvent::Pressed => if recording {
            HotkeyAction::Ignore
        } else {
            HotkeyAction::StartRecording
        },
        HotkeyEvent::Released => if recording {
            HotkeyAction::StopAndTranscribe
        } else {
            HotkeyAction::Ignore
        },
    }
}

/// Whether the recording flag is set after `a`.
pub open spec fn recording_after(recording: bool, a: HotkeyAction) -> bool {
    match a {
        HotkeyAction::StartRecording => true,
        HotkeyAction::StopAndTranscribe => false,
        HotkeyAction::Ignore => recording,
    }
}

/// Every press is matched by at most one dictation: a held key cannot start a
/// second recording, and a release without a recording starts no dictation.
pub proof fn law_one_dictation_per_press(recording: bool)
    ensures
        hotkey_spec(true, HotkeyEvent::Pressed) == HotkeyAction::Ignore,
        hotkey_spec(false, HotkeyEvent::Released) == HotkeyAction::Ignore,
        ({
            let held = recording_after(recording, hotkey_spec(recording, HotkeyEvent::Pressed));
            &&& held
            &&& !recording_after(held, hotkey_spec(held, HotkeyEvent::Released))
            &&& hotkey_spec(held, HotkeyEvent::Released) == HotkeyAction::StopAndTranscribe
        }),
{
}

// ---------------------------------------------------------------------------
// The recording.
// ---------------------------------------------------------------------------

/// Whether a recording goes to the speech stack.
#[derive(Debug, Clone, Copy, PartialEq, Eq, Structural)]
pub enum Gate {
    /// Empty, or under 0.3 s of audio.
    TooShort,
    /// The microphone delivered silence (its level is under the floor the
    /// shell measures).
    Silent,
    /// Worth transcribing.
    Send,
}

/// The recording gate: `n` samples at `rate` per second are too short when
/// there are none or they last under 0.3 s (10·n < 3·rate); a recording
/// the shell measured as silent is refused next.
pub open spec fn gate_spec(n: nat, rate: nat, silent: bool) -> Gate {
    if n == 0 || 10 * n < 3 * rate {
        Gate::TooShort
    } else if silent {
        Gate::Silent
    } else {
        Gate::Send
    }
}

/// Whether the recording is worth sending.
pub fn gate_recording(n_samples: usize, sample_rate: u32, silent: bool) -> (g: Gate)
    ensures
        g == gate_spec(n_samples as nat, sample_rate as nat, silent),
{
    if n_samples == 0 || (n_samples as u128) * 10 < (sample_rate as u128) * 3 {
        Gate::TooShort
    } else if silent {
        Gate::Silent
    } else {
        Gate::Send
    }
}

/// The status line for a refused recording.
pub fn gate_message(g: Gate) -> (r: Option<&'static str>)
    ensures
        match g {
            Gate::TooShort => r matches Some(m) && m@ == "too short, try again"@,
            Gate::Silent => r matches Some(m) && m@
                == "mic heard nothing — check microphone access in system settings"@,
            Gate::Send => r is None,
        },
{
    match g {
        Gate::TooShort => Some("too short, try again"),
        Gate::Silent => Some("mic heard nothing — check microphone access in system settings"),
        Gate::Send => None,
    }
}

// ---------------------------------------------------------------------------
// The speech stack.
// ---------------------------------------------------------------------------

/// What a dictation reports when the audio stack is empty.
pub const NO_AUDIO_PROVIDER: &'static str = "No audio provider configured. Add one in Settings.";

/// Where a stack walk starts: the stack's active entry after its cooldown
/// check at `now`, kept within the `len` entries there are.
pub fn walk_start(states: &mut StackStates, stack: Stack, len: usize, now: u64, cooldown: u64) -> (i: usize)
    requires
        len > 0,
    ensures
        *final(states) == old(states).with_slot(
            stack,
            old(states).slot(stack).reset_spec(now, cooldown),
        ),
        i == (if old(states).slot(stack).reset_spec(now, cooldown).active < len {
            old(states).slot(stack).reset_spec(now, cooldown).active
        } else {
            (len - 1) as usize
        }),
{
    let a = crate::fallback::active_index(states, stack, now, cooldown);
    if a < len {
        a
    } else {
        len - 1
    }
}

/// The transcript or the error text, and the "provider/model" label the
/// history shows: the entry that answered, or the one the walk started at.
pub open spec fn stt_report_spec(
    entries: Seq<ProviderEntry>,
    start: int,
    outcome: Result<(String, usize), CallError>,
) -> (Result<Seq<char>, Seq<char>>, Seq<char>) {
    match outcome {
        Ok((t, used)) => (Ok(t@), label_spec(entries[used as int])),
        Err(e) => (Err(e.message@), label_spec(entries[start])),
    }
}

pub open spec fn report_view(r: (Result<String, String>, String)) -> (Result<Seq<char>, Seq<char>>, Seq<char>) {
    (
        match r.0 {
            Ok(t) => Ok(t@),
            Err(m) => Err(m@),
        },
        r.1@,
    )
}

/// What the speech stack's walk comes to for the dictation.
pub fn stt_report(entries: &[ProviderEntry], start: usize, outcome: Result<(String, usize), CallError>) -> (r: (
    Result<String, String>,
    String,
))
    requires
        start < entries@.len(),
        outcome matches Ok((_, used)) ==> used < entries@.len(),
    ensures
        report_view(r) == stt_report_spec(entries@, start as int, outcome),
{
    match outcome {
        Ok((t, used)) => {
            let label = entry_label(&entries[used]);
            (Ok(t), label)
        },
        Err(e) => {
            let label = entry_label(&entries[start]);
            (Err(e.message), label)
        },
    }
}

/// Whether any entry of a stack has a key (`keys[i]` is entry `i`'s key,
/// empty when it has none).
pub fn any_key(keys: &[String]) -> (b: bool)
    ensures
        b == exists|i: int| 0 <= i < keys@.len() && (#[trigger] keys@[i])@.len() > 0,
{
    let mut i: usize = 0;
    while i < keys.len()
        invariant
            0 <= i <= keys@.len(),
            forall|j: int| 0 <= j < i ==> (#[trigger] keys@[j])@.len() == 0,
        decreases keys.len() - i,
    {
        if text::chars_of(keys[i].as_str()).len() > 0 {
            return true;
        }
        i = i + 1;
    }
    false
}

/// The report of a dictation when the audio stack has no entries.
pub fn no_audio_report() -> (r: (Result<String, String>, String))
    ensures
        report_view(r) == (Err::<Seq<char>, Seq<char>>(NO_AUDIO_PROVIDER@), "none"@),
{
    (Err(String::from_str(NO_AUDIO_PROVIDER)), String::from_str("none"))
}

// ---------------------------------------------------------------------------
// The editor.
// ---------------------------------------------------------------------------

/// Whether the LLM editor runs for a transcript.
#[derive(Debug, Clone, Copy, PartialEq, Eq, Structural)]
pub enum EditPlan {
    /// The strict vocabulary pass alone: the editor is off, the text stack
    /// is empty, or there is nothing but whitespace to edit.
    Strict,
    /// The editor is on but no text provider has a key.
    NoKey,
    /// Walk the text stack.
    Edit,
}

/// The editor runs when it is enabled, the text stack has entries and the
/// transcript has more than whitespace; without any key it is reported as
/// such instead.
pub open spec fn plan_spec(enabled: bool, n_entries: nat, raw: Seq<char>, any_key: bool) -> EditPlan {
    if enabled && n_entries > 0 && text::trim(raw).len() > 0 {
        if any_key {
            EditPlan::Edit
        } else {
            EditPlan::NoKey
        }
    } else {
        EditPlan::Strict
    }
}

pub fn edit_plan(enabled: bool, n_entries: usize, raw: &str, any_key: bool) -> (p: EditPlan)
    ensures
        p == plan_spec(enabled, n_entries as nat, raw@, any_key),
{
    if enabled && n_entries > 0 && text::chars_of(text::trimmed(raw).as_str()).len() > 0 {
        if any_key {
            EditPlan::Edit
        } else {
            EditPlan::NoKey
        }
    } else {
        EditPlan::Strict
    }
}

/// What becomes of the note the settings show about the last editor failure.
#[derive(Debug, Clone)]
pub enum LastError {
    Keep,
    Clear,
    Record(String),
}

/// The transcript as the dictation delivers it, and what the history
/// records about the editor.
#[derive(Debug)]
pub struct EditReport {
    pub text: String,
    pub edited: bool,
    pub attempted: bool,
    pub llm_host: Option<String>,
    pub llm_model: Option<String>,
    pub llm_error: Option<&'static str>,
    pub last_error: LastError,
}

/// The message kept when no text provider has a key.
pub const NO_TEXT_KEY: &'static str = "no key set for any text provider";

pub open spec fn opt_view(o: Option<String>) -> Option<Seq<char>> {
    match o {
        Some(s) => Some(s@),
        None => None,
    }
}

pub open spec fn static_view(o: Option<&'static str>) -> Option<Seq<char>> {
    match o {
        Some(s) => Some(s@),
        None => None,
    }
}

pub open spec fn last_error_view(l: LastError) -> Option<Option<Seq<char>>> {
    match l {
        LastError::Keep => None,
        LastError::Clear => Some(None),
        LastError::Record(m) => Some(Some(m@)),
    }
}

/// The report as plain values: text, edited, attempted, host, model, error
/// reason, and the change to the last-failure note (`None`: keep it).
pub open spec fn edit_report_view(r: EditReport) -> (
    Seq<char>,
    bool,
    bool,
    Option<Seq<char>>,
    Option<Seq<char>>,
    Option<Seq<char>>,
    Option<Option<Seq<char>>>,
) {
    (
        r.text@,
        r.edited,
        r.attempted,
        opt_view(r.llm_host),
        opt_view(r.llm_model),
        static_view(r.llm_error),
        last_error_view(r.last_error),
    )
}

/// What the transcript `raw` becomes. The terms are always the strict
/// vocabulary pass's job: it runs over the editor's output when the editor
/// answered, and over the raw transcript otherwise. A failed walk names the
/// entry it started at and keeps the failure for the settings note; a
/// successful one names the entry that answered and clears the note.
pub open spec fn edit_report_spec(
    raw: Seq<char>,
    vocab: Seq<(Seq<char>, Seq<Seq<char>>)>,
    plan: EditPlan,
    entries: Seq<ProviderEntry>,
    start: int,
    outcome: Option<Result<(String, usize), CallError>>,
) -> (
    Seq<char>,
    bool,
    bool,
    Option<Seq<char>>,
    Option<Seq<char>>,
    Option<Seq<char>>,
    Option<Option<Seq<char>>>,
) {
    match plan {
        EditPlan::Strict => (apply_spec(raw, vocab), false, false, None, None, None, None),
        EditPlan::NoKey => (
            apply_spec(raw, vocab),
            false,
            false,
            None,
            None,
            Some("no key set"@),
            Some(Some(NO_TEXT_KEY@)),
        ),
        EditPlan::Edit => match outcome {
            Some(Ok((t, used))) => (
                apply_spec(t@, vocab),
                true,
                true,
                Some(host_spec(entries[used as int].url@)),
                Some(entries[used as int].model@),
                None,
                Some(None),
            ),
            Some(Err(e)) => (
                apply_spec(raw, vocab),
                false,
                true,
                Some(host_spec(entries[start].url@)),
                Some(entries[start].model@),
                Some(e.reason@),
                Some(Some(e.message@)),
            ),
            None => (apply_spec(raw, vocab), false, true, None, None, None, None),
        },
    }
}

/// What the transcript becomes after the editor step. `outcome` is what the
/// text stack's walk returned when the plan was to edit.
pub fn edit_report(
    raw: &str,
    vocab: &[VocabEntry],
    plan: EditPlan,
    entries: &[ProviderEntry],
    start: usize,
    outcome: Option<Result<(String, usize), CallError>>,
) -> (r: EditReport)
    requires
        plan == EditPlan::Edit && outcome is Some ==> start < entries@.len(),
        outcome matches Some(Ok((_, used))) ==> used < entries@.len(),
    ensures
        edit_report_view(r) == edit_report_spec(raw@, vocab_view(vocab@), plan, entries@, start as int, outcome),
{
    match plan {
        EditPlan::Strict => EditReport {
            text: apply(raw, vocab),
            edited: false,
            attempted: false,
            llm_host: None,
            llm_model: None,
            llm_error: None,
            last_error: LastError::Keep,
        },
        EditPlan::NoKey => EditReport {
            text: apply(raw, vocab),
            edited: false,
            attempted: false,
            llm_host: None,
            llm_model: None,
            llm_error: Some("no key set"),
            last_error: LastError::Record(String::from_str(NO_TEXT_KEY)),
        },
        EditPlan::Edit => match outcome {
            Some(Ok((t, used))) => EditReport {
                text: apply(t.as_str(), vocab),
                edited: true,
                attempted: true,
                llm_host: Some(entry_host(&entries[used])),
                llm_model: Some(entries[used].model.clone()),
                llm_error: None,
                last_error: LastError::Clear,
            },
            Some(Err(e)) => EditReport {
                text: apply(raw, vocab),
                edited: false,
                attempted: true,
                llm_host: Some(entry_host(&entries[start])),
                llm_model: Some(entries[start].model.clone()),
                llm_error: Some(e.reason),
                last_error: LastError::Record(e.message),
            },
            None => EditReport {
                text: apply(raw, vocab),
                edited: false,
                attempted: true,
                llm_host: None,
                llm_model: None,
                llm_error: None,
                last_error: LastError::Keep,
            },
        },
    }
}

/// The editor can only improve a dictation, never lose it: whatever the
/// plan and whatever the walk returned, the delivered text is the strict
/// vocabulary pass over the raw transcript or over the editor's answer; it
/// counts as edited exactly when the editor answered; a failed walk keeps its
/// reason for the settings note and a successful one clears the note.
pub proof fn law_editor_never_loses_the_dictation(
    raw: Seq<char>,
    vocab: Seq<(Seq<char>, Seq<Seq<char>>)>,
    plan: EditPlan,
    entries: Seq<ProviderEntry>,
    start: int,
    outcome: Option<Result<(String, usize), CallError>>,
)
    ensures
        ({
            let r = edit_report_spec(raw, vocab, plan, entries, start, outcome);
            &&& (r.1 <==> (plan == EditPlan::Edit && outcome matches Some(Ok(_))))
            &&& (r.1 ==> r.0 == apply_spec(outcome->Some_0->Ok_0.0@, vocab))
            &&& (!r.1 ==> r.0 == apply_spec(raw, vocab))
            &&& (plan == EditPlan::Edit && outcome is Some && outcome->Some_0 is Err ==> {
                let e = outcome->Some_0->Err_0;
                r.6 == Some(Some(e.message@)) && r.5 == Some(e.reason@)
            })
            &&& (r.1 ==> r.6 == Some(None::<Seq<char>>))
        }),
{
}

/// The transcript the editor step starts from: the speech provider's text
/// with Whisper's silence phantoms cut off its end.
pub fn raw_transcript(stt_text: &str) -> (r: String)
    ensures
        r@ == hallucinations::strip_spec(stt_text@),
{
    hallucinations::strip(stt_text)
}

/// Whether the delivered text is typed: an empty transcript is reported as
/// "no speech detected" instead.
pub fn nothing_heard(text: &str) -> (b: bool)
    ensures
        b == (text@.len() == 0),
{
    text::chars_of(text).len() == 0
}

} // verus!
