//! Provider stacks and the auto-fallback state machine shared by the speech
//! (audio) and editor (text) pipelines.
//!
//! Each stack is an ordered list of provider entries; entry `0` is the
//! primary. A request that fails *transiently* — HTTP 429, a 5xx, a timeout or
//! a transport error — counts toward a per-stack tally of consecutive
//! failures; once it reaches the threshold the active pointer moves to the next
//! entry and stays there for a cooldown window (or for the provider's own
//! `Retry-After`, whichever is longer), then snaps back to the primary. A
//! *hard* client error (400/401/403/404) never moves it.
//!
//! Time is a monotonic clock reading in milliseconds; durations are
//! milliseconds too. The states live in a [`StackStates`] value that the shell
//! owns, one slot per stack.

use vstd::prelude::*;

use crate::text;

verus! {

/// One provider in a stack. `key_env` names the `.env` variable that holds
/// this entry's API key; `url` is the full endpoint.
#[derive(Debug, Clone)]
pub struct ProviderEntry {
    pub id: String,
    pub label: String,
    pub url: String,
    pub model: String,
    pub key_env: String,
}

/// Which stack (and which state slot) a call belongs to.
#[derive(Debug, Clone, Copy, PartialEq, Eq, Structural)]
pub enum Stack {
    Audio,
    Text,
}

impl Stack {
    /// Config key holding this stack's ordered entry list.
    pub fn config_key(self) -> (r: &'static str)
        ensures
            r@ == (match self {
                Stack::Audio => "audio_providers"@,
                Stack::Text => "text_providers"@,
            }),
    {
        match self {
            Stack::Audio => "audio_providers",
            Stack::Text => "text_providers",
        }
    }

    /// Short name for log lines.
    pub fn name(self) -> (r: &'static str)
        ensures
            r@ == (match self {
                Stack::Audio => "audio"@,
                Stack::Text => "text"@,
            }),
    {
        match self {
            Stack::Audio => "audio",
            Stack::Text => "text",
        }
    }
}

/// How the caller should react to a failed request.
#[derive(Debug, Clone, Copy, PartialEq, Eq, Structural)]
pub enum FailKind {
    /// Transient (429 / 5xx / timeout / transport): counts toward the switch.
    Switch,
    /// Hard client error or refused content: surface it, never switch.
    Hard,
}

/// Everything the state machine needs to know about a failed request.
/// `status == Some(200)` means the HTTP call succeeded but its content was
/// the problem. `retry_after` is the provider's own `Retry-After`, in
/// milliseconds. `reason` is the failure in the user's words.
#[derive(Debug, Clone)]
pub struct CallError {
    pub status: Option<u16>,
    pub is_timeout: bool,
    pub message: String,
    pub retry_after: Option<u64>,
    pub reason: &'static str,
    pub kind: FailKind,
}

/// Switch-or-not for a failure, read off its status alone.
pub open spec fn classify_spec(status: Option<u16>, is_timeout: bool) -> FailKind {
    if is_timeout {
        FailKind::Switch
    } else {
        match status {
            Some(s) => if s == 429 || (500 <= s && s < 600) {
                FailKind::Switch
            } else {
                FailKind::Hard
            },
            None => FailKind::Switch,
        }
    }
}

/// The user-facing wording of an HTTP failure.
pub open spec fn http_reason_spec(status: u16) -> Seq<char> {
    if status == 429 {
        "rate limit / free tier"@
    } else if 500 <= status && status < 600 {
        "provider is down"@
    } else if status == 401 || status == 403 {
        "key rejected"@
    } else if status == 404 {
        "model or url not found"@
    } else if status == 400 {
        "request rejected"@
    } else {
        "call failed"@
    }
}

/// Map a failure to switch-or-not. A transport error without a status counts
/// as transient: the backup is worth a try when the primary can't be reached.
pub fn classify(status: Option<u16>, is_timeout: bool) -> (k: FailKind)
    ensures
        k == classify_spec(status, is_timeout),
{
    if is_timeout {
        return FailKind::Switch;
    }
    match status {
        Some(s) => {
            if s == 429 || (500 <= s && s < 600) {
                FailKind::Switch
            } else {
                FailKind::Hard
            }
        },
        None => FailKind::Switch,
    }
}

/// What an HTTP status means for the person reading the log.
pub fn http_reason(status: u16) -> (r: &'static str)
    ensures
        r@ == http_reason_spec(status),
{
    if status == 429 {
        "rate limit / free tier"
    } else if 500 <= status && status < 600 {
        "provider is down"
    } else if status == 401 || status == 403 {
        "key rejected"
    } else if status == 404 {
        "model or url not found"
    } else if status == 400 {
        "request rejected"
    } else {
        "call failed"
    }
}

/// A [`CallError`] as plain values.
pub struct ErrView {
    pub status: Option<u16>,
    pub is_timeout: bool,
    pub message: Seq<char>,
    pub retry_after: Option<u64>,
    pub reason: Seq<char>,
    pub kind: FailKind,
}

pub open spec fn err_view(e: CallError) -> ErrView {
    ErrView {
        status: e.status,
        is_timeout: e.is_timeout,
        message: e.message@,
        retry_after: e.retry_after,
        reason: e.reason@,
        kind: e.kind,
    }
}

/// What [`CallError::transport`] builds.
pub open spec fn transport_view(is_timeout: bool, message: Seq<char>) -> ErrView {
    ErrView {
        status: None,
        is_timeout,
        message,
        retry_after: None,
        reason: if is_timeout {
            "timed out"@
        } else {
            "provider unreachable"@
        },
        kind: FailKind::Switch,
    }
}

/// What [`CallError::http`] builds.
pub open spec fn http_view(status: u16, message: Seq<char>, retry_after: Option<u64>) -> ErrView {
    ErrView {
        status: Some(status),
        is_timeout: false,
        message,
        retry_after,
        reason: http_reason_spec(status),
        kind: classify_spec(Some(status), false),
    }
}

/// What [`CallError::rejected`] builds.
pub open spec fn rejected_view(message: Seq<char>) -> ErrView {
    ErrView {
        status: Some(200),
        is_timeout: false,
        message,
        retry_after: None,
        reason: "reply unusable"@,
        kind: FailKind::Hard,
    }
}

/// What [`CallError::no_answer`] builds.
pub open spec fn no_answer_view(message: Seq<char>) -> ErrView {
    ErrView {
        status: Some(200),
        is_timeout: false,
        message,
        retry_after: None,
        reason: "reply incomplete"@,
        kind: FailKind::Switch,
    }
}

/// The message of the error a walk returns when no entry had a key.
pub const NO_KEY_MESSAGE: &'static str = "no API key set for any provider — add one in Settings";

/// Whether `e` is exactly what [`CallError::no_key`] builds from `message`.
pub open spec fn is_no_key(e: CallError, message: Seq<char>) -> bool {
    &&& e.status == Some(200u16)
    &&& !e.is_timeout
    &&& e.message@ == message
    &&& e.retry_after is None
    &&& e.reason@ == "no key set"@
    &&& e.kind == FailKind::Hard
}

impl CallError {
    /// A transport failure: no status; a timeout or an unreachable provider.
    pub fn transport(is_timeout: bool, message: String) -> (e: CallError)
        ensures
            e.status is None,
            e.is_timeout == is_timeout,
            e.message@ == message@,
            e.retry_after is None,
            e.reason@ == (if is_timeout {
                "timed out"@
            } else {
                "provider unreachable"@
            }),
            e.kind == classify_spec(None, is_timeout),
            e.kind == FailKind::Switch,
            err_view(e) == transport_view(is_timeout, message@),
    {
        let reason = if is_timeout {
            "timed out"
        } else {
            "provider unreachable"
        };
        CallError {
            status: None,
            is_timeout,
            message,
            reason,
            retry_after: None,
            kind: classify(None, is_timeout),
        }
    }

    /// An HTTP error status, with the provider's `Retry-After` (milliseconds)
    /// when it sent one.
    pub fn http(status: u16, message: String, retry_after: Option<u64>) -> (e: CallError)
        ensures
            e.status == Some(status),
            !e.is_timeout,
            e.message@ == message@,
            e.retry_after == retry_after,
            e.reason@ == http_reason_spec(status),
            e.kind == classify_spec(Some(status), false),
            err_view(e) == http_view(status, message@, retry_after),
    {
        let kind = classify(Some(status), false);
        CallError {
            status: Some(status),
            is_timeout: false,
            message,
            reason: http_reason(status),
            retry_after,
            kind,
        }
    }

    /// HTTP succeeded and the answer itself was refused by the guards.
    /// Another provider would be asked the same thing, so this one is final.
    pub fn rejected(message: String) -> (e: CallError)
        ensures
            e.status == Some(200u16),
            !e.is_timeout,
            e.message@ == message@,
            e.retry_after is None,
            e.reason@ == "reply unusable"@,
            e.kind == FailKind::Hard,
            err_view(e) == rejected_view(message@),
    {
        CallError {
            status: Some(200),
            is_timeout: false,
            message,
            reason: "reply unusable",
            retry_after: None,
            kind: FailKind::Hard,
        }
    }

    /// HTTP succeeded but held no answer to judge (truncated, empty, wrong
    /// shape): this provider failing, so the next rung gets its turn.
    pub fn no_answer(message: String) -> (e: CallError)
        ensures
            e.status == Some(200u16),
            !e.is_timeout,
            e.message@ == message@,
            e.retry_after is None,
            e.reason@ == "reply incomplete"@,
            e.kind == FailKind::Switch,
            err_view(e) == no_answer_view(message@),
    {
        CallError {
            status: Some(200),
            is_timeout: false,
            message,
            reason: "reply incomplete",
            retry_after: None,
            kind: FailKind::Switch,
        }
    }

    /// Nothing in the stack had a key, so no request was ever made.
    pub fn no_key(message: String) -> (e: CallError)
        ensures
            is_no_key(e, message@),
    {
        CallError {
            status: Some(200),
            is_timeout: false,
            message,
            reason: "no key set",
            retry_after: None,
            kind: FailKind::Hard,
        }
    }
}

/// One day, in milliseconds: the longest `Retry-After` that is honoured.
pub const MAX_RETRY_AFTER_MS: u64 = 86_400_000;

/// What [`retry_after_secs`] returns for a header value.
pub open spec fn retry_after_spec(value: Seq<char>) -> Option<u64> {
    match text::parse_u64_spec(text::trim(value)) {
        Some(secs) => Some(
            if secs as int * 1000 >= MAX_RETRY_AFTER_MS {
                MAX_RETRY_AFTER_MS
            } else {
                (secs * 1000) as u64
            },
        ),
        None => None,
    }
}

/// `Retry-After` read as whole seconds, the form every provider here sends,
/// capped at a day and returned in milliseconds. An HTTP date, or anything
/// else unparseable, gives `None` so the configured cooldown applies.
pub fn retry_after_secs(value: &str) -> (r: Option<u64>)
    ensures
        r == retry_after_spec(value@),
{
    let v = text::chars_of(value);
    let (b, e) = text::trim_range(&v, 0, v.len());
    assert(v@.subrange(0, v@.len() as int) =~= value@);
    match text::parse_u64(&v, b, e) {
        Some(secs) => {
            if secs >= MAX_RETRY_AFTER_MS / 1000 {
                Some(MAX_RETRY_AFTER_MS)
            } else {
                Some(secs * 1000)
            }
        },
        None => None,
    }
}

/// Consecutive transient failures before switching, from the configured
/// value (absent or not a number: 2), clamped to 1..=100.
pub fn threshold(configured: Option<u64>) -> (t: u32)
    ensures
        t == (match configured {
            Some(v) => if v < 1 {
                1
            } else if v > 100 {
                100
            } else {
                v
            },
            None => 2,
        }),
{
    let v = match configured {
        Some(v) => v,
        None => 2,
    };
    if v < 1 {
        1
    } else if v > 100 {
        100
    } else {
        v as u32
    }
}

/// How long to stay on a fallback before returning to the primary, from the
/// configured minutes (absent: 60), clamped to 1..=1440, in milliseconds.
pub fn cooldown(configured_mins: Option<u64>) -> (ms: u64)
    ensures
        ms == 60_000 * (match configured_mins {
            Some(m) => if m < 1 {
                1
            } else if m > 1440 {
                1440
            } else {
                m
            },
            None => 60,
        }),
{
    let m = match configured_mins {
        Some(m) => m,
        None => 60,
    };
    let m = if m < 1 {
        1
    } else if m > 1440 {
        1440
    } else {
        m
    };
    m * 60_000
}

/// Per-stack runtime state. `active` indexes into the entry list (0 = the
/// primary); `switched_at` is the clock reading of the last switch; `hold` is
/// the provider's own wait for the entry that was switched away from.
#[derive(Debug, Clone, Copy, PartialEq, Eq)]
pub struct StackState {
    pub active: usize,
    pub consec_fail: u32,
    pub switched_at: Option<u64>,
    pub hold: Option<u64>,
}

/// The state of a stack that has never switched.
pub open spec fn initial_state() -> StackState {
    StackState { active: 0, consec_fail: 0, switched_at: None, hold: None }
}

/// Milliseconds from `at` to `now`, zero when `now` is earlier.
pub open spec fn since(now: u64, at: u64) -> int {
    if now >= at {
        now - at
    } else {
        0
    }
}

impl StackState {
    /// How long the stack stays on a fallback: the longer of the configured
    /// cooldown and the provider's own wait.
    pub open spec fn wait(self, cooldown: u64) -> int {
        match self.hold {
            Some(h) => if h >= cooldown {
                h as int
            } else {
                cooldown as int
            },
            None => cooldown as int,
        }
    }

    /// The state after the cooldown check at `now`.
    pub open spec fn reset_spec(self, now: u64, cooldown: u64) -> StackState {
        if self.active != 0 && cooldown != 0 {
            match self.switched_at {
                Some(at) => if since(now, at) >= self.wait(cooldown) {
                    initial_state()
                } else {
                    self
                },
                None => self,
            }
        } else {
            self
        }
    }

    /// The state after a success on the active entry.
    pub open spec fn success_spec(self) -> StackState {
        StackState { consec_fail: 0, ..self }
    }

    /// The tally after one more failure (saturating).
    pub open spec fn bumped(self) -> u32 {
        if self.consec_fail == u32::MAX {
            u32::MAX
        } else {
            (self.consec_fail + 1) as u32
        }
    }

    /// Whether one more transient failure moves the stack to the next entry.
    pub open spec fn advances(self, stack_len: usize, threshold: u32) -> bool {
        self.bumped() >= threshold && self.active + 1 < stack_len
    }

    /// The state after a transient failure on the active entry.
    pub open spec fn switch_fail_spec(
        self,
        now: u64,
        stack_len: usize,
        threshold: u32,
        retry_after: Option<u64>,
    ) -> StackState {
        if self.advances(stack_len, threshold) {
            StackState {
                active: (self.active + 1) as usize,
                consec_fail: 0,
                switched_at: Some(now),
                hold: retry_after,
            }
        } else {
            StackState { consec_fail: self.bumped(), ..self }
        }
    }

    /// A stack that has never switched: on the primary, nothing tallied.
    pub fn new() -> (s: StackState)
        ensures
            s == initial_state(),
    {
        StackState { active: 0, consec_fail: 0, switched_at: None, hold: None }
    }

    /// Snap back to the primary once the wait since the last switch has
    /// elapsed. A `cooldown` of zero disables the reset.
    pub fn maybe_reset(&mut self, now: u64, cooldown: u64)
        ensures
            *final(self) == old(self).reset_spec(now, cooldown),
    {
        if self.active != 0 && cooldown != 0 {
            let wait = match self.hold {
                Some(h) => if h >= cooldown {
                    h
                } else {
                    cooldown
                },
                None => cooldown,
            };
            if let Some(at) = self.switched_at {
                let elapsed = if now >= at {
                    now - at
                } else {
                    0
                };
                if elapsed >= wait {
                    *self = StackState::new();
                }
            }
        }
    }

    /// A request on the active entry succeeded: clear the tally, so a later
    /// blip needs its own full run to switch.
    pub fn record_success(&mut self)
        ensures
            *final(self) == old(self).success_spec(),
    {
        self.consec_fail = 0;
    }

    /// A transient failure on the active entry. Returns `true` when it moved
    /// the stack to the next entry.
    pub fn record_switch_fail(
        &mut self,
        now: u64,
        stack_len: usize,
        threshold: u32,
        retry_after: Option<u64>,
    ) -> (switched: bool)
        ensures
            *final(self) == old(self).switch_fail_spec(now, stack_len, threshold, retry_after),
            switched == old(self).advances(stack_len, threshold),
    {
        self.consec_fail = if self.consec_fail == u32::MAX {
            u32::MAX
        } else {
            self.consec_fail + 1
        };
        if self.consec_fail >= threshold && stack_len > 0 && self.active < stack_len - 1 {
            self.active = self.active + 1;
            self.consec_fail = 0;
            self.switched_at = Some(now);
            self.hold = retry_after;
            true
        } else {
            false
        }
    }
}

/// The two state slots, one per stack.
#[derive(Debug, Clone, Copy, PartialEq, Eq)]
pub struct StackStates {
    pub audio: StackState,
    pub text: StackState,
}

impl StackStates {
    /// Both stacks on their primary.
    pub fn new() -> (s: StackStates)
        ensures
            s.audio == initial_state(),
            s.text == initial_state(),
    {
        StackStates { audio: StackState::new(), text: StackState::new() }
    }

    /// The slot that belongs to `stack`.
    pub open spec fn slot(self, stack: Stack) -> StackState {
        match stack {
            Stack::Audio => self.audio,
            Stack::Text => self.text,
        }
    }

    /// The slot that belongs to `stack`.
    pub fn get(&self, stack: Stack) -> (s: StackState)
        ensures
            s == self.slot(stack),
    {
        match stack {
            Stack::Audio => self.audio,
            Stack::Text => self.text,
        }
    }

    /// Replace the slot that belongs to `stack`.
    pub fn set(&mut self, stack: Stack, s: StackState)
        ensures
            *final(self) == old(self).with_slot(stack, s),
    {
        match stack {
            Stack::Audio => self.audio = s,
            Stack::Text => self.text = s,
        }
    }

    /// Replacing a slot twice keeps the second; replacing it with itself
    /// changes nothing.
    pub proof fn lemma_with_slot(self, stack: Stack, a: StackState, b: StackState)
        ensures
            self.with_slot(stack, a).with_slot(stack, b) == self.with_slot(stack, b),
            self.with_slot(stack, a).slot(stack) == a,
            self.with_slot(stack, self.slot(stack)) == self,
    {
    }

    /// `self` with the slot of `stack` replaced.
    pub open spec fn with_slot(self, stack: Stack, s: StackState) -> StackStates {
        match stack {
            Stack::Audio => StackStates { audio: s, ..self },
            Stack::Text => StackStates { text: s, ..self },
        }
    }
}

/// Current active entry of `stack`, after applying the cooldown reset at
/// `now`. Called once at the start of each request.
pub fn active_index(states: &mut StackStates, stack: Stack, now: u64, cooldown: u64) -> (i: usize)
    ensures
        *final(states) == old(states).with_slot(
            stack,
            old(states).slot(stack).reset_spec(now, cooldown),
        ),
        i == old(states).slot(stack).reset_spec(now, cooldown).active,
{
    match stack {
        Stack::Audio => {
            states.audio.maybe_reset(now, cooldown);
            states.audio.active
        },
        Stack::Text => {
            states.text.maybe_reset(now, cooldown);
            states.text.active
        },
    }
}

/// Live status for the settings line: the active index and how long ago the
/// switch happened. `None` while sitting on the primary.
pub fn snapshot(states: &StackStates, stack: Stack, now: u64) -> (r: Option<(usize, u64)>)
    ensures
        r == (match (states.slot(stack).active, states.slot(stack).switched_at) {
            (0, _) => None,
            (_, None) => None,
            (idx, Some(at)) => Some((idx, since(now, at) as u64)),
        }),
{
    let st = match stack {
        Stack::Audio => states.audio,
        Stack::Text => states.text,
    };
    if st.active == 0 {
        return None;
    }
    match st.switched_at {
        None => None,
        Some(at) => {
            let ago = if now >= at {
                now - at
            } else {
                0
            };
            Some((st.active, ago))
        },
    }
}

/// Whether entry `i` has a key to call it with.
pub open spec fn keyed(keys: Seq<String>, i: int) -> bool {
    keys[i]@.len() > 0
}

/// Whether `call` may answer `r` for entry `e` with key `k`.
pub open spec fn answered<T, F: Fn(&ProviderEntry, &String) -> Result<T, CallError>>(
    call: F,
    e: ProviderEntry,
    k: String,
    r: Result<T, CallError>,
) -> bool {
    call.ensures((&e, &k), r)
}

/// Whether `call` may fail transiently for entry `i`.
pub open spec fn failed_over<T, F: Fn(&ProviderEntry, &String) -> Result<T, CallError>>(
    call: F,
    entries: Seq<ProviderEntry>,
    keys: Seq<String>,
    i: int,
) -> bool {
    exists|e: CallError|
        #![trigger answered(call, entries[i], keys[i], Err::<T, CallError>(e))]
        answered(call, entries[i], keys[i], Err::<T, CallError>(e)) && e.kind == FailKind::Switch
}

/// How the starting entry's answer `r0` moves its slot from `s0` to `s1`:
/// a success clears the tally, a transient failure counts (at some reading
/// `t` of `clock`), a hard failure changes nothing.
pub open spec fn start_effect<T, C: Fn() -> u64>(
    s0: StackState,
    s1: StackState,
    r0: Result<T, CallError>,
    clock: C,
    stack_len: usize,
    threshold: u32,
) -> bool {
    match r0 {
        Ok(_) => s1 == s0.success_spec(),
        Err(e) => if e.kind == FailKind::Switch {
            exists|t: u64|
                #![trigger clock.ensures((), t)]
                clock.ensures((), t) && s1 == s0.switch_fail_spec(
                    t,
                    stack_len,
                    threshold,
                    e.retry_after,
                )
        } else {
            s1 == s0
        },
    }
}

/// The reading of `elapsed` taken before entry `i` was under the budget
/// (always, without one): the walk went on to entry `i`.
pub open spec fn under_budget_at<E: Fn(usize) -> u64>(elapsed: E, budget: Option<u64>, i: usize) -> bool {
    match budget {
        Some(b) => exists|t: u64| #![trigger elapsed.ensures((i,), t)] elapsed.ensures((i,), t) && t < b,
        None => true,
    }
}

/// The reading of `elapsed` taken before entry `i` had reached the budget:
/// the walk stopped there, without trying entry `i`.
pub open spec fn over_budget_at<E: Fn(usize) -> u64>(elapsed: E, budget: Option<u64>, i: usize) -> bool {
    match budget {
        Some(b) => exists|t: u64| #![trigger elapsed.ensures((i,), t)] elapsed.ensures((i,), t) && t >= b,
        None => false,
    }
}

/// Every reading taken on the way from `start` to entry `i` (one before each
/// entry after `start`, up to and including `i`) was under the budget.
pub open spec fn reached<E: Fn(usize) -> u64>(elapsed: E, budget: Option<u64>, start: int, i: int) -> bool {
    forall|j: usize| start < j <= i ==> #[trigger] under_budget_at(elapsed, budget, j)
}

/// The walk stopped on the budget before entry `s`: every reading up to `s`
/// was under it, the one before `s` was not, and no entry strictly between
/// `from` and `s` had a key.
pub open spec fn stopped_at<E: Fn(usize) -> u64>(
    elapsed: E,
    budget: Option<u64>,
    keys: Seq<String>,
    start: int,
    from: int,
    s: usize,
) -> bool {
    &&& start < s < keys.len()
    &&& from < s
    &&& over_budget_at(elapsed, budget, s)
    &&& reached(elapsed, budget, start, s - 1)
    &&& forall|k: int| from < k < s ==> !keyed(keys, k)
}

/// Walk the stack from `start`, trying each entry that has a key
/// (`keys[i]` is entry `i`'s key; empty means none). A transient failure
/// moves on to the next entry, so the current request is rescued by a backup;
/// a hard error surfaces at once. Entries without a key are skipped and are
/// not failures.
///
/// Only the entry the walk started at feeds the sticky tally of `stack`, and
/// only a success on that same entry clears it — otherwise a healthy backup
/// would reset the tally on every request and the switch would never trip.
///
/// `clock` is read when the starting entry fails transiently, to stamp a
/// switch. `budget` caps the walk in milliseconds of `elapsed(i)` (the time
/// the walk has taken so far, read before each entry `i` after the first,
/// keyed or not): once it is spent no further entry is started. The starting
/// entry always gets its try. `None` walks to the end.
///
/// Returns the call's value and the index of the entry that produced it.
pub fn run_with_failover<T, C, E, F>(
    states: &mut StackStates,
    stack: Stack,
    entries: &[ProviderEntry],
    keys: &[String],
    start: usize,
    threshold: u32,
    budget: Option<u64>,
    clock: C,
    elapsed: E,
    call: F,
) -> (res: Result<(T, usize), CallError>) where
    C: Fn() -> u64,
    E: Fn(usize) -> u64,
    F: Fn(&ProviderEntry, &String) -> Result<T, CallError>,

    requires
        keys@.len() == entries@.len(),
        call_requires(clock, ()),
        forall|i: usize| #[trigger] call_requires(elapsed, (i,)),
        forall|i: int|
            0 <= i < entries@.len() ==> #[trigger] call_requires(call, (&entries@[i], &keys@[i])),
    ensures
        // the other stack's slot is untouched; this one moves only on the start entry
        final(states).with_slot(stack, old(states).slot(stack)) == *old(states),
        (start < entries@.len() && keyed(keys@, start as int)) ==> exists|
            r0: Result<T, CallError>,
        |
            #![trigger answered(call, entries@[start as int], keys@[start as int], r0)]
            {
                &&& answered(call, entries@[start as int], keys@[start as int], r0)
                &&& start_effect(
                    old(states).slot(stack),
                    final(states).slot(stack),
                    r0,
                    clock,
                    entries@.len() as usize,
                    threshold,
                )
                &&& (r0 is Ok ==> res == Ok::<(T, usize), CallError>((r0->Ok_0, start)))
                &&& (r0 is Err && r0->Err_0.kind == FailKind::Hard ==> res == Err::<
                    (T, usize),
                    CallError,
                >(r0->Err_0))
            },
        !(start < entries@.len() && keyed(keys@, start as int)) ==> final(states).slot(stack)
            == old(states).slot(stack),
        // a success comes from a keyed entry at or after start, every keyed
        // entry before it failed over, and every reading on the way was under
        // the budget
        res matches Ok((v, i)) ==> {
            &&& start <= i < entries@.len()
            &&& keyed(keys@, i as int)
            &&& answered(call, entries@[i as int], keys@[i as int], Ok::<T, CallError>(v))
            &&& forall|j: int|
                start <= j < i && keyed(keys@, j) ==> failed_over(call, entries@, keys@, j)
            &&& reached(elapsed, budget, start as int, i as int)
        },
        // an error is some entry's own answer, or the no-key error; the latter
        // only when no entry from start on has a key, or the budget stopped the
        // walk before the first keyed one
        res matches Err(e) ==> (exists|i: int|
            #![trigger answered(call, entries@[i], keys@[i], Err::<T, CallError>(e))]
            start <= i < entries@.len() && keyed(keys@, i) && answered(
                call,
                entries@[i],
                keys@[i],
                Err::<T, CallError>(e),
            )) || (is_no_key(e, NO_KEY_MESSAGE@) && ((forall|j: int|
            start <= j < entries@.len() ==> !keyed(keys@, j)) || exists|s: usize|
            #![trigger over_budget_at(elapsed, budget, s)]
            stopped_at(elapsed, budget, keys@, start as int, start - 1, s))),
        // a hard error is the first answer that was not a transient failure
        res is Err ==> ({
            let e = res->Err_0;
            e.kind == FailKind::Hard ==> (exists|i: int|
                #![trigger answered(call, entries@[i], keys@[i], Err::<T, CallError>(e))]
                {
                    &&& start <= i < entries@.len()
                    &&& keyed(keys@, i)
                    &&& answered(call, entries@[i], keys@[i], Err::<T, CallError>(e))
                    &&& forall|j: int| start <= j < i && keyed(keys@, j) ==> failed_over(call, entries@, keys@, j)
                    &&& reached(elapsed, budget, start as int, i)
                }) || (is_no_key(e, NO_KEY_MESSAGE@) && ((forall|j: int|
                start <= j < entries@.len() ==> !keyed(keys@, j)) || exists|s: usize|
                #![trigger over_budget_at(elapsed, budget, s)]
                stopped_at(elapsed, budget, keys@, start as int, start - 1, s)))
        }),
        // a transient error is the last entry tried: every keyed entry before
        // it failed over; a keyed entry after it means the budget stopped the
        // walk before it
        res is Err ==> ({
            let e = res->Err_0;
            e.kind == FailKind::Switch ==> exists|i: int|
                #![trigger answered(call, entries@[i], keys@[i], Err::<T, CallError>(e))]
                {
                    &&& start <= i < entries@.len()
                    &&& keyed(keys@, i)
                    &&& answered(call, entries@[i], keys@[i], Err::<T, CallError>(e))
                    &&& forall|j: int| start <= j < i && keyed(keys@, j) ==> failed_over(call, entries@, keys@, j)
                    &&& reached(elapsed, budget, start as int, i)
                    &&& ((forall|j: int| i < j < entries@.len() ==> !keyed(keys@, j)) || exists|s: usize|
                        #![trigger over_budget_at(elapsed, budget, s)]
                        stopped_at(elapsed, budget, keys@, start as int, i, s))
                }
        }),
        // nothing to call: the no-key error
        (forall|j: int| start <= j < entries@.len() ==> !keyed(keys@, j)) ==> (res matches Err(e)
            && is_no_key(e, NO_KEY_MESSAGE@)),
        // without a budget, a transient error means every keyed rung failed over
        (budget is None && res is Err && res->Err_0.kind == FailKind::Switch) ==> forall|j: int|
            start <= j < entries@.len() && keyed(keys@, j) ==> failed_over(
                call,
                entries@,
                keys@,
                j,
            ),
{
    let n = entries.len();
    let ghost s0 = old(states).slot(stack);
    let ghost old_states = *old(states);
    let ghost mut r0: Result<T, CallError> = arbitrary();
    let ghost mut tried = false;
    let mut outcome: Option<Result<(T, usize), CallError>> = None;
    let mut last_err: Option<CallError> = None;
    let mut spent = false;
    let mut i = start;
    while outcome.is_none() && i < n && !spent
        invariant
            n == entries@.len(),
            keys@.len() == n,
            start <= i,
            start <= n ==> i <= n,
            start > n ==> i == start,
            forall|k: int| 0 <= k < n ==> #[trigger] call_requires(call, (&entries@[k], &keys@[k])),
            call_requires(clock, ()),
            forall|k: usize| #[trigger] call_requires(elapsed, (k,)),
            states.with_slot(stack, s0) == old_states,
            s0 == old_states.slot(stack),
            // once the start entry has been tried, its effect on the slot
            tried ==> {
                &&& start < n && keyed(keys@, start as int)
                &&& answered(call, entries@[start as int], keys@[start as int], r0)
                &&& start_effect(s0, states.slot(stack), r0, clock, n, threshold)
                &&& (r0 is Ok ==> outcome == Some(Ok::<(T, usize), CallError>((r0->Ok_0, start))))
                &&& (r0 is Err && r0->Err_0.kind == FailKind::Hard ==> outcome == Some(
                    Err::<(T, usize), CallError>(r0->Err_0),
                ))
            },
            !tried ==> states.slot(stack) == s0,
            tried ==> i > start || outcome is Some,
            last_err is Some ==> exists|j: int| start <= j < i && #[trigger] keyed(keys@, j),
            (i > start || outcome is Some) && start < n && keyed(keys@, start as int) ==> tried,
            forall|j: int| start <= j < i && keyed(keys@, j) ==> failed_over(call, entries@, keys@, j),
            last_err matches Some(e) ==> (e.kind == FailKind::Switch && exists|j: int|
                #![trigger answered(call, entries@[j], keys@[j], Err::<T, CallError>(e))]
                start <= j < i && keyed(keys@, j) && answered(
                    call,
                    entries@[j],
                    keys@[j],
                    Err::<T, CallError>(e),
                ) && (forall|k: int| j < k < i ==> !keyed(keys@, k))),
            last_err is None ==> forall|j: int| start <= j < i ==> !keyed(keys@, j),
            outcome matches Some(Ok((v, j))) ==> {
                &&& j == i
                &&& start <= j < n
                &&& keyed(keys@, j as int)
                &&& answered(call, entries@[j as int], keys@[j as int], Ok::<T, CallError>(v))
            },
            outcome matches Some(Err(e)) ==> {
                &&& start <= i < n
                &&& keyed(keys@, i as int)
                &&& e.kind == FailKind::Hard
                &&& answered(call, entries@[i as int], keys@[i as int], Err::<T, CallError>(e))
            },
            reached(elapsed, budget, start as int, i - 1),
            outcome is Some ==> reached(elapsed, budget, start as int, i as int),
            spent ==> over_budget_at(elapsed, budget, i),
            spent ==> budget is Some,
            spent ==> i > start,
            spent ==> i < n,
        decreases 2 * (n - i) + (if spent || outcome is Some {
            0int
        } else {
            1int
        }),
    {
        if i > start {
            if let Some(b) = budget {
                let t = elapsed(i);
                if t >= b {
                    spent = true;
                    assert(over_budget_at(elapsed, budget, i));
                } else {
                    assert(under_budget_at(elapsed, budget, i));
                }
            }
        }
        if !spent {
            proof {
                assert forall|j: usize| start < j <= i implies #[trigger] under_budget_at(elapsed, budget, j) by {
                    if j < i {
                        assert(reached(elapsed, budget, start as int, i - 1));
                    }
                }
                assert(reached(elapsed, budget, start as int, i as int));
            }
            if keys[i].as_str().is_empty() {
                i = i + 1;
            } else {
                let r = call(&entries[i], &keys[i]);
                let ghost gr = r;
                proof {
                    if i == start {
                        r0 = gr;
                        tried = true;
                    }
                }
                match r {
                    Ok(v) => {
                        if i == start {
                            let ghost before = *states;
                            let mut st = states.get(stack);
                            st.record_success();
                            states.set(stack, st);
                            proof {
                                before.lemma_with_slot(stack, st, s0);
                                old_states.lemma_with_slot(stack, s0, st);
                            }
                        }
                        outcome = Some(Ok((v, i)));
                    },
                    Err(e) => {
                        if e.kind == FailKind::Switch {
                            if i == start {
                                let now = clock();
                                let ghost before = *states;
                                let mut st = states.get(stack);
                                st.record_switch_fail(now, n, threshold, e.retry_after);
                                states.set(stack, st);
                                proof {
                                    before.lemma_with_slot(stack, st, s0);
                                    old_states.lemma_with_slot(stack, s0, st);
                                    assert(clock.ensures((), now) && states.slot(stack)
                                        == s0.switch_fail_spec(now, n, threshold, e.retry_after));
                                    assert(start_effect(s0, states.slot(stack), r0, clock, n, threshold));
                                }
                            }
                            assert(answered(
                                call,
                                entries@[i as int],
                                keys@[i as int],
                                Err::<T, CallError>(e),
                            ));
                            assert(keyed(keys@, i as int));
                            last_err = Some(e);
                            i = i + 1;
                        } else {
                            outcome = Some(Err(e));
                        }
                    },
                }
            }
        }
    }
    proof {
        if start < n && keyed(keys@, start as int) {
            assert(tried);
            assert(answered(call, entries@[start as int], keys@[start as int], r0));
        }
    }
    let ghost gl = last_err;
    proof {
        if let Some(_) = gl {
            let j = choose|j: int| start <= j < i && #[trigger] keyed(keys@, j);
            assert(start <= j < n && keyed(keys@, j));
        }
        if forall|j: int| start <= j < n ==> !keyed(keys@, j) {
            if let Some(Ok((_, j))) = outcome {
                assert(!keyed(keys@, j as int));
            }
            if let Some(Err(_)) = outcome {
                assert(!keyed(keys@, i as int));
            }
        }
    }
    match outcome {
        Some(res) => {
            let ghost gres = res;
            proof {
                if let Err(e) = gres {
                    assert(answered(call, entries@[i as int], keys@[i as int], Err::<T, CallError>(e)));
                }
            }
            res
        },
        None => match last_err {
            Some(e) => {
                proof {
                    let j = choose|j: int| start <= j < i && keyed(keys@, j) && answered(
                        call,
                        entries@[j],
                        keys@[j],
                        Err::<T, CallError>(e),
                    ) && (forall|k: int| j < k < i ==> !keyed(keys@, k));
                    assert(answered(call, entries@[j], keys@[j], Err::<T, CallError>(e)));
                    assert forall|k: usize| start < k <= j implies #[trigger] under_budget_at(elapsed, budget, k) by {
                        assert(reached(elapsed, budget, start as int, i - 1));
                    }
                    assert(reached(elapsed, budget, start as int, j));
                    if spent {
                        assert(stopped_at(elapsed, budget, keys@, start as int, j, i));
                    } else {
                        assert(i >= n);
                        assert(forall|k: int| j < k < n ==> !keyed(keys@, k));
                    }
                    assert(forall|k: int| start <= k < j && keyed(keys@, k) ==> failed_over(call, entries@, keys@, k));
                    if budget is None {
                        assert(!spent);
                        assert(i >= n);
                    }
                }
                Err(e)
            },
            None => {
                let e = CallError::no_key(String::from_str(NO_KEY_MESSAGE));
                proof {
                    if spent {
                        assert(stopped_at(elapsed, budget, keys@, start as int, start - 1, i));
                    } else {
                        assert(i >= n || start > n);
                        assert(forall|j: int| start <= j < n ==> !keyed(keys@, j));
                    }
                }
                Err(e)
            },
        },
    }
}

// ---------------------------------------------------------------------------
// Laws of the state machine.
// ---------------------------------------------------------------------------

/// `k` transient failures in a row on the active entry, all at `now`.
pub open spec fn fail_times(s: StackState, k: nat, now: u64, stack_len: usize, threshold: u32) -> StackState
    decreases k,
{
    if k == 0 {
        s
    } else {
        fail_times(s, (k - 1) as nat, now, stack_len, threshold).switch_fail_spec(
            now,
            stack_len,
            threshold,
            None,
        )
    }
}

/// Fewer consecutive transient failures than the threshold never switch:
/// from a clear tally, `k < threshold` failures leave the stack on its entry
/// with a tally of exactly `k`.
pub proof fn law_no_switch_below_threshold(
    s: StackState,
    k: nat,
    now: u64,
    stack_len: usize,
    threshold: u32,
)
    requires
        s.consec_fail == 0,
        k < threshold,
    ensures
        fail_times(s, k, now, stack_len, threshold).active == s.active,
        fail_times(s, k, now, stack_len, threshold).consec_fail == k,
    decreases k,
{
    if k > 0 {
        law_no_switch_below_threshold(s, (k - 1) as nat, now, stack_len, threshold);
    }
}

/// The failure that completes a run of `threshold` (≥ 1) moves the stack one
/// entry down, when there is an entry below, and clears the tally.
pub proof fn law_switch_at_threshold(s: StackState, now: u64, stack_len: usize, threshold: u32)
    requires
        s.consec_fail == 0,
        threshold >= 1,
        s.active + 1 < stack_len,
    ensures
        fail_times(s, threshold as nat, now, stack_len, threshold).active == s.active + 1,
        fail_times(s, threshold as nat, now, stack_len, threshold).consec_fail == 0,
        fail_times(s, threshold as nat, now, stack_len, threshold).switched_at == Some(now),
{
    law_no_switch_below_threshold(s, (threshold - 1) as nat, now, stack_len, threshold);
}

/// A success between failures starts the count over.
pub proof fn law_success_clears_tally(s: StackState)
    ensures
        s.success_spec().consec_fail == 0,
        s.success_spec().active == s.active,
{
}

/// A success on a fallback does not end the switch: it clears the tally and
/// nothing else, so the stack still returns to the primary once the wait has
/// passed since the switch.
pub proof fn law_success_keeps_the_switch(s: StackState, at: u64, now: u64, cooldown: u64)
    ensures
        s.success_spec().active == s.active,
        s.success_spec().switched_at == s.switched_at,
        s.success_spec().hold == s.hold,
        (s.active != 0 && s.switched_at == Some(at) && cooldown != 0 && since(now, at) >= s.wait(cooldown))
            ==> s.success_spec().reset_spec(now, cooldown) == initial_state(),
        s.success_spec().reset_spec(now, cooldown).active == s.reset_spec(now, cooldown).active,
{
}

/// The active pointer never leaves the stack and never moves past its last
/// entry: a transient failure on the last entry keeps it there.
pub proof fn law_active_stays_in_stack(
    s: StackState,
    now: u64,
    stack_len: usize,
    threshold: u32,
    retry_after: Option<u64>,
)
    requires
        s.active < stack_len,
    ensures
        s.switch_fail_spec(now, stack_len, threshold, retry_after).active < stack_len,
        s.active + 1 == stack_len ==> s.switch_fail_spec(
            now,
            stack_len,
            threshold,
            retry_after,
        ).active == s.active,
{
}

/// Sitting on the primary, the cooldown check changes nothing.
pub proof fn law_primary_never_resets(s: StackState, now: u64, cooldown: u64)
    requires
        s.active == 0,
    ensures
        s.reset_spec(now, cooldown) == s,
{
}

/// On a fallback that was switched to at `at`, the stack returns to the
/// primary exactly once the longer of the cooldown and the provider's own
/// wait has passed — a short `Retry-After` never shortens the cooldown, and a
/// long one is never cut short by it.
pub proof fn law_cooldown_returns_to_primary(s: StackState, at: u64, now: u64, cooldown: u64)
    requires
        s.active != 0,
        s.switched_at == Some(at),
        cooldown != 0,
    ensures
        since(now, at) < cooldown ==> s.reset_spec(now, cooldown) == s,
        (s.hold matches Some(h) && since(now, at) < h) ==> s.reset_spec(now, cooldown) == s,
        (since(now, at) >= cooldown && (s.hold matches Some(h) ==> since(now, at) >= h))
            ==> s.reset_spec(now, cooldown) == initial_state(),
{
}

/// A hard error never counts toward a switch: 4xx statuses other than 429,
/// and a 200 whose content was refused, classify as hard; 429, 5xx, timeouts
/// and transport errors as transient.
pub proof fn law_only_unavailability_switches(status: Option<u16>, is_timeout: bool)
    ensures
        classify_spec(status, is_timeout) == FailKind::Switch <==> (is_timeout || status is None
            || status == Some(429u16) || (status matches Some(s) && 500 <= s < 600)),
{
}

} // verus!
