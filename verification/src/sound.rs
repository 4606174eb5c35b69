//! Which sound the app plays for a moment of the dictation, per sound pack.
//!
//! The pack is a small code the shell keeps: 0 is the frog, 1 the knocks
//! ("ping" in the settings). Playing the clip is the shell's business.

use vstd::prelude::*;

use crate::text;

verus! {

/// A moment of the dictation that has a sound.
#[derive(Debug, Clone, Copy, PartialEq, Eq, Structural)]
pub enum SoundKind {
    /// The mic is ready.
    Start,
    /// Recording stopped.
    Stop,
    /// The transcription is done.
    Done,
}

/// The frog pack's code.
pub const FROG: u8 = 0;

/// The knock pack's code ("ping" in the settings).
pub const KNOCK: u8 = 1;

/// The pack code for a settings value: the knocks for "ping", the frog for
/// anything else.
pub open spec fn pack_code_spec(pack: Seq<char>) -> u8 {
    if pack == "ping"@ {
        KNOCK
    } else {
        FROG
    }
}

/// The settings value of a pack code: "ping" for the knocks, "frog"
/// otherwise.
pub open spec fn pack_name_spec(code: u8) -> Seq<char> {
    if code == KNOCK {
        "ping"@
    } else {
        "frog"@
    }
}

/// The pack code to keep for a settings value.
pub fn set_pack(pack: &str) -> (code: u8)
    ensures
        code == pack_code_spec(pack@),
{
    if text::str_eq(pack, "ping") {
        KNOCK
    } else {
        FROG
    }
}

/// The settings value of the pack in use.
pub fn get_pack(code: u8) -> (r: &'static str)
    ensures
        r@ == pack_name_spec(code),
{
    if code == KNOCK {
        "ping"
    } else {
        "frog"
    }
}

/// What the settings read back is what they stored, for the two packs there
/// are; any other value reads back as the frog.
pub proof fn law_pack_round_trip(pack: Seq<char>)
    ensures
        pack_name_spec(pack_code_spec(pack)) == (if pack == "ping"@ {
            "ping"@
        } else {
            "frog"@
        }),
{
}

/// One of the bundled clips.
#[derive(Debug, Clone, Copy, PartialEq, Eq, Structural)]
pub enum Clip {
    Quack,
    KnockStart,
    KnockDone,
}

/// The clip for `kind` in pack `code`, with the pack's name for the log: the
/// frog quacks for everything; the knocks have one clip for start and stop
/// and another for done.
pub fn clip_for(code: u8, kind: SoundKind) -> (r: (Clip, &'static str))
    ensures
        code == KNOCK ==> r.0 == (match kind {
            SoundKind::Done => Clip::KnockDone,
            _ => Clip::KnockStart,
        }) && r.1@ == "knock"@,
        code != KNOCK ==> r.0 == Clip::Quack && r.1@ == "frog"@,
{
    if code == KNOCK {
        let clip = match kind {
            SoundKind::Start => Clip::KnockStart,
            SoundKind::Stop => Clip::KnockStart,
            SoundKind::Done => Clip::KnockDone,
        };
        (clip, "knock")
    } else {
        (Clip::Quack, "frog")
    }
}

/// The name of a moment, for the log.
pub fn sound_label(kind: SoundKind) -> (r: &'static str)
    ensures
        r@ == (match kind {
            SoundKind::Start => "start"@,
            SoundKind::Stop => "stop"@,
            SoundKind::Done => "done"@,
        }),
{
    match kind {
        SoundKind::Start => "start",
        SoundKind::Stop => "stop",
        SoundKind::Done => "done",
    }
}

/// What becomes of the kept output stream after a sound was tried.
#[derive(Debug, Clone, Copy, PartialEq, Eq, Structural)]
pub enum StreamKeep {
    /// A freshly opened stream played it: keep that one from now on.
    Fresh,
    /// The fresh stream failed and the kept one played it: keep it.
    Kept,
    /// Nothing played: drop the kept stream, open a new one next time.
    Dropped,
}

/// Whether the kept stream is tried: only when a fresh stream did not play
/// the sound (one can be refused while the app is in the background) and a
/// stream is kept at all.
pub fn tries_kept_stream(fresh_played: bool, have_kept: bool) -> (r: bool)
    ensures
        r == (!fresh_played && have_kept),
{
    !fresh_played && have_kept
}

/// The kept stream after a sound: the fresh one when it played, the old one
/// when that played instead (`kept_played` is `None` when it was not tried),
/// none when nothing played.
pub fn stream_after(fresh_played: bool, kept_played: Option<bool>) -> (r: StreamKeep)
    ensures
        fresh_played ==> r == StreamKeep::Fresh,
        !fresh_played && kept_played == Some(true) ==> r == StreamKeep::Kept,
        !fresh_played && kept_played != Some(true) ==> r == StreamKeep::Dropped,
{
    if fresh_played {
        StreamKeep::Fresh
    } else {
        match kept_played {
            Some(true) => StreamKeep::Kept,
            _ => StreamKeep::Dropped,
        }
    }
}

} // verus!
