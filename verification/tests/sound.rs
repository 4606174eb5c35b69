use ribbit::sound::{
    clip_for, get_pack, set_pack, sound_label, stream_after, tries_kept_stream, Clip, SoundKind, StreamKeep, FROG,
    KNOCK,
};

#[test]
fn the_pack_round_trips() {
    assert_eq!(set_pack("ping"), KNOCK);
    assert_eq!(set_pack("frog"), FROG);
    assert_eq!(set_pack("anything"), FROG);
    assert_eq!(get_pack(set_pack("ping")), "ping");
    assert_eq!(get_pack(set_pack("frog")), "frog");
}

#[test]
fn clips_per_pack() {
    assert_eq!(clip_for(FROG, SoundKind::Done), (Clip::Quack, "frog"));
    assert_eq!(clip_for(KNOCK, SoundKind::Start), (Clip::KnockStart, "knock"));
    assert_eq!(clip_for(KNOCK, SoundKind::Stop), (Clip::KnockStart, "knock"));
    assert_eq!(clip_for(KNOCK, SoundKind::Done), (Clip::KnockDone, "knock"));
    assert_eq!(sound_label(SoundKind::Stop), "stop");
}

#[test]
fn the_kept_stream_is_the_fallback_and_is_dropped_when_it_fails_too() {
    assert!(!tries_kept_stream(true, true));
    assert!(tries_kept_stream(false, true));
    assert!(!tries_kept_stream(false, false));
    assert_eq!(stream_after(true, None), StreamKeep::Fresh);
    assert_eq!(stream_after(false, Some(true)), StreamKeep::Kept);
    assert_eq!(stream_after(false, Some(false)), StreamKeep::Dropped);
    assert_eq!(stream_after(false, None), StreamKeep::Dropped);
}
