use ribbit::fallback::FailKind;
use ribbit::postprocess::SendError;
use ribbit::transcribe::{
    encode_wav, find_audio_provider, judge_transcription, lang_name, stt_request, transcribe,
    PostError, SttReply, SttRequest,
};

fn reply(status: u16, body: &str, text: Result<Option<String>, String>) -> SttReply {
    SttReply {
        status,
        status_text: format!("{} X", status),
        retry_after: None,
        body: body.to_string(),
        text,
    }
}

#[test]
fn the_audio_catalog_has_groq_and_openai() {
    let g = find_audio_provider("groq").unwrap();
    assert_eq!(g.default_model, "whisper-large-v3-turbo");
    assert_eq!(g.url, "https://api.groq.com/openai/v1/audio/transcriptions");
    assert_eq!(find_audio_provider("openai").unwrap().key_env, "OPENAI_API_KEY");
    assert!(find_audio_provider("cerebras").is_none());
}

#[test]
fn language_names() {
    assert_eq!(lang_name("ru"), "Russian");
    assert_eq!(lang_name("uk"), "Ukrainian");
    assert_eq!(lang_name("xx"), "Unknown");
}

#[test]
fn the_wav_header_is_44_bytes_of_mono_16_bit_pcm() {
    let wav = encode_wav(&[1, -1, 256], 16000);
    assert_eq!(wav.len(), 44 + 6);
    assert_eq!(&wav[0..4], b"RIFF");
    assert_eq!(u32::from_le_bytes([wav[4], wav[5], wav[6], wav[7]]), 36 + 6);
    assert_eq!(&wav[8..16], b"WAVEfmt ");
    assert_eq!(u32::from_le_bytes([wav[16], wav[17], wav[18], wav[19]]), 16);
    assert_eq!(u16::from_le_bytes([wav[20], wav[21]]), 1);
    assert_eq!(u16::from_le_bytes([wav[22], wav[23]]), 1);
    assert_eq!(u32::from_le_bytes([wav[24], wav[25], wav[26], wav[27]]), 16000);
    assert_eq!(u32::from_le_bytes([wav[28], wav[29], wav[30], wav[31]]), 32000);
    assert_eq!(u16::from_le_bytes([wav[32], wav[33]]), 2);
    assert_eq!(u16::from_le_bytes([wav[34], wav[35]]), 16);
    assert_eq!(&wav[36..40], b"data");
    assert_eq!(u32::from_le_bytes([wav[40], wav[41], wav[42], wav[43]]), 6);
    assert_eq!(&wav[44..], &[1, 0, 0xff, 0xff, 0, 1]);
}

#[test]
fn the_language_hint() {
    let one = stt_request(&[], 16000, &vec!["ru".to_string()], "whisper-1");
    assert_eq!(one.language.as_deref(), Some("ru"));
    assert!(one.prompt.is_none());
    let two = stt_request(&[], 16000, &vec!["ru".to_string(), "en".to_string()], "whisper-1");
    assert_eq!(two.language.as_deref(), Some("ru"));
    assert_eq!(two.prompt.as_deref(), Some("Dictation in Russian and English."));
    let none = stt_request(&[], 16000, &Vec::new(), "whisper-1");
    assert!(none.language.is_none() && none.prompt.is_none());
    assert_eq!(none.model, "whisper-1");
}

#[test]
fn what_a_transcription_reply_comes_to() {
    assert_eq!(judge_transcription(Ok(reply(200, "", Ok(Some("привет".to_string()))))).unwrap(), "привет");
    assert_eq!(judge_transcription(Ok(reply(200, "", Ok(None)))).unwrap(), "");
    let e = judge_transcription(Ok(reply(200, "", Err("bad json".to_string())))).unwrap_err();
    assert_eq!(e.message, "Failed to parse response: bad json");
    assert_eq!(e.kind, FailKind::Hard);
    let e = judge_transcription(Ok(reply(503, "down", Ok(None)))).unwrap_err();
    assert_eq!(e.message, "API error 503 X: down");
    assert_eq!(e.kind, FailKind::Switch);
    let e = judge_transcription(Err(PostError::Send(SendError {
        is_timeout: true,
        kind: "timeout",
        message: "slow".to_string(),
    })))
    .unwrap_err();
    assert_eq!(e.message, "Network error: slow");
    assert_eq!(e.reason, "timed out");
    let e = judge_transcription(Err(PostError::Form("bad mime".to_string()))).unwrap_err();
    assert_eq!(e.message, "multipart build: bad mime");
}

#[test]
fn transcribe_posts_the_wav_and_the_fields() {
    let post = |url: &str, key: &str, q: &SttRequest| {
        assert_eq!(url, "https://x/audio");
        assert_eq!(key, "k");
        assert_eq!(q.wav.len(), 44 + 4);
        assert_eq!(q.model, "whisper-1");
        Ok(reply(200, "", Ok(Some("текст".to_string()))))
    };
    let out = transcribe(&[5, 6], 16000, &vec!["ru".to_string()], "https://x/audio", "k", "whisper-1", post);
    assert_eq!(out.unwrap(), "текст");
}

#[test]
fn a_dropped_transcription_is_sent_once_more_and_a_timeout_is_not() {
    let calls = std::cell::Cell::new(0u32);
    let stale = |_: &str, _: &str, _: &SttRequest| {
        calls.set(calls.get() + 1);
        if calls.get() == 1 {
            Err(PostError::Send(SendError { is_timeout: false, kind: "connect", message: "reset".to_string() }))
        } else {
            Ok(reply(200, "", Ok(Some("со второго раза".to_string()))))
        }
    };
    let out = transcribe(&[1], 16000, &Vec::new(), "u", "k", "m", stale);
    assert_eq!(out.unwrap(), "со второго раза");
    assert_eq!(calls.get(), 2);

    let tries = std::cell::Cell::new(0u32);
    let slow = |_: &str, _: &str, _: &SttRequest| {
        tries.set(tries.get() + 1);
        Err(PostError::Send(SendError { is_timeout: true, kind: "timeout", message: "slow".to_string() }))
    };
    let e = transcribe(&[1], 16000, &Vec::new(), "u", "k", "m", slow).unwrap_err();
    assert_eq!(tries.get(), 1);
    assert_eq!(e.kind, FailKind::Switch);
    assert_eq!(e.message, "Network error: slow");

    let twice = std::cell::Cell::new(0u32);
    let dead = |_: &str, _: &str, _: &SttRequest| {
        twice.set(twice.get() + 1);
        Err(PostError::Send(SendError { is_timeout: false, kind: "connect", message: "refused".to_string() }))
    };
    let e = transcribe(&[1], 16000, &Vec::new(), "u", "k", "m", dead).unwrap_err();
    assert_eq!(twice.get(), 2);
    assert_eq!(e.message, "Network error: refused");
}
