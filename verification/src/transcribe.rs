//! Speech to text through an OpenAI-compatible `/audio/transcriptions`
//! endpoint: the audio provider catalog, the WAV container the samples travel
//! in, the form fields that carry the language hint, and what every reply
//! comes to.
//!
//! The samples arrive already at the upload rate and as 16-bit PCM; the
//! multipart POST itself is handed in by the caller as a closure.

use vstd::prelude::*;

use crate::fallback::{
    err_view, http_view, rejected_view, retry_after_spec, transport_view, CallError, ErrView,
};
use crate::postprocess::{head200, SendError};
use crate::text;

verus! {

// ---------------------------------------------------------------------------
// The audio provider catalog.
// ---------------------------------------------------------------------------

/// Connection defaults for one OpenAI-compatible transcription endpoint.
#[derive(Debug, Clone, Copy)]
pub struct AudioProvider {
    pub name: &'static str,
    pub label: &'static str,
    pub url: &'static str,
    pub default_model: &'static str,
    pub key_env: &'static str,
}

/// An audio provider as five strings: name, label, URL, default model, key
/// variable.
pub open spec fn audio_view(p: AudioProvider) -> (Seq<char>, Seq<char>, Seq<char>, Seq<char>, Seq<char>) {
    (p.name@, p.label@, p.url@, p.default_model@, p.key_env@)
}

/// The audio providers the settings can prefill an entry from. Both speak the
/// same multipart API, which is what lets a stack fail over between them.
pub open spec fn audio_catalog_spec() -> Seq<(Seq<char>, Seq<char>, Seq<char>, Seq<char>, Seq<char>)> {
    seq![
        ("groq"@, "groq"@, "https://api.groq.com/openai/v1/audio/transcriptions"@, "whisper-large-v3-turbo"@, "GROQ_API_KEY"@),
        ("openai"@, "openai"@, "https://api.openai.com/v1/audio/transcriptions"@, "whisper-1"@, "OPENAI_API_KEY"@),
    ]
}

/// All audio providers, in catalog order.
pub fn audio_providers() -> (r: Vec<AudioProvider>)
    ensures
        r@.map_values(|p: AudioProvider| audio_view(p)) == audio_catalog_spec(),
{
    let r = vec![
        AudioProvider {
            name: "groq",
            label: "groq",
            url: "https://api.groq.com/openai/v1/audio/transcriptions",
            default_model: "whisper-large-v3-turbo",
            key_env: "GROQ_API_KEY",
        },
        AudioProvider {
            name: "openai",
            label: "openai",
            url: "https://api.openai.com/v1/audio/transcriptions",
            default_model: "whisper-1",
            key_env: "OPENAI_API_KEY",
        },
    ];
    assert(r@.map_values(|p: AudioProvider| audio_view(p)) =~= audio_catalog_spec());
    r
}

/// The audio catalog row named `name`, if there is one (the first, should
/// there be more).
pub open spec fn find_audio_spec(name: Seq<char>) -> Option<(Seq<char>, Seq<char>, Seq<char>, Seq<char>, Seq<char>)> {
    let c = audio_catalog_spec();
    if exists|i: int| 0 <= i < c.len() && (#[trigger] c[i]).0 == name {
        Some(c[choose|i: int| 0 <= i < c.len() && (#[trigger] c[i]).0 == name && forall|j: int| 0 <= j < i ==> (#[trigger] c[j]).0 != name])
    } else {
        None
    }
}

/// The audio provider called `name`.
pub fn find_audio_provider(name: &str) -> (r: Option<AudioProvider>)
    ensures
        match r {
            Some(p) => find_audio_spec(name@) == Some(audio_view(p)),
            None => find_audio_spec(name@) is None,
        },
{
    let all = audio_providers();
    let ghost c = audio_catalog_spec();
    let mut i: usize = 0;
    while i < all.len()
        invariant
            all@.map_values(|p: AudioProvider| audio_view(p)) == c,
            c == audio_catalog_spec(),
            0 <= i <= all@.len(),
            forall|j: int| 0 <= j < i ==> (#[trigger] c[j]).0 != name@,
        decreases all.len() - i,
    {
        assert(c[i as int] == audio_view(all@[i as int]));
        if text::str_eq(all[i].name, name) {
            let p = all[i];
            proof {
                assert(0 <= i < c.len() && c[i as int].0 == name@ && forall|j: int| 0 <= j < i ==> (#[trigger] c[j]).0 != name@);
                let k = choose|k: int| 0 <= k < c.len() && (#[trigger] c[k]).0 == name@ && forall|j: int| 0 <= j < k ==> (#[trigger] c[j]).0 != name@;
                assert(k == i as int) by {
                    if k > i {
                        assert(c[i as int].0 != name@);
                    }
                }
            }
            return Some(p);
        }
        i = i + 1;
    }
    None
}

// ---------------------------------------------------------------------------
// The language hint.
// ---------------------------------------------------------------------------

/// The English name of a language code, for the prompt hint.
pub open spec fn lang_name_spec(code: Seq<char>) -> Seq<char> {
    if code == "en"@ {
        "English"@
    } else if code == "ru"@ {
        "Russian"@
    } else if code == "zh"@ {
        "Chinese"@
    } else if code == "de"@ {
        "German"@
    } else if code == "es"@ {
        "Spanish"@
    } else if code == "fr"@ {
        "French"@
    } else if code == "it"@ {
        "Italian"@
    } else if code == "ja"@ {
        "Japanese"@
    } else if code == "ko"@ {
        "Korean"@
    } else if code == "nl"@ {
        "Dutch"@
    } else if code == "pl"@ {
        "Polish"@
    } else if code == "pt"@ {
        "Portuguese"@
    } else if code == "tr"@ {
        "Turkish"@
    } else if code == "uk"@ {
        "Ukrainian"@
    } else {
        "Unknown"@
    }
}

/// The English name of a language code ("Unknown" for codes not listed).
pub fn lang_name(code: &str) -> (r: &'static str)
    ensures
        r@ == lang_name_spec(code@),
{
    if text::str_eq(code, "en") {
        "English"
    } else if text::str_eq(code, "ru") {
        "Russian"
    } else if text::str_eq(code, "zh") {
        "Chinese"
    } else if text::str_eq(code, "de") {
        "German"
    } else if text::str_eq(code, "es") {
        "Spanish"
    } else if text::str_eq(code, "fr") {
        "French"
    } else if text::str_eq(code, "it") {
        "Italian"
    } else if text::str_eq(code, "ja") {
        "Japanese"
    } else if text::str_eq(code, "ko") {
        "Korean"
    } else if text::str_eq(code, "nl") {
        "Dutch"
    } else if text::str_eq(code, "pl") {
        "Polish"
    } else if text::str_eq(code, "pt") {
        "Portuguese"
    } else if text::str_eq(code, "tr") {
        "Turkish"
    } else if text::str_eq(code, "uk") {
        "Ukrainian"
    } else {
        "Unknown"
    }
}

/// The `prompt` hint for several languages: "Dictation in Russian and
/// English."
pub open spec fn prompt_hint_spec(codes: Seq<Seq<char>>) -> Seq<char> {
    "Dictation in "@ + text::join(codes.map_values(|c: Seq<char>| lang_name_spec(c)), " and "@) + "."@
}

pub open spec fn strings_view(v: Seq<String>) -> Seq<Seq<char>> {
    v.map_values(|s: String| s@)
}

fn prompt_hint(languages: &Vec<String>) -> (r: String)
    requires
        languages@.len() > 0,
    ensures
        r@ == prompt_hint_spec(strings_view(languages@)),
{
    let ghost names = strings_view(languages@).map_values(|c: Seq<char>| lang_name_spec(c));
    let mut out = String::new();
    text::push_str(&mut out, "Dictation in ");
    let ghost head = out@;
    text::push_str(&mut out, lang_name(languages[0].as_str()));
    assert(names.take(1) =~= seq![names[0]]);
    let mut i: usize = 1;
    while i < languages.len()
        invariant
            names == strings_view(languages@).map_values(|c: Seq<char>| lang_name_spec(c)),
            head == "Dictation in "@,
            1 <= i <= languages@.len(),
            out@ == head + text::join(names.take(i as int), " and "@),
        decreases languages.len() - i,
    {
        assert(names.take(i + 1).drop_last() =~= names.take(i as int));
        assert(names.take(i + 1).last() == names[i as int]);
        text::push_str(&mut out, " and ");
        text::push_str(&mut out, lang_name(languages[i].as_str()));
        assert(out@ =~= head + (text::join(names.take(i as int), " and "@) + " and "@ + names[i as int]));
        i = i + 1;
    }
    assert(names.take(i as int) =~= names);
    text::push_str(&mut out, ".");
    out
}

// ---------------------------------------------------------------------------
// The WAV container.
// ---------------------------------------------------------------------------

/// `x` as two little-endian bytes.
pub open spec fn le16(x: nat) -> Seq<u8> {
    seq![(x % 256) as u8, ((x / 256) % 256) as u8]
}

/// `x` as four little-endian bytes.
pub open spec fn le32(x: nat) -> Seq<u8> {
    seq![(x % 256) as u8, ((x / 256) % 256) as u8, ((x / 65536) % 256) as u8, ((x / 16777216) % 256) as u8]
}

/// The 44-byte header of a mono 16-bit PCM WAV file with `n` samples at
/// `rate` samples per second.
pub open spec fn wav_header_spec(rate: nat, n: nat) -> Seq<u8> {
    seq![0x52u8, 0x49u8, 0x46u8, 0x46u8] + le32(36 + 2 * n) + seq![0x57u8, 0x41u8, 0x56u8, 0x45u8]
        + seq![0x66u8, 0x6du8, 0x74u8, 0x20u8] + le32(16) + le16(1) + le16(1) + le32(rate) + le32(rate * 2)
        + le16(2) + le16(16) + seq![0x64u8, 0x61u8, 0x74u8, 0x61u8] + le32(2 * n)
}

/// A sample as the unsigned value of its two's-complement bits.
pub open spec fn sample_bits(s: i16) -> nat {
    if s < 0 {
        (s + 65536) as nat
    } else {
        s as nat
    }
}

/// The samples, two little-endian bytes each.
pub open spec fn samples_le(s: Seq<i16>) -> Seq<u8>
    decreases s.len(),
{
    if s.len() == 0 {
        seq![]
    } else {
        samples_le(s.drop_last()) + le16(sample_bits(s.last()))
    }
}

fn push_le16(out: &mut Vec<u8>, x: u32)
    requires
        x < 65536,
    ensures
        final(out)@ == old(out)@ + le16(x as nat),
{
    out.push((x % 256) as u8);
    out.push(((x / 256) % 256) as u8);
    assert(final(out)@ =~= old(out)@ + le16(x as nat));
}

fn push_le32(out: &mut Vec<u8>, x: u32)
    ensures
        final(out)@ == old(out)@ + le32(x as nat),
{
    out.push((x % 256) as u8);
    out.push(((x / 256) % 256) as u8);
    out.push(((x / 65536) % 256) as u8);
    out.push(((x / 16777216) % 256) as u8);
    assert(final(out)@ =~= old(out)@ + le32(x as nat));
}

fn push_bytes(out: &mut Vec<u8>, b0: u8, b1: u8, b2: u8, b3: u8)
    ensures
        final(out)@ == old(out)@ + seq![b0, b1, b2, b3],
{
    out.push(b0);
    out.push(b1);
    out.push(b2);
    out.push(b3);
    assert(final(out)@ =~= old(out)@ + seq![b0, b1, b2, b3]);
}

/// The samples as a mono 16-bit PCM WAV file: the 44-byte header, then each
/// sample as two little-endian bytes.
pub fn encode_wav(samples: &[i16], sample_rate: u32) -> (r: Vec<u8>)
    requires
        2 * samples@.len() + 36 <= u32::MAX,
        2 * sample_rate <= u32::MAX,
    ensures
        r@ == wav_header_spec(sample_rate as nat, samples@.len()) + samples_le(samples@),
{
    let n = samples.len() as u32;
    let data_size: u32 = n * 2;
    let mut out: Vec<u8> = Vec::new();
    push_bytes(&mut out, 0x52, 0x49, 0x46, 0x46);
    push_le32(&mut out, 36 + data_size);
    push_bytes(&mut out, 0x57, 0x41, 0x56, 0x45);
    push_bytes(&mut out, 0x66, 0x6d, 0x74, 0x20);
    push_le32(&mut out, 16);
    push_le16(&mut out, 1);
    push_le16(&mut out, 1);
    push_le32(&mut out, sample_rate);
    push_le32(&mut out, sample_rate * 2);
    push_le16(&mut out, 2);
    push_le16(&mut out, 16);
    push_bytes(&mut out, 0x64, 0x61, 0x74, 0x61);
    push_le32(&mut out, data_size);
    let ghost header = out@;
    assert(header =~= wav_header_spec(sample_rate as nat, samples@.len()));
    let mut i: usize = 0;
    while i < samples.len()
        invariant
            header == wav_header_spec(sample_rate as nat, samples@.len()),
            0 <= i <= samples@.len(),
            out@ == header + samples_le(samples@.take(i as int)),
        decreases samples.len() - i,
    {
        let s = samples[i];
        let bits: u32 = if s < 0 {
            (s as i32 + 65536) as u32
        } else {
            s as u32
        };
        assert(samples@.take(i + 1).drop_last() =~= samples@.take(i as int));
        assert(samples@.take(i + 1).last() == s);
        push_le16(&mut out, bits);
        assert(out@ =~= header + samples_le(samples@.take(i + 1)));
        i = i + 1;
    }
    assert(samples@.take(i as int) =~= samples@);
    out
}

// ---------------------------------------------------------------------------
// One transcription over HTTP.
// ---------------------------------------------------------------------------

/// The multipart form of one transcription request: the WAV file, the model,
/// and the language hint (the first language as `language`; with more than
/// one, a `prompt` naming them all).
#[derive(Debug, Clone)]
pub struct SttRequest {
    pub wav: Vec<u8>,
    pub model: String,
    pub language: Option<String>,
    pub prompt: Option<String>,
}

/// The form fields for `model` and `languages`, as plain values: model,
/// language, prompt.
pub open spec fn form_spec(model: Seq<char>, languages: Seq<Seq<char>>) -> (Seq<char>, Option<Seq<char>>, Option<Seq<char>>) {
    (
        model,
        if languages.len() > 0 {
            Some(languages[0])
        } else {
            None
        },
        if languages.len() > 1 {
            Some(prompt_hint_spec(languages))
        } else {
            None
        },
    )
}

pub open spec fn opt_str(o: Option<String>) -> Option<Seq<char>> {
    match o {
        Some(s) => Some(s@),
        None => None,
    }
}

pub open spec fn form_view(r: SttRequest) -> (Seq<char>, Option<Seq<char>>, Option<Seq<char>>) {
    (r.model@, opt_str(r.language), opt_str(r.prompt))
}

/// The request for `samples`: the WAV file and the form fields.
pub fn stt_request(samples: &[i16], sample_rate: u32, languages: &Vec<String>, model: &str) -> (r: SttRequest)
    requires
        2 * samples@.len() + 36 <= u32::MAX,
        2 * sample_rate <= u32::MAX,
    ensures
        r.wav@ == wav_header_spec(sample_rate as nat, samples@.len()) + samples_le(samples@),
        form_view(r) == form_spec(model@, strings_view(languages@)),
{
    let wav = encode_wav(samples, sample_rate);
    let language = if languages.len() > 0 {
        Some(languages[0].clone())
    } else {
        None
    };
    let prompt = if languages.len() > 1 {
        Some(prompt_hint(languages))
    } else {
        None
    };
    SttRequest { wav, model: String::from_str(model), language, prompt }
}

/// What a transcription POST got back: the status, its text as the transport
/// prints it, the `Retry-After` header when it was readable text, the body
/// text ("" when it could not be read), and for a 2xx what the JSON decoder
/// found in its `text` field (`None` when the field is missing or not a
/// string) or the decoder's error.
#[derive(Debug)]
pub struct SttReply {
    pub status: u16,
    pub status_text: String,
    pub retry_after: Option<String>,
    pub body: String,
    pub text: Result<Option<String>, String>,
}

/// Why a POST got no reply: the form could not be built, or the request did
/// not get through.
#[derive(Debug)]
pub enum PostError {
    Form(String),
    Send(SendError),
}

/// What a transcription attempt comes to.
pub open spec fn stt_outcome_spec(res: Result<SttReply, PostError>) -> Result<Seq<char>, ErrView> {
    match res {
        Err(PostError::Form(m)) => Err(rejected_view("multipart build: "@ + m@)),
        Err(PostError::Send(e)) => Err(transport_view(e.is_timeout, "Network error: "@ + e.message@)),
        Ok(reply) => if !(200 <= reply.status && reply.status < 300) {
            let retry = match reply.retry_after {
                Some(v) => retry_after_spec(v@),
                None => None,
            };
            Err(http_view(reply.status, "API error "@ + reply.status_text@ + ": "@ + head200(reply.body@), retry))
        } else {
            match reply.text {
                Err(m) => Err(rejected_view("Failed to parse response: "@ + m@)),
                Ok(Some(t)) => Ok(t@),
                Ok(None) => Ok(seq![]),
            }
        },
    }
}

pub open spec fn stt_matches(r: Result<String, CallError>, o: Result<Seq<char>, ErrView>) -> bool {
    match r {
        Ok(s) => o == Ok::<Seq<char>, ErrView>(s@),
        Err(e) => o == Err::<Seq<char>, ErrView>(err_view(e)),
    }
}

/// What one transcription attempt comes to: the transcript (empty when the
/// reply carried none), or the failure the stack walk acts on.
pub fn judge_transcription(res: Result<SttReply, PostError>) -> (r: Result<String, CallError>)
    ensures
        stt_matches(r, stt_outcome_spec(res)),
{
    let ghost g = res;
    match res {
        Err(PostError::Form(m)) => {
            let mut msg = String::new();
            text::push_str(&mut msg, "multipart build: ");
            text::push_str(&mut msg, m.as_str());
            Err(CallError::rejected(msg))
        },
        Err(PostError::Send(e)) => {
            let mut msg = String::new();
            text::push_str(&mut msg, "Network error: ");
            text::push_str(&mut msg, e.message.as_str());
            Err(CallError::transport(e.is_timeout, msg))
        },
        Ok(reply) => {
            if !(200 <= reply.status && reply.status < 300) {
                let mut msg = String::new();
                text::push_str(&mut msg, "API error ");
                text::push_str(&mut msg, reply.status_text.as_str());
                text::push_str(&mut msg, ": ");
                let v = text::chars_of(reply.body.as_str());
                if v.len() <= 200 {
                    text::push_range(&mut msg, v.as_slice(), 0, v.len());
                    assert(v@.subrange(0, v@.len() as int) =~= reply.body@);
                } else {
                    text::push_range(&mut msg, v.as_slice(), 0, 200);
                    assert(v@.subrange(0, 200) =~= reply.body@.take(200));
                }
                let retry = match &reply.retry_after {
                    Some(v) => crate::fallback::retry_after_secs(v.as_str()),
                    None => None,
                };
                return Err(CallError::http(reply.status, msg, retry));
            }
            match reply.text {
                Err(m) => {
                    let mut msg = String::new();
                    text::push_str(&mut msg, "Failed to parse response: ");
                    text::push_str(&mut msg, m.as_str());
                    Err(CallError::rejected(msg))
                },
                Ok(Some(t)) => Ok(t),
                Ok(None) => Ok(String::new()),
            }
        },
    }
}

/// Whether the transcription is sent a second time after `first`: only after
/// a transport error that was not a timeout (a stale pooled connection, fixed
/// by a fresh one). A timeout moves on to the next provider instead.
pub open spec fn stt_retries(first: Result<SttReply, PostError>) -> bool {
    match first {
        Err(PostError::Send(e)) => !e.is_timeout,
        _ => false,
    }
}

/// The attempt whose outcome is reported: the retry when there was one,
/// the first attempt otherwise.
pub open spec fn stt_last(
    first: Result<SttReply, PostError>,
    second: Option<Result<SttReply, PostError>>,
) -> Result<SttReply, PostError> {
    match second {
        Some(s) => s,
        None => first,
    }
}

/// Transcribe `samples` (16-bit mono PCM at `sample_rate`) through one
/// endpoint. `post` makes one multipart POST of the request to the URL with
/// the key as bearer token. The request is built by [`stt_request`] and sent
/// once, and sent again only after a transport error that was not a timeout;
/// the last attempt is read by [`judge_transcription`]. A timed-out
/// transcription is not retried: the caller's stack walk moves on.
pub fn transcribe<P>(
    samples: &[i16],
    sample_rate: u32,
    languages: &Vec<String>,
    url: &str,
    api_key: &str,
    model: &str,
    post: P,
) -> (r: Result<String, CallError>)
    where
        P: Fn(&str, &str, &SttRequest) -> Result<SttReply, PostError>,
    requires
        2 * samples@.len() + 36 <= u32::MAX,
        2 * sample_rate <= u32::MAX,
        forall|u: &str, k: &str, q: &SttRequest| post.requires((u, k, q)),
    ensures
        exists|
            q: SttRequest,
            first: Result<SttReply, PostError>,
            second: Option<Result<SttReply, PostError>>,
        |
            #![trigger post.ensures((url, api_key, &q), first), stt_last(first, second)]
            {
                &&& q.wav@ == wav_header_spec(sample_rate as nat, samples@.len()) + samples_le(samples@)
                &&& form_view(q) == form_spec(model@, strings_view(languages@))
                &&& post.ensures((url, api_key, &q), first)
                &&& second is Some <==> stt_retries(first)
                &&& (second matches Some(s2) ==> post.ensures((url, api_key, &q), s2))
                &&& stt_matches(r, stt_outcome_spec(stt_last(first, second)))
            },
{
    let request = stt_request(samples, sample_rate, languages, model);
    let first = post(url, api_key, &request);
    let ghost g_first = first;
    let again = match &first {
        Err(PostError::Send(e)) => !e.is_timeout,
        _ => false,
    };
    if again {
        let second = post(url, api_key, &request);
        let ghost g_second = second;
        let r = judge_transcription(second);
        assert(stt_last(g_first, Some(g_second)) == g_second);
        r
    } else {
        let r = judge_transcription(first);
        assert(stt_last(g_first, None) == g_first);
        r
    }
}

} // verus!
