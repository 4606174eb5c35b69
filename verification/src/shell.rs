//! The decisions the desktop shell makes around the pipeline: which stack a
//! settings call is about, what a new stack entry holds, which endpoints are
//! acceptable, which update channel is polled, what the menu-bar icon shows,
//! how the `.env` file is rewritten, and how legacy settings are folded into
//! the provider stacks.

use vstd::prelude::*;

use crate::fallback::{ProviderEntry, Stack};
use crate::postprocess;
use crate::text;
use crate::transcribe;

verus! {

/// A stack entry as plain values: id, label, url, model, key variable.
pub open spec fn entry_view(e: ProviderEntry) -> (Seq<char>, Seq<char>, Seq<char>, Seq<char>, Seq<char>) {
    (e.id@, e.label@, e.url@, e.model@, e.key_env@)
}

// ---------------------------------------------------------------------------
// Stack entries.
// ---------------------------------------------------------------------------

/// The host part of an endpoint: the third `/`-separated piece of the URL
/// ("routerai.ru" for "https://routerai.ru/api/..."), or "?" when there is
/// none.
pub open spec fn host_spec(url: Seq<char>) -> Seq<char> {
    let p = postprocess::pieces(url, '/');
    if p.len() > 2 {
        p[2]
    } else {
        "?"@
    }
}

/// The endpoint host of a stack entry.
pub fn entry_host(e: &ProviderEntry) -> (r: String)
    ensures
        r@ == host_spec(e.url@),
{
    let v = text::chars_of(e.url.as_str());
    let mut slashes: usize = 0;
    let mut start: usize = 0;
    let mut i: usize = 0;
    let ghost s = e.url@;
    while i < v.len() && slashes < 2
        invariant
            v@ == s,
            0 <= i <= v@.len(),
            slashes <= 2,
            postprocess::pieces(s.take(i as int), '/').len() == slashes + 1,
            slashes == 2 ==> start == i && postprocess::pieces(s.take(i as int), '/')[2].len() == 0,
        decreases v.len() - i,
    {
        proof {
            postprocess::lemma_pieces_nonempty(s.take(i as int), '/');
            assert(s.take(i + 1).drop_last() =~= s.take(i as int));
            assert(s.take(i + 1).last() == v@[i as int]);
        }
        if v[i] == '/' {
            slashes = slashes + 1;
        }
        i = i + 1;
        if slashes == 2 {
            start = i;
        }
    }
    if slashes < 2 {
        assert(s.take(i as int) =~= s);
        return String::from_str("?");
    }
    // The host runs from `start` to the next '/' or the end.
    let mut j = start;
    while j < v.len() && v[j] != '/'
        invariant
            v@ == s,
            start <= j <= v@.len(),
            postprocess::pieces(s.take(j as int), '/').len() == 3,
            postprocess::pieces(s.take(j as int), '/')[2] == s.subrange(start as int, j as int),
        decreases v.len() - j,
    {
        proof {
            assert(s.take(j + 1).drop_last() =~= s.take(j as int));
            assert(s.take(j + 1).last() == v@[j as int]);
            assert(s.subrange(start as int, j + 1) =~= s.subrange(start as int, j as int).push(v@[j as int]));
        }
        j = j + 1;
    }
    proof {
        lemma_pieces_keep_prefix(s, j as int);
    }
    text::string_of_range(v.as_slice(), start, j)
}

/// Splitting a longer text only appends pieces and extends the last one: the
/// pieces of a prefix that ends at a separator (or at the end) survive intact.
proof fn lemma_pieces_keep_prefix(s: Seq<char>, j: int)
    requires
        0 <= j <= s.len(),
        j == s.len() || s[j] == '/',
    ensures
        forall|k: int|
            0 <= k < postprocess::pieces(s.take(j), '/').len() ==> postprocess::pieces(s, '/').len() > k
                && (#[trigger] postprocess::pieces(s, '/')[k]) == postprocess::pieces(s.take(j), '/')[k],
    decreases s.len() - j,
{
    if j == s.len() {
        assert(s.take(j) =~= s);
    } else {
        assert(s.take(j + 1).drop_last() =~= s.take(j));
        assert(s.take(j + 1).last() == '/');
        lemma_pieces_grow(s, j + 1);
    }
}

/// The pieces of `s.take(j)` are a prefix of the pieces of `s`, up to the last
/// one, which may grow.
proof fn lemma_pieces_grow(s: Seq<char>, j: int)
    requires
        0 <= j <= s.len(),
    ensures
        postprocess::pieces(s, '/').len() >= postprocess::pieces(s.take(j), '/').len(),
        forall|k: int|
            0 <= k < postprocess::pieces(s.take(j), '/').len() - 1 ==> (#[trigger] postprocess::pieces(s, '/')[k])
                == postprocess::pieces(s.take(j), '/')[k],
    decreases s.len() - j,
{
    if j == s.len() {
        assert(s.take(j) =~= s);
    } else {
        lemma_pieces_grow(s, j + 1);
        let a = s.take(j);
        let b = s.take(j + 1);
        assert(b.drop_last() =~= a);
        postprocess::lemma_pieces_nonempty(a, '/');
    }
}

/// "provider/model" for the transcription log; an entry without a label is
/// named by its endpoint host.
pub open spec fn label_spec(e: ProviderEntry) -> Seq<char> {
    (if e.label@.len() == 0 {
        host_spec(e.url@)
    } else {
        e.label@
    }) + "/"@ + e.model@
}

/// The "provider/model" label of a stack entry.
pub fn entry_label(e: &ProviderEntry) -> (r: String)
    ensures
        r@ == label_spec(*e),
{
    let mut out = if text::chars_of(e.label.as_str()).len() == 0 {
        entry_host(e)
    } else {
        e.label.clone()
    };
    text::push_str(&mut out, "/");
    text::push_str(&mut out, e.model.as_str());
    out
}

/// The stack a settings call names: "audio" or "text".
pub fn parse_stack(kind: &str) -> (r: Result<Stack, String>)
    ensures
        kind@ == "audio"@ ==> r == Ok::<Stack, String>(Stack::Audio),
        kind@ == "text"@ ==> r == Ok::<Stack, String>(Stack::Text),
        kind@ != "audio"@ && kind@ != "text"@ ==> (r matches Err(m) && m@ == "unknown stack: "@ + kind@),
{
    proof {
        reveal_strlit("audio");
        reveal_strlit("text");
        assert("audio"@.len() != "text"@.len());
    }
    if text::str_eq(kind, "audio") {
        Ok(Stack::Audio)
    } else if text::str_eq(kind, "text") {
        Ok(Stack::Text)
    } else {
        let mut m = String::new();
        text::push_str(&mut m, "unknown stack: ");
        text::push_str(&mut m, kind);
        Err(m)
    }
}

/// Catalog defaults for a provider name in a stack: (label, url, default
/// model, key variable).
pub open spec fn catalog_spec(stack: Stack, name: Seq<char>) -> Option<(Seq<char>, Seq<char>, Seq<char>, Seq<char>)> {
    match stack {
        Stack::Text => match postprocess::find_provider_spec(name) {
            Some(p) => Some((p.2, p.3, p.4, p.1)),
            None => None,
        },
        Stack::Audio => match transcribe::find_audio_spec(name) {
            Some(p) => Some((p.1, p.2, p.3, p.4)),
            None => None,
        },
    }
}

pub open spec fn quad_view(q: (String, String, String, String)) -> (Seq<char>, Seq<char>, Seq<char>, Seq<char>) {
    (q.0@, q.1@, q.2@, q.3@)
}

/// The catalog defaults for `name` in `stack`, `None` for an unknown name.
pub fn catalog_lookup(stack: Stack, name: &str) -> (r: Option<(String, String, String, String)>)
    ensures
        match r {
            Some(q) => catalog_spec(stack, name@) == Some(quad_view(q)),
            None => catalog_spec(stack, name@) is None,
        },
{
    match stack {
        Stack::Text => match postprocess::find_provider(name) {
            Some(p) => Some(
                (
                    String::from_str(p.label),
                    String::from_str(p.base_url),
                    String::from_str(p.default_model),
                    String::from_str(p.env_var),
                ),
            ),
            None => None,
        },
        Stack::Audio => match transcribe::find_audio_provider(name) {
            Some(p) => Some(
                (
                    String::from_str(p.label),
                    String::from_str(p.url),
                    String::from_str(p.default_model),
                    String::from_str(p.key_env),
                ),
            ),
            None => None,
        },
    }
}

/// The key variable of a custom entry.
pub open spec fn custom_key_env(id: Seq<char>) -> Seq<char> {
    "RIBBIT_KEY_"@ + id
}

/// The entry "+ add provider" appends: "custom" is blank but for its own key
/// variable; a catalog name is prefilled from the catalog.
pub fn new_entry(stack: Stack, provider: &str, id: &str) -> (r: Result<ProviderEntry, String>)
    ensures
        provider@ == "custom"@ ==> (r matches Ok(e) && entry_view(e) == (id@, "custom"@, Seq::<char>::empty(), Seq::<char>::empty(), custom_key_env(id@))),
        provider@ != "custom"@ ==> match catalog_spec(stack, provider@) {
            Some(c) => r matches Ok(e) && entry_view(e) == (id@, c.0, c.1, c.2, c.3),
            None => r matches Err(m) && m@ == "unknown provider: "@ + provider@,
        },
{
    if text::str_eq(provider, "custom") {
        let mut key_env = String::new();
        text::push_str(&mut key_env, "RIBBIT_KEY_");
        text::push_str(&mut key_env, id);
        return Ok(
            ProviderEntry {
                id: String::from_str(id),
                label: String::from_str("custom"),
                url: String::new(),
                model: String::new(),
                key_env,
            },
        );
    }
    match catalog_lookup(stack, provider) {
        Some((label, url, model, key_env)) => Ok(ProviderEntry { id: String::from_str(id), label, url, model, key_env }),
        None => {
            let mut m = String::new();
            text::push_str(&mut m, "unknown provider: ");
            text::push_str(&mut m, provider);
            Err(m)
        },
    }
}

// ---------------------------------------------------------------------------
// Editing a stack entry.
// ---------------------------------------------------------------------------

/// The message a plain-http endpoint is refused with.
pub const HTTPS_REQUIRED: &'static str = "endpoint must start with https:// — your key travels with every request";

/// An endpoint is where the key goes on every request, so one that is not
/// https is refused when it is typed. An empty field (after trimming) is fine.
pub open spec fn https_ok(url: Seq<char>) -> bool {
    let u = text::trim(url);
    u.len() == 0 || text::starts_with(u, "https://"@)
}

/// Refuse an endpoint that would send the key in the clear.
pub fn require_https(url: &str) -> (r: Result<(), String>)
    ensures
        r is Ok <==> https_ok(url@),
        r matches Err(m) ==> m@ == HTTPS_REQUIRED@,
{
    let u = text::chars_of(text::trimmed(url).as_str());
    let p = text::chars_of("https://");
    if u.len() == 0 || text::slice_starts_with(u.as_slice(), p.as_slice()) {
        return Ok(());
    }
    Err(String::from_str(HTTPS_REQUIRED))
}

/// Which fields of an entry the settings may edit.
pub open spec fn editable(field: Seq<char>) -> bool {
    field == "url"@ || field == "model"@ || field == "label"@
}

/// The value to store for `field`, trimmed, or why it is refused: a field
/// that is not editable, or a url that is not https.
pub fn field_value(field: &str, value: &str) -> (r: Result<String, String>)
    ensures
        !editable(field@) ==> (r matches Err(m) && m@ == "field not editable: "@ + field@),
        editable(field@) && field@ == "url"@ && !https_ok(value@) ==> (r matches Err(m) && m@ == HTTPS_REQUIRED@),
        editable(field@) && (field@ != "url"@ || https_ok(value@)) ==> (r matches Ok(v) && v@ == text::trim(value@)),
{
    if !(text::str_eq(field, "url") || text::str_eq(field, "model") || text::str_eq(field, "label")) {
        let mut m = String::new();
        text::push_str(&mut m, "field not editable: ");
        text::push_str(&mut m, field);
        return Err(m);
    }
    if text::str_eq(field, "url") {
        match require_https(value) {
            Ok(()) => {},
            Err(m) => return Err(m),
        }
    }
    Ok(text::trimmed(value))
}

/// Where an entry at `pos` moves among `len` entries: one up, one down, or
/// nowhere at either end. The order is the fallback priority.
pub open spec fn move_target_spec(pos: nat, len: nat, up: bool) -> Option<nat> {
    if up {
        if pos >= 1 {
            Some((pos - 1) as nat)
        } else {
            None
        }
    } else if pos + 1 < len {
        Some(pos + 1)
    } else {
        None
    }
}

pub fn move_target(pos: usize, len: usize, up: bool) -> (r: Option<usize>)
    ensures
        match r {
            Some(t) => move_target_spec(pos as nat, len as nat, up) == Some(t as nat),
            None => move_target_spec(pos as nat, len as nat, up) is None,
        },
{
    if up {
        if pos >= 1 {
            Some(pos - 1)
        } else {
            None
        }
    } else if pos < len && pos + 1 < len {
        Some(pos + 1)
    } else {
        None
    }
}

// ---------------------------------------------------------------------------
// Updates and the menu-bar icon.
// ---------------------------------------------------------------------------

/// The stable channel's manifest: the newest GitHub release.
pub const STABLE_ENDPOINT: &'static str = "https://github.com/olegperegudov/ribbit/releases/latest/download/latest.json";

/// The beta channel's manifest: a fixed prerelease re-uploaded by every build.
pub const BETA_ENDPOINT: &'static str = "https://github.com/olegperegudov/ribbit/releases/download/beta/beta.json";

/// The release list the tray's version item opens.
pub const RELEASES_URL: &'static str = "https://github.com/olegperegudov/ribbit/releases";

/// The channel this install polls: "beta" only when the settings say exactly
/// that; anything else, or nothing, is "stable", so a typo never points the
/// updater at a URL the project does not control.
pub fn update_channel(configured: Option<&str>) -> (r: &'static str)
    ensures
        r@ == (if configured matches Some(c) && c@ == "beta"@ {
            "beta"@
        } else {
            "stable"@
        }),
{
    match configured {
        Some(c) => if text::str_eq(c, "beta") {
            "beta"
        } else {
            "stable"
        },
        None => "stable",
    }
}

/// The manifest URL for a channel: beta's for "beta", stable's otherwise.
pub fn endpoint_for_channel(channel: &str) -> (r: &'static str)
    ensures
        r@ == (if channel@ == "beta"@ {
            BETA_ENDPOINT@
        } else {
            STABLE_ENDPOINT@
        }),
{
    if text::str_eq(channel, "beta") {
        BETA_ENDPOINT
    } else {
        STABLE_ENDPOINT
    }
}

/// A channel the settings may store: "stable" or "beta".
pub fn check_channel(channel: &str) -> (r: Result<(), String>)
    ensures
        r is Ok <==> (channel@ == "stable"@ || channel@ == "beta"@),
        r matches Err(m) ==> m@ == "unknown update channel: "@ + channel@,
{
    if text::str_eq(channel, "stable") || text::str_eq(channel, "beta") {
        Ok(())
    } else {
        let mut m = String::new();
        text::push_str(&mut m, "unknown update channel: ");
        text::push_str(&mut m, channel);
        Err(m)
    }
}

/// Both channels are served from the project's own repository, and every
/// channel name maps to one of the two manifests.
pub proof fn law_channels_stay_in_the_repo(channel: Seq<char>)
    ensures
        text::starts_with(STABLE_ENDPOINT@, "https://github.com/olegperegudov/ribbit/"@),
        text::starts_with(BETA_ENDPOINT@, "https://github.com/olegperegudov/ribbit/"@),
        text::starts_with(RELEASES_URL@, "https://github.com/olegperegudov/ribbit/"@) || RELEASES_URL@
            == "https://github.com/olegperegudov/ribbit/releases"@,
{
    reveal_strlit("https://github.com/olegperegudov/ribbit/releases/latest/download/latest.json");
    reveal_strlit("https://github.com/olegperegudov/ribbit/releases/download/beta/beta.json");
    reveal_strlit("https://github.com/olegperegudov/ribbit/");
    let pre = "https://github.com/olegperegudov/ribbit/"@;
    assert(STABLE_ENDPOINT@.subrange(0, pre.len() as int) =~= pre);
    assert(BETA_ENDPOINT@.subrange(0, pre.len() as int) =~= pre);
}

/// What the menu-bar icon is saying.
#[derive(Debug, Clone, Copy, PartialEq, Eq, Structural)]
pub enum TrayBadge {
    Plain,
    Update,
    Failure,
}

/// A dictation that never arrived outranks a waiting release: one costs the
/// user text they already spoke, the other can wait until tomorrow.
pub fn tray_badge(insert_failed: bool, update_pending: bool) -> (b: TrayBadge)
    ensures
        b == (if insert_failed {
            TrayBadge::Failure
        } else if update_pending {
            TrayBadge::Update
        } else {
            TrayBadge::Plain
        }),
{
    if insert_failed {
        TrayBadge::Failure
    } else if update_pending {
        TrayBadge::Update
    } else {
        TrayBadge::Plain
    }
}

// ---------------------------------------------------------------------------
// Ids, keys and the `.env` file.
// ---------------------------------------------------------------------------

/// The number in an id of the form `p<N>` (`N` as `u64::from_str` reads it).
pub open spec fn id_number(id: Seq<char>) -> Option<u64> {
    if id.len() > 0 && id[0] == 'p' {
        text::parse_u64_spec(id.drop_first())
    } else {
        None
    }
}

/// The largest `p<N>` number among `ids`, 0 when there is none.
pub open spec fn max_id_number(ids: Seq<Seq<char>>) -> u64
    decreases ids.len(),
{
    if ids.len() == 0 {
        0
    } else {
        let m = max_id_number(ids.drop_last());
        match id_number(ids.last()) {
            Some(n) => if n > m {
                n
            } else {
                m
            },
            None => m,
        }
    }
}

/// One past the largest `p<N>` id of both stacks: stable, and needs no clock.
pub fn next_provider_id(ids: &Vec<String>) -> (r: String)
    requires
        max_id_number(ids@.map_values(|s: String| s@)) < u64::MAX,
    ensures
        r@ == seq!['p'] + text::decimal((max_id_number(ids@.map_values(|s: String| s@)) + 1) as nat),
{
    let ghost iv = ids@.map_values(|s: String| s@);
    let mut max: u64 = 0;
    let mut i: usize = 0;
    while i < ids.len()
        invariant
            iv == ids@.map_values(|s: String| s@),
            0 <= i <= ids@.len(),
            max == max_id_number(iv.take(i as int)),
        decreases ids.len() - i,
    {
        assert(iv.take(i + 1).drop_last() =~= iv.take(i as int));
        assert(iv.take(i + 1).last() == iv[i as int]);
        let v = text::chars_of(ids[i].as_str());
        assert(v@ == iv[i as int]);
        if v.len() > 0 && v[0] == 'p' {
            let n = text::parse_u64(v.as_slice(), 1, v.len());
            assert(v@.subrange(1, v@.len() as int) =~= v@.drop_first());
            match n {
                Some(n) => {
                    if n > max {
                        max = n;
                    }
                },
                None => {},
            }
        }
        i = i + 1;
    }
    assert(iv.take(i as int) =~= iv);
    let mut out = String::new();
    text::push_char(&mut out, 'p');
    text::push_decimal(&mut out, max + 1);
    assert(seq!['p'] + text::decimal((max + 1) as nat) =~= seq![].push('p') + text::decimal((max + 1) as nat));
    out
}

/// The `.env` variable an API key is saved under: from the named provider,
/// or, with none named, guessed from the key ("gsk_" keys are Groq's).
pub open spec fn api_key_var_spec(key: Seq<char>, provider: Option<Seq<char>>) -> Seq<char> {
    let prov = match provider {
        Some(p) => p,
        None => if text::starts_with(key, "gsk_"@) {
            "groq"@
        } else {
            "openai"@
        },
    };
    if prov == "groq"@ {
        "GROQ_API_KEY"@
    } else if prov == "router_ai"@ || prov == "routerai"@ {
        "ROUTERAI_API_KEY"@
    } else if prov == "openrouter"@ {
        "OPENROUTER_API_KEY"@
    } else {
        "OPENAI_API_KEY"@
    }
}

/// Naming the provider decides the variable, whatever the key looks like:
/// a Groq key saved for Groq goes to `GROQ_API_KEY`, and so on; with no
/// provider named the variable is the one of the provider the key suggests.
pub proof fn law_the_named_provider_decides(k1: Seq<char>, k2: Seq<char>, p: Seq<char>)
    ensures
        api_key_var_spec(k1, Some(p)) == api_key_var_spec(k2, Some(p)),
        api_key_var_spec(k1, Some("groq"@)) == "GROQ_API_KEY"@,
        api_key_var_spec(k1, Some("openrouter"@)) == "OPENROUTER_API_KEY"@,
        api_key_var_spec(k1, Some("router_ai"@)) == "ROUTERAI_API_KEY"@,
        api_key_var_spec(k1, Some("routerai"@)) == "ROUTERAI_API_KEY"@,
        api_key_var_spec(k1, Some("openai"@)) == "OPENAI_API_KEY"@,
        (p != "groq"@ && p != "router_ai"@ && p != "routerai"@ && p != "openrouter"@) ==> api_key_var_spec(
            k1,
            Some(p),
        ) == "OPENAI_API_KEY"@,
        api_key_var_spec(k1, None) == api_key_var_spec(
            k2,
            Some(
                if text::starts_with(k1, "gsk_"@) {
                    "groq"@
                } else {
                    "openai"@
                },
            ),
        ),
{
    reveal_strlit("groq");
    reveal_strlit("router_ai");
    reveal_strlit("routerai");
    reveal_strlit("openrouter");
    reveal_strlit("openai");
    assert("openrouter"@.len() == 10 && "groq"@.len() == 4 && "router_ai"@.len() == 9 && "routerai"@.len() == 8);
    assert("routerai"@ != "groq"@);
    assert("router_ai"@ != "groq"@);
    assert("openai"@.len() == 6);
}

pub fn api_key_var(key: &str, provider: Option<&str>) -> (r: &'static str)
    ensures
        r@ == api_key_var_spec(key@, match provider {
            Some(p) => Some(p@),
            None => None,
        }),
{
    let groq_key = {
        let k = text::chars_of(key);
        let p = text::chars_of("gsk_");
        text::slice_starts_with(k.as_slice(), p.as_slice())
    };
    let prov: &str = match provider {
        Some(p) => p,
        None => if groq_key {
            "groq"
        } else {
            "openai"
        },
    };
    if text::str_eq(prov, "groq") {
        "GROQ_API_KEY"
    } else if text::str_eq(prov, "router_ai") || text::str_eq(prov, "routerai") {
        "ROUTERAI_API_KEY"
    } else if text::str_eq(prov, "openrouter") {
        "OPENROUTER_API_KEY"
    } else {
        "OPENAI_API_KEY"
    }
}

/// `l` without one trailing carriage return.
pub open spec fn strip_cr(l: Seq<char>) -> Seq<char> {
    if l.len() > 0 && l.last() == '\r' {
        l.drop_last()
    } else {
        l
    }
}

/// The lines of `s` as `str::lines` yields them: split at `\n`, one trailing
/// `\r` dropped from each, and no empty line after a final `\n`.
pub open spec fn lines_spec(s: Seq<char>) -> Seq<Seq<char>> {
    let p = postprocess::pieces(s, '\n');
    let q = if p.last().len() == 0 {
        p.drop_last()
    } else {
        p
    };
    q.map_values(|l: Seq<char>| strip_cr(l))
}

/// The lines of `s`.
pub fn lines(s: &str) -> (r: Vec<Vec<char>>)
    ensures
        r@.map_values(|l: Vec<char>| l@) == lines_spec(s@),
{
    let ps = crate::postprocess::split_lines_raw(s);
    let ghost pv = ps@.map_values(|l: Vec<char>| l@);
    proof {
        postprocess::lemma_pieces_nonempty(s@, '\n');
    }
    let n = if ps[ps.len() - 1].len() == 0 {
        ps.len() - 1
    } else {
        ps.len()
    };
    let ghost q = if pv.last().len() == 0 {
        pv.drop_last()
    } else {
        pv
    };
    assert(q =~= pv.take(n as int));
    let mut out: Vec<Vec<char>> = Vec::new();
    let mut i: usize = 0;
    while i < n
        invariant
            pv == ps@.map_values(|l: Vec<char>| l@),
            pv == postprocess::pieces(s@, '\n'),
            q == pv.take(n as int),
            n <= ps@.len(),
            0 <= i <= n,
            out@.map_values(|l: Vec<char>| l@) == q.take(i as int).map_values(|l: Seq<char>| strip_cr(l)),
        decreases n - i,
    {
        let line = &ps[i];
        let ghost before = out@.map_values(|l: Vec<char>| l@);
        let mut l: Vec<char> = Vec::new();
        let end = if line.len() > 0 && line[line.len() - 1] == '\r' {
            line.len() - 1
        } else {
            line.len()
        };
        let mut j: usize = 0;
        while j < end
            invariant
                0 <= j <= end <= line@.len(),
                l@ == line@.take(j as int),
            decreases end - j,
        {
            l.push(line[j]);
            assert(l@ =~= line@.take(j + 1));
            j = j + 1;
        }
        assert(line@ == pv[i as int]);
        proof {
            if line@.len() > 0 && line@.last() == '\r' {
                assert(l@ =~= line@.drop_last());
            } else {
                assert(l@ =~= line@);
            }
        }
        out.push(l);
        assert(q.take(i + 1) =~= q.take(i as int).push(q[i as int]));
        assert(l@ == strip_cr(q[i as int]));
        assert(out@.map_values(|l: Vec<char>| l@) =~= before.push(l@));
        assert(q.take(i + 1).map_values(|l: Seq<char>| strip_cr(l)) =~= q.take(i as int).map_values(|l: Seq<char>| strip_cr(l)).push(strip_cr(q[i as int])));
        i = i + 1;
    }
    assert(q.take(i as int) =~= q);
    out
}

/// The lines of `ls` that do not start with `prefix`, in order.
pub open spec fn drop_prefixed(ls: Seq<Seq<char>>, prefix: Seq<char>) -> Seq<Seq<char>>
    decreases ls.len(),
{
    if ls.len() == 0 {
        seq![]
    } else if text::starts_with(ls.last(), prefix) {
        drop_prefixed(ls.drop_last(), prefix)
    } else {
        drop_prefixed(ls.drop_last(), prefix).push(ls.last())
    }
}

/// The `.env` file after saving `name=value`: every other line kept in order,
/// any earlier line for `name` dropped, the new line last, and a final line
/// feed.
pub open spec fn env_file_spec(existing: Seq<char>, name: Seq<char>, value: Seq<char>) -> Seq<char> {
    let prefix = name + "="@;
    text::join(drop_prefixed(lines_spec(existing), prefix).push(prefix + value), "\n"@) + "\n"@
}

fn join_lines(ls: &Vec<Vec<char>>) -> (r: String)
    ensures
        r@ == text::join(ls@.map_values(|l: Vec<char>| l@), "\n"@),
{
    let ghost lv = ls@.map_values(|l: Vec<char>| l@);
    let mut out = String::new();
    if ls.len() == 0 {
        return out;
    }
    text::push_range(&mut out, ls[0].as_slice(), 0, ls[0].len());
    assert(ls[0]@.subrange(0, ls[0]@.len() as int) =~= lv[0]);
    assert(lv.take(1) =~= seq![lv[0]]);
    let mut i: usize = 1;
    while i < ls.len()
        invariant
            lv == ls@.map_values(|l: Vec<char>| l@),
            1 <= i <= ls@.len(),
            out@ == text::join(lv.take(i as int), "\n"@),
        decreases ls.len() - i,
    {
        assert(lv.take(i + 1).drop_last() =~= lv.take(i as int));
        assert(lv.take(i + 1).last() == lv[i as int]);
        text::push_str(&mut out, "\n");
        text::push_range(&mut out, ls[i].as_slice(), 0, ls[i].len());
        assert(ls[i as int]@.subrange(0, ls[i as int]@.len() as int) =~= lv[i as int]);
        assert(out@ =~= text::join(lv.take(i as int), "\n"@) + "\n"@ + lv[i as int]);
        i = i + 1;
    }
    assert(lv.take(i as int) =~= lv);
    out
}

/// The new contents of the `.env` file when `name` is set to `value`.
pub fn env_file_with(existing: &str, name: &str, value: &str) -> (r: String)
    ensures
        r@ == env_file_spec(existing@, name@, value@),
{
    let ls = lines(existing);
    let ghost lv = ls@.map_values(|l: Vec<char>| l@);
    let mut prefix = String::new();
    text::push_str(&mut prefix, name);
    text::push_str(&mut prefix, "=");
    let pv = text::chars_of(prefix.as_str());
    let mut kept: Vec<Vec<char>> = Vec::new();
    let mut i: usize = 0;
    while i < ls.len()
        invariant
            lv == ls@.map_values(|l: Vec<char>| l@),
            lv == lines_spec(existing@),
            pv@ == name@ + "="@,
            0 <= i <= ls@.len(),
            kept@.map_values(|l: Vec<char>| l@) == drop_prefixed(lv.take(i as int), name@ + "="@),
        decreases ls.len() - i,
    {
        assert(lv.take(i + 1).drop_last() =~= lv.take(i as int));
        assert(lv.take(i + 1).last() == lv[i as int]);
        if !text::slice_starts_with(ls[i].as_slice(), pv.as_slice()) {
            let ghost before = kept@.map_values(|l: Vec<char>| l@);
            let l = ls[i].clone();
            kept.push(l);
            assert(kept@.map_values(|l: Vec<char>| l@) =~= before.push(lv[i as int]));
        }
        i = i + 1;
    }
    assert(lv.take(i as int) =~= lv);
    let mut last = pv.clone();
    let vv = text::chars_of(value);
    let mut j: usize = 0;
    while j < vv.len()
        invariant
            0 <= j <= vv@.len(),
            last@ == pv@ + vv@.take(j as int),
        decreases vv.len() - j,
    {
        last.push(vv[j]);
        assert(last@ =~= pv@ + vv@.take(j + 1));
        j = j + 1;
    }
    assert(vv@.take(j as int) =~= value@);
    let ghost before = kept@.map_values(|l: Vec<char>| l@);
    kept.push(last);
    assert(kept@.map_values(|l: Vec<char>| l@) =~= before.push(name@ + "="@ + value@));
    let mut out = join_lines(&kept);
    text::push_str(&mut out, "\n");
    out
}

/// The first position of `c` in `s`.
pub open spec fn first_index(s: Seq<char>, c: char) -> Option<int> {
    if exists|i: int| 0 <= i < s.len() && s[i] == c {
        Some(choose|i: int| 0 <= i < s.len() && s[i] == c && forall|j: int| 0 <= j < i ==> s[j] != c)
    } else {
        None
    }
}

/// A `.env` line as a (key, value) pair: split at the first `=`, both sides
/// trimmed. Lines without `=`, with an empty key, or whose key starts with
/// `#` carry nothing.
pub open spec fn env_line_spec(line: Seq<char>) -> Option<(Seq<char>, Seq<char>)> {
    match first_index(line, '=') {
        None => None,
        Some(i) => {
            let key = text::trim(line.subrange(0, i));
            let value = text::trim(line.subrange(i + 1, line.len() as int));
            if key.len() == 0 || key[0] == '#' {
                None
            } else {
                Some((key, value))
            }
        },
    }
}

/// The variable a `.env` line sets, if any.
pub fn parse_env_line(line: &str) -> (r: Option<(String, String)>)
    ensures
        match r {
            Some((k, v)) => env_line_spec(line@) == Some((k@, v@)),
            None => env_line_spec(line@) is None,
        },
{
    let v = text::chars_of(line);
    let mut i: usize = 0;
    while i < v.len() && v[i] != '='
        invariant
            v@ == line@,
            0 <= i <= v@.len(),
            forall|j: int| 0 <= j < i ==> v@[j] != '=',
        decreases v.len() - i,
    {
        i = i + 1;
    }
    if i == v.len() {
        return None;
    }
    proof {
        let k = choose|k: int| 0 <= k < line@.len() && line@[k] == '=' && forall|j: int| 0 <= j < k ==> line@[j] != '=';
        assert(0 <= i < line@.len() && line@[i as int] == '=' && forall|j: int| 0 <= j < i ==> line@[j] != '=');
        assert(k == i as int) by {
            if k < i {
            } else if k > i {
            }
        }
    }
    let (kb, ke) = text::trim_range(v.as_slice(), 0, i);
    let (vb, ve) = text::trim_range(v.as_slice(), i + 1, v.len());
    if kb == ke || v[kb] == '#' {
        return None;
    }
    Some((text::string_of_range(v.as_slice(), kb, ke), text::string_of_range(v.as_slice(), vb, ve)))
}

/// The last 200 lines of the debug log, joined by line feeds.
pub open spec fn log_tail_spec(contents: Seq<char>) -> Seq<char> {
    let ls = lines_spec(contents);
    text::join(
        if ls.len() > 200 {
            ls.subrange(ls.len() - 200, ls.len() as int)
        } else {
            ls
        },
        "\n"@,
    )
}

/// What the debug-log viewer shows of the log: its last 200 lines.
pub fn log_tail(contents: &str) -> (r: String)
    ensures
        r@ == log_tail_spec(contents@),
{
    let ls = lines(contents);
    let ghost lv = ls@.map_values(|l: Vec<char>| l@);
    let start = if ls.len() > 200 {
        ls.len() - 200
    } else {
        0
    };
    let mut tail: Vec<Vec<char>> = Vec::new();
    let mut i = start;
    while i < ls.len()
        invariant
            lv == ls@.map_values(|l: Vec<char>| l@),
            start <= i <= ls@.len(),
            tail@.map_values(|l: Vec<char>| l@) == lv.subrange(start as int, i as int),
        decreases ls.len() - i,
    {
        let ghost before = tail@.map_values(|l: Vec<char>| l@);
        let l = ls[i].clone();
        assert(l@ == lv[i as int]);
        tail.push(l);
        assert(tail@.map_values(|l: Vec<char>| l@) =~= before.push(lv[i as int]));
        assert(lv.subrange(start as int, i + 1) =~= lv.subrange(start as int, i as int).push(lv[i as int]));
        i = i + 1;
    }
    proof {
        if lv.len() <= 200 {
            assert(lv.subrange(0, lv.len() as int) =~= lv);
        }
    }
    join_lines(&tail)
}

// ---------------------------------------------------------------------------
// Settings values.
// ---------------------------------------------------------------------------

/// Days of transcript history kept: the configured number (7 when unset),
/// within 1..=365.
pub fn history_days(configured: Option<i64>) -> (d: i64)
    ensures
        d == (match configured {
            Some(v) => if v < 1 {
                1
            } else if v > 365 {
                365
            } else {
                v
            },
            None => 7,
        }),
{
    match configured {
        Some(v) => clamp_history_days(v),
        None => 7,
    }
}

/// A history window the settings accept: within 1..=365 days.
pub fn clamp_history_days(days: i64) -> (d: i64)
    ensures
        d == (if days < 1 {
            1
        } else if days > 365 {
            365
        } else {
            days
        }),
{
    if days < 1 {
        1
    } else if days > 365 {
        365
    } else {
        days
    }
}

/// A switch threshold the settings accept: within 1..=100 failures.
pub fn clamp_threshold(value: u64) -> (t: u64)
    ensures
        t == (if value < 1 {
            1
        } else if value > 100 {
            100
        } else {
            value
        }),
{
    if value < 1 {
        1
    } else if value > 100 {
        100
    } else {
        value
    }
}

/// A cooldown the settings accept: within 1..=1440 minutes.
pub fn clamp_cooldown_mins(minutes: u64) -> (m: u64)
    ensures
        m == (if minutes < 1 {
            1
        } else if minutes > 1440 {
            1440
        } else {
            minutes
        }),
{
    if minutes < 1 {
        1
    } else if minutes > 1440 {
        1440
    } else {
        minutes
    }
}

/// How many history entries a request for `limit` loads: 0 means all of the
/// retention window.
pub fn history_cap(limit: usize) -> (c: usize)
    ensures
        c == (if limit == 0 {
            usize::MAX
        } else {
            limit
        }),
{
    if limit == 0 {
        usize::MAX
    } else {
        limit
    }
}

/// Seconds left before a stack returns to its primary.
pub fn remaining_secs(cooldown_secs: u64, ago_secs: u64) -> (r: u64)
    ensures
        r == (if ago_secs >= cooldown_secs {
            0
        } else {
            cooldown_secs - ago_secs
        }),
{
    if ago_secs >= cooldown_secs {
        0
    } else {
        cooldown_secs - ago_secs
    }
}

/// How long after hiding itself on focus loss the window still counts as
/// having just hidden, in milliseconds.
pub const AUTO_HIDE_WINDOW_MS: u64 = 400;

/// The window hid itself a moment ago (at `hid_at`, clock in milliseconds):
/// the tray click being handled is what dismissed it, so it must not show the
/// window right back.
pub fn just_auto_hid(hid_at: Option<u64>, now: u64) -> (b: bool)
    ensures
        b == (match hid_at {
            Some(t) => (if now >= t {
                now - t
            } else {
                0
            }) < AUTO_HIDE_WINDOW_MS,
            None => false,
        }),
{
    match hid_at {
        Some(t) => {
            let elapsed = if now >= t {
                now - t
            } else {
                0
            };
            elapsed < AUTO_HIDE_WINDOW_MS
        },
        None => false,
    }
}

// ---------------------------------------------------------------------------
// Folding legacy settings into the stacks.
// ---------------------------------------------------------------------------

/// What the migration reads from the settings file.
#[derive(Debug, Clone)]
pub struct LegacyConfig {
    /// `audio_providers` is already a list.
    pub has_audio_stack: bool,
    /// `text_providers` is already a list.
    pub has_text_stack: bool,
    /// The old single `llm_provider`, when it is a string.
    pub llm_provider: Option<String>,
    /// The old per-provider model overrides whose value is a string.
    pub llm_models: Vec<(String, String)>,
    /// `fallback_threshold` is already a whole number.
    pub threshold_set: bool,
    /// `fallback_cooldown_mins` is already a whole number.
    pub cooldown_set: bool,
}

/// What the migration writes back; `None` leaves a setting as it is.
#[derive(Debug, Clone)]
pub struct Migration {
    pub audio: Option<Vec<ProviderEntry>>,
    pub text: Option<Vec<ProviderEntry>>,
    pub threshold: Option<u64>,
    pub cooldown_mins: Option<u64>,
}

pub open spec fn entries_view(v: Seq<ProviderEntry>) -> Seq<(Seq<char>, Seq<char>, Seq<char>, Seq<char>, Seq<char>)> {
    v.map_values(|e: ProviderEntry| entry_view(e))
}

pub open spec fn opt_entries(o: Option<Vec<ProviderEntry>>) -> Option<Seq<(Seq<char>, Seq<char>, Seq<char>, Seq<char>, Seq<char>)>> {
    match o {
        Some(v) => Some(entries_view(v@)),
        None => None,
    }
}

/// An audio entry seeded from the catalog row named `name`.
pub open spec fn audio_seed(id: Seq<char>, name: Seq<char>) -> (Seq<char>, Seq<char>, Seq<char>, Seq<char>, Seq<char>) {
    let p = transcribe::find_audio_spec(name)->Some_0;
    (id, p.1, p.2, p.3, p.4)
}

/// The audio stack a legacy install gets: Groq first unless only an OpenAI
/// key exists (a fresh install with no key still gets Groq, so the setup
/// screen has an entry to fill), OpenAI behind it when its key exists.
pub open spec fn seed_audio(groq: bool, openai: bool) -> Seq<(Seq<char>, Seq<char>, Seq<char>, Seq<char>, Seq<char>)> {
    if groq || !openai {
        if openai {
            seq![audio_seed("a_groq"@, "groq"@), audio_seed("a_openai"@, "openai"@)]
        } else {
            seq![audio_seed("a_groq"@, "groq"@)]
        }
    } else {
        seq![audio_seed("a_openai"@, "openai"@)]
    }
}

/// The first model override stored for `name`.
pub open spec fn model_override(models: Seq<(Seq<char>, Seq<char>)>, name: Seq<char>) -> Option<Seq<char>>
    decreases models.len(),
{
    if models.len() == 0 {
        None
    } else if models[0].0 == name {
        Some(models[0].1)
    } else {
        model_override(models.drop_first(), name)
    }
}

pub open spec fn models_view(v: Seq<(String, String)>) -> Seq<(Seq<char>, Seq<char>)> {
    v.map_values(|p: (String, String)| (p.0@, p.1@))
}

/// The text provider a legacy install used: the old `llm_provider` if it is
/// in the catalog, the default provider otherwise.
pub open spec fn legacy_provider(llm_provider: Option<Seq<char>>) -> (Seq<char>, Seq<char>, Seq<char>, Seq<char>, Seq<char>) {
    let name = match llm_provider {
        Some(n) => n,
        None => postprocess::DEFAULT_PROVIDER@,
    };
    match postprocess::find_provider_spec(name) {
        Some(p) => p,
        None => postprocess::find_provider_spec(postprocess::DEFAULT_PROVIDER@)->Some_0,
    }
}

/// The text stack a legacy install gets: its old provider, with its old
/// model override when that is a non-blank string (trimmed), else the
/// provider's default model.
pub open spec fn seed_text(llm_provider: Option<Seq<char>>, models: Seq<(Seq<char>, Seq<char>)>) -> Seq<(Seq<char>, Seq<char>, Seq<char>, Seq<char>, Seq<char>)> {
    let p = legacy_provider(llm_provider);
    let model = match model_override(models, p.0) {
        Some(m) => if text::trim(m).len() > 0 {
            text::trim(m)
        } else {
            p.4
        },
        None => p.4,
    };
    seq![("t_primary"@, p.2, p.3, model, p.1)]
}

/// Whether `m` changes the settings at all.
pub open spec fn changes(m: Migration) -> bool {
    m.audio is Some || m.text is Some || m.threshold is Some || m.cooldown_mins is Some
}

/// The settings after the migration wrote `m` back.
pub open spec fn migrated(cfg: LegacyConfig, m: Migration) -> LegacyConfig {
    LegacyConfig {
        has_audio_stack: cfg.has_audio_stack || m.audio is Some,
        has_text_stack: cfg.has_text_stack || m.text is Some,
        threshold_set: cfg.threshold_set || m.threshold is Some,
        cooldown_set: cfg.cooldown_set || m.cooldown_mins is Some,
        ..cfg
    }
}

/// What the migration writes for `cfg`, given whether a Groq and an OpenAI
/// key are present.
pub open spec fn migration_ok(cfg: LegacyConfig, groq: bool, openai: bool, m: Migration) -> bool {
    &&& opt_entries(m.audio) == if cfg.has_audio_stack {
        None
    } else {
        Some(seed_audio(groq, openai))
    }
    &&& opt_entries(m.text) == if cfg.has_text_stack {
        None
    } else {
        Some(seed_text(opt_str(cfg.llm_provider), models_view(cfg.llm_models@)))
    }
    &&& m.threshold == if cfg.threshold_set {
        None
    } else {
        Some(2u64)
    }
    &&& m.cooldown_mins == if cfg.cooldown_set {
        None
    } else {
        Some(60u64)
    }
}

pub open spec fn opt_str(o: Option<String>) -> Option<Seq<char>> {
    match o {
        Some(s) => Some(s@),
        None => None,
    }
}

fn audio_entry(id: &str, name: &str) -> (r: ProviderEntry)
    requires
        transcribe::find_audio_spec(name@) is Some,
    ensures
        entry_view(r) == audio_seed(id@, name@),
{
    match transcribe::find_audio_provider(name) {
        Some(p) => ProviderEntry {
            id: String::from_str(id),
            label: String::from_str(p.label),
            url: String::from_str(p.url),
            model: String::from_str(p.default_model),
            key_env: String::from_str(p.key_env),
        },
        None => {
            assert(false);
            ProviderEntry {
                id: String::new(),
                label: String::new(),
                url: String::new(),
                model: String::new(),
                key_env: String::new(),
            }
        },
    }
}

proof fn lemma_seed_names_known()
    ensures
        transcribe::find_audio_spec("groq"@) is Some,
        transcribe::find_audio_spec("openai"@) is Some,
        postprocess::find_provider_spec(postprocess::DEFAULT_PROVIDER@) is Some,
{
    reveal_strlit("groq");
    reveal_strlit("openai");
    let c = transcribe::audio_catalog_spec();
    assert(c[0].0 == "groq"@);
    assert(c[1].0 == "openai"@);
    postprocess::law_catalog_well_formed();
}

#[verifier::rlimit(40)]
fn seed_audio_entries(groq: bool, openai: bool) -> (r: Vec<ProviderEntry>)
    ensures
        entries_view(r@) == seed_audio(groq, openai),
{
    proof {
        lemma_seed_names_known();
    }
    let mut arr: Vec<ProviderEntry> = Vec::new();
    if groq || !openai {
        arr.push(audio_entry("a_groq", "groq"));
        if openai {
            arr.push(audio_entry("a_openai", "openai"));
        }
    } else {
        arr.push(audio_entry("a_openai", "openai"));
    }
    assert(entries_view(arr@) =~= seed_audio(groq, openai));
    arr
}

/// The index of the first override stored for `name`.
fn find_override(models: &Vec<(String, String)>, name: &str) -> (r: Option<usize>)
    ensures
        match r {
            Some(k) => k < models@.len() && model_override(models_view(models@), name@) == Some(
                models@[k as int].1@,
            ),
            None => model_override(models_view(models@), name@) is None,
        },
{
    let ghost mv = models_view(models@);
    let mut k: usize = 0;
    assert(mv.subrange(0, mv.len() as int) =~= mv);
    while k < models.len()
        invariant
            mv == models_view(models@),
            0 <= k <= mv.len(),
            model_override(mv, name@) == model_override(mv.subrange(k as int, mv.len() as int), name@),
        decreases models.len() - k,
    {
        let ghost t = mv.subrange(k as int, mv.len() as int);
        assert(t.drop_first() =~= mv.subrange(k + 1, mv.len() as int));
        assert(t[0] == mv[k as int]);
        assert(mv[k as int] == (models@[k as int].0@, models@[k as int].1@));
        if text::str_eq(models[k].0.as_str(), name) {
            return Some(k);
        }
        k = k + 1;
    }
    None
}

fn seed_text_entries(cfg: &LegacyConfig) -> (r: Vec<ProviderEntry>)
    ensures
        entries_view(r@) == seed_text(opt_str(cfg.llm_provider), models_view(cfg.llm_models@)),
{
    proof {
        lemma_seed_names_known();
    }
    let name: &str = match &cfg.llm_provider {
        Some(n) => n.as_str(),
        None => postprocess::DEFAULT_PROVIDER,
    };
    let p = match postprocess::find_provider(name) {
        Some(p) => p,
        None => match postprocess::find_provider(postprocess::DEFAULT_PROVIDER) {
            Some(p) => p,
            None => {
                assert(false);
                postprocess::ProviderConfig { name: "", env_var: "", label: "", base_url: "", default_model: "" }
            },
        },
    };
    let ghost pv = postprocess::provider_view(p);
    assert(pv == legacy_provider(opt_str(cfg.llm_provider)));
    let model = match find_override(&cfg.llm_models, p.name) {
        Some(k) => {
            let t = text::trimmed(cfg.llm_models[k].1.as_str());
            if text::chars_of(t.as_str()).len() > 0 {
                t
            } else {
                String::from_str(p.default_model)
            }
        },
        None => String::from_str(p.default_model),
    };
    let arr = vec![
        ProviderEntry {
            id: String::from_str("t_primary"),
            label: String::from_str(p.label),
            url: String::from_str(p.base_url),
            model,
            key_env: String::from_str(p.env_var),
        },
    ];
    assert(entries_view(arr@) =~= seed_text(opt_str(cfg.llm_provider), models_view(cfg.llm_models@)));
    arr
}

/// Fold legacy single-provider settings into the audio and text stacks.
/// Idempotent: a stack that is already a list, and a knob that is already
/// set, are left alone. Returns what to write back and whether anything
/// changed.
pub fn migrate_stacks_inner(cfg: &LegacyConfig, groq: bool, openai: bool) -> (r: (Migration, bool))
    ensures
        migration_ok(*cfg, groq, openai, r.0),
        r.1 == changes(r.0),
{
    let audio = if cfg.has_audio_stack {
        None
    } else {
        Some(seed_audio_entries(groq, openai))
    };
    let text = if cfg.has_text_stack {
        None
    } else {
        Some(seed_text_entries(cfg))
    };
    let threshold = if cfg.threshold_set {
        None
    } else {
        Some(2)
    };
    let cooldown_mins = if cfg.cooldown_set {
        None
    } else {
        Some(60)
    };
    let changed = audio.is_some() || text.is_some() || threshold.is_some() || cooldown_mins.is_some();
    (Migration { audio, text, threshold, cooldown_mins }, changed)
}

/// The migration is idempotent: run again over the settings it produced, it
/// changes nothing.
pub proof fn law_migration_is_idempotent(cfg: LegacyConfig, groq: bool, openai: bool, m: Migration, m2: Migration)
    requires
        migration_ok(cfg, groq, openai, m),
        migration_ok(migrated(cfg, m), groq, openai, m2),
    ensures
        !changes(m2),
{
}

/// The hotkey used until the settings name another.
pub const DEFAULT_SHORTCUT: &'static str = "ctrl+alt+space";

/// The hotkey to register at launch: the saved one, or the default.
pub fn saved_shortcut(configured: Option<&str>) -> (r: String)
    ensures
        r@ == (match configured {
            Some(c) => c@,
            None => DEFAULT_SHORTCUT@,
        }),
{
    match configured {
        Some(c) => String::from_str(c),
        None => String::from_str(DEFAULT_SHORTCUT),
    }
}

/// A left click on the tray icon hides the window when it is up, or when it
/// hid itself a moment ago (the click is what took its focus); otherwise it
/// shows the window under the icon.
pub fn tray_click_hides(visible: bool, just_hid: bool) -> (b: bool)
    ensures
        b == (visible || just_hid),
{
    visible || just_hid
}

} // verus!
