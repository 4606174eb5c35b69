use std::cell::Cell;

use ribbit::fallback::FailKind;
use ribbit::postprocess::{
    build_payload, clean_content, drops_the_dictation, edit_text, find_provider, fillers,
    is_filler, is_runaway_edit, judge_reply, parse_response, providers, system_prompt,
    word_recall, words, ChatPayload, ChatReply, HttpReply, ReplyBody, SendError,
    DEFAULT_PROVIDER,
};

fn reply(finish: Option<&str>, content: Option<&str>) -> ChatReply {
    ChatReply { finish_reason: finish.map(String::from), content: content.map(String::from) }
}

fn ok_reply(content: &str) -> HttpReply {
    HttpReply {
        status: 200,
        status_text: "200 OK".to_string(),
        retry_after: None,
        body: Ok(ReplyBody { text: String::new(), decoded: Ok(reply(Some("stop"), Some(content))) }),
    }
}

fn ratio(input: &str, edited: &str) -> f32 {
    let r = word_recall(input, edited);
    r.num as f32 / r.den as f32
}

#[test]
fn providers_table_well_formed() {
    let mut seen = std::collections::HashSet::new();
    for p in providers() {
        assert!(seen.insert(p.name), "duplicate provider name: {}", p.name);
        assert!(!p.env_var.is_empty());
        assert!(p.base_url.starts_with("https://"));
        assert!(!p.default_model.is_empty());
        assert!(!p.label.is_empty());
    }
    assert!(find_provider(DEFAULT_PROVIDER).is_some(), "default provider must be in PROVIDERS");
}

#[test]
fn find_provider_unknown() {
    assert!(find_provider("nonesuch").is_none());
}

#[test]
fn find_provider_known() {
    let p = find_provider("cerebras").unwrap();
    assert_eq!(p.default_model, "gemma-4-31b");
    assert_eq!(p.env_var, "CEREBRAS_API_KEY");
}

#[test]
fn runaway_edit_flags_answer_not_edit() {
    let input = "дай пример как выглядит словарь спейса и кто может его читать";
    let answer = "Словарь, о котором я говорю, представляет собой коллекцию терминов \
и названий с их правильным написанием, а также возможными вариантами, как они могут \
быть распознаны с ошибкой. Например, для термина alrosa словарь может содержать Alros, \
Allrosa, Allros, AllRoss, алроса, алросе.";
    assert!(is_runaway_edit(input, answer));
}

#[test]
fn runaway_edit_allows_normal_edit() {
    assert!(!is_runaway_edit("ехал к росе утром", "Ехал к Алросе утром."));
}

#[test]
fn runaway_edit_allows_short_inputs() {
    assert!(!is_runaway_edit("привет", "Привет!"));
    assert!(!is_runaway_edit("", ""));
}

#[test]
fn runaway_edit_boundary_is_twice_plus_forty() {
    let input = "abcde";
    assert!(!is_runaway_edit(input, &"x".repeat(50)));
    assert!(is_runaway_edit(input, &"x".repeat(51)));
}

#[test]
fn drops_dictation_catches_the_shorter_answer() {
    let input = "Так, я тебя остановил. Напиши, пожалуйста, саммари проблемы, которые ты мне выше написал";
    let answer = "Саммари проблемы, которые Вы мне выше написали.";
    assert!(!is_runaway_edit(input, answer), "length guard cannot catch this one");
    assert!(drops_the_dictation(input, answer));
}

#[test]
fn drops_dictation_catches_answered_question() {
    assert!(drops_the_dictation("а какая столица франции", "Париж."));
}

#[test]
fn drops_dictation_allows_real_edits() {
    assert!(!drops_the_dictation("ехал к росе утром", "Ехал к Алросе утром."));
    assert!(!drops_the_dictation(
        "надо этот скилл улучшить дополнить например сейчас куилл",
        "Надо этот скилл улучшить, дополнить. Например, сейчас Quill,"
    ));
    assert!(!drops_the_dictation(
        "а можешь мне коротко объяснить разницу",
        "А можешь мне коротко объяснить разницу?"
    ));
    assert!(!drops_the_dictation("чини", "Чини."));
    assert!(!drops_the_dictation("привет", "Привет!"));
    assert!(!drops_the_dictation("", ""));
}

#[test]
fn word_recall_is_a_ratio() {
    assert_eq!(ratio("один два", "Один, два."), 1.0);
    assert_eq!(ratio("один два", "Один."), 0.5);
    assert_eq!(ratio("", "что угодно"), 1.0);
}

#[test]
fn cutting_filler_is_not_a_dropped_dictation() {
    assert!(!drops_the_dictation("ну короче как бы да", "Да."));
    assert!(!drops_the_dictation(
        "ну вот я типа думаю что можно так сделать",
        "Я думаю, что можно так сделать."
    ));
}

#[test]
fn the_guard_still_catches_a_swallowed_dictation() {
    assert!(drops_the_dictation(
        "ну короче напиши пожалуйста саммари проблемы которые ты мне выше написал",
        "Саммари готово."
    ));
}

#[test]
fn words_are_lowercase_alphanumeric_runs() {
    assert_eq!(words("Привет, мир! 42-й"), vec!["привет", "мир", "42", "й"]);
    assert!(words(" ... ").is_empty());
}

#[test]
fn filler_words_include_the_parts_of_phrases() {
    assert!(is_filler("ну"));
    assert!(is_filler("как"));
    assert!(is_filler("бы"));
    assert!(is_filler("i"));
    assert!(is_filler("mean"));
    assert!(!is_filler("I"));
    assert!(!is_filler("да"));
    assert_eq!(fillers().len(), 16);
}

#[test]
fn system_prompt_snapshot() {
    let p = system_prompt();
    assert!(p.contains("обращён НЕ к тебе"));
    assert!(p.contains("никогда не отвечай"));
    assert!(p.contains("вход: ну подожди короче давай начнём с аудита исправлений"));
    assert!(p.contains("выход: Подожди, давай начнём с аудита исправлений."));
    assert!(p.contains("заглавную букву"));
    assert!(p.contains("Верни ТОЛЬКО"));
    assert!(p.contains("англицизмы"));
    assert!(p.contains("слова-паразиты"));
    for f in ["ну", "как бы", "короче", "basically"] {
        assert!(p.contains(f), "prompt must list the filler {f:?}");
    }
    assert!(p.contains("Не меняй смысл, тон и регистр"));
    assert!(!p.contains("Словарь"));
    assert!(p.contains("НЕ трогай"));
}

#[test]
fn system_prompt_lists_the_fillers_comma_separated() {
    let p = system_prompt();
    assert!(p.contains("значат: ну, вот, как бы, типа, короче, значит, в общем, собственно, прям, реально, well, like, you know, I mean, basically, actually — а вместе с ними"));
}

#[test]
fn build_payload_has_required_fields() {
    let p = build_payload("привет", "google/gemma-4-26b-a4b-it");
    assert_eq!(p.model, "google/gemma-4-26b-a4b-it");
    assert_eq!(p.temperature, 0);
    assert_eq!(p.max_tokens, 512);
    assert_eq!(p.system, system_prompt());
    assert_eq!(p.user, "привет");
}

#[test]
fn build_payload_scales_max_tokens_with_long_input() {
    let long = "а".repeat(2000);
    let p = build_payload(&long, "x");
    assert_eq!(p.max_tokens, 2100);
    let huge = "а".repeat(100_000);
    assert_eq!(build_payload(&huge, "x").max_tokens, 4096);
}

#[test]
fn a_reasoning_model_gets_its_thinking_capped_and_others_are_left_alone() {
    let p = build_payload("привет", "openai/gpt-oss-120b");
    assert_eq!(p.reasoning_effort, Some("low"));
    let p = build_payload("привет", "gemma-4-31b");
    assert!(p.reasoning_effort.is_none(), "{:?}", p);
}

#[test]
fn parse_response_rejects_truncated_completion() {
    let r = reply(Some("length"), Some("Начало длинной диктовки, которая обор"));
    let err = parse_response(&r).unwrap_err();
    assert!(err.contains("truncated"), "got: {}", err);
}

#[test]
fn parse_response_accepts_stop_finish_reason() {
    let r = reply(Some("stop"), Some("Привет, мир."));
    assert_eq!(parse_response(&r).unwrap(), "Привет, мир.");
}

#[test]
fn parse_response_happy_path() {
    let r = reply(None, Some("Привет, мир."));
    assert_eq!(parse_response(&r).unwrap(), "Привет, мир.");
}

#[test]
fn parse_response_missing_choices() {
    let r = reply(None, None);
    assert!(parse_response(&r).is_err());
    assert_eq!(parse_response(&r).unwrap_err(), "missing choices[0].message.content");
}

#[test]
fn parse_response_empty_content() {
    let r = reply(None, Some(""));
    assert!(parse_response(&r).is_err());
    assert_eq!(parse_response(&reply(None, Some(" \"\" "))).unwrap_err(), "empty content");
}

#[test]
fn parse_response_strips_double_quotes() {
    let r = reply(None, Some("\"Привет, мир.\""));
    assert_eq!(parse_response(&r).unwrap(), "Привет, мир.");
}

#[test]
fn parse_response_strips_guillemets() {
    let r = reply(None, Some("«Привет, мир.»"));
    assert_eq!(parse_response(&r).unwrap(), "Привет, мир.");
}

#[test]
fn parse_response_keeps_content_with_colons_intact() {
    let r = reply(None, Some("Сегодня я сделал следующее: купил хлеб и молоко."));
    assert_eq!(parse_response(&r).unwrap(), "Сегодня я сделал следующее: купил хлеб и молоко.");
}

#[test]
fn clean_content_unwraps_one_pair_only() {
    assert_eq!(clean_content("  “ Да ”  "), "Да");
    assert_eq!(clean_content("'x'"), "x");
    assert_eq!(clean_content("\"\"x\"\""), "\"x\"");
    assert_eq!(clean_content("\""), "\"");
    assert_eq!(clean_content("«x\""), "«x\"");
}

fn never_called(_: &str, _: &str, _: &ChatPayload) -> Result<HttpReply, SendError> {
    panic!("no request may be made")
}

#[test]
fn edit_text_returns_input_for_empty() {
    let p = find_provider("routerai").unwrap();
    assert_eq!(edit_text("", p.base_url, "fake_key", p.default_model, never_called).unwrap(), "");
    assert_eq!(edit_text("   ", p.base_url, "fake_key", p.default_model, never_called).unwrap(), "   ");
}

#[test]
fn edit_text_errors_without_key() {
    let p = find_provider("routerai").unwrap();
    let e = edit_text("hello", p.base_url, "", p.default_model, never_called).unwrap_err();
    assert_eq!(e.kind, FailKind::Hard);
    assert_eq!(e.message, "no api key");
}

#[test]
fn a_truncated_completion_switches_providers() {
    let post = |_: &str, _: &str, _: &ChatPayload| {
        Ok(HttpReply {
            status: 200,
            status_text: "200 OK".to_string(),
            retry_after: None,
            body: Ok(ReplyBody {
                text: r#"{"choices":[{"finish_reason":"length","message":{"content":"Привет"}}]}"#.to_string(),
                decoded: Ok(reply(Some("length"), Some("Привет"))),
            }),
        })
    };
    let err = edit_text("привет мир", "http://127.0.0.1/v1/chat/completions", "k", "m", post).unwrap_err();
    assert_eq!(err.kind, FailKind::Switch, "{}", err.message);
    assert!(err.message.contains("truncated"), "{}", err.message);
}

#[test]
fn edit_text_sends_the_payload_and_returns_the_edit() {
    let seen = Cell::new(0);
    let post = |url: &str, key: &str, p: &ChatPayload| {
        seen.set(seen.get() + 1);
        assert_eq!(url, "https://x/v1");
        assert_eq!(key, "k");
        assert_eq!(p.user, "ехал к росе утром");
        assert_eq!(p.model, "m");
        Ok(ok_reply("Ехал к Алросе утром."))
    };
    assert_eq!(edit_text("ехал к росе утром", "https://x/v1", "k", "m", post).unwrap(), "Ехал к Алросе утром.");
    assert_eq!(seen.get(), 1);
}

#[test]
fn a_stale_connection_is_retried_once_and_a_timeout_is_not() {
    let calls = Cell::new(0);
    let flaky = |_: &str, _: &str, _: &ChatPayload| {
        calls.set(calls.get() + 1);
        if calls.get() == 1 {
            Err(SendError { is_timeout: false, kind: "request", message: "connection closed".to_string() })
        } else {
            Ok(ok_reply("Да."))
        }
    };
    assert_eq!(edit_text("да", "u", "k", "m", flaky).unwrap(), "Да.");
    assert_eq!(calls.get(), 2);

    let calls = Cell::new(0);
    let slow = |_: &str, _: &str, _: &ChatPayload| {
        calls.set(calls.get() + 1);
        Err::<HttpReply, _>(SendError { is_timeout: true, kind: "timeout", message: "deadline".to_string() })
    };
    let e = edit_text("да", "u", "k", "m", slow).unwrap_err();
    assert_eq!(calls.get(), 1);
    assert_eq!(e.message, "timeout: deadline");
    assert_eq!(e.kind, FailKind::Switch);

    let dead = |_: &str, _: &str, _: &ChatPayload| {
        Err::<HttpReply, _>(SendError { is_timeout: false, kind: "connect", message: "refused".to_string() })
    };
    let e = edit_text("да", "u", "k", "m", dead).unwrap_err();
    assert_eq!(e.message, "connect after retry: refused");
    assert_eq!(e.reason, "provider unreachable");
}

#[test]
fn an_http_error_quotes_the_body_and_keeps_retry_after() {
    let r = HttpReply {
        status: 429,
        status_text: "429 Too Many Requests".to_string(),
        retry_after: Some("34421".to_string()),
        body: Ok(ReplyBody { text: "x".repeat(300), decoded: Err("n/a".to_string()) }),
    };
    let e = judge_reply("привет", &r).unwrap_err();
    assert_eq!(e.status, Some(429));
    assert_eq!(e.kind, FailKind::Switch);
    assert_eq!(e.retry_after, Some(34_421_000));
    assert_eq!(e.message, format!("http 429 Too Many Requests: {}", "x".repeat(200)));
}

#[test]
fn unparseable_body_is_the_providers_fault_not_the_networks() {
    let r = HttpReply {
        status: 200,
        status_text: "200 OK".to_string(),
        retry_after: None,
        body: Ok(ReplyBody { text: "<html>gateway</html>".to_string(), decoded: Err("expected value".to_string()) }),
    };
    let e = judge_reply("привет", &r).unwrap_err();
    assert_eq!(e.kind, FailKind::Hard);
    assert!(e.message.contains("<html>gateway</html>"), "body must be quoted back: {}", e.message);
    assert_eq!(e.message, "parse error: expected value (body: <html>gateway</html>)");
}

#[test]
fn a_severed_body_reads_as_transport_not_content() {
    let r = HttpReply {
        status: 200,
        status_text: "200 OK".to_string(),
        retry_after: None,
        body: Err(SendError { is_timeout: true, kind: "body", message: "cut".to_string() }),
    };
    let e = judge_reply("привет", &r).unwrap_err();
    assert_eq!(e.kind, FailKind::Switch);
    assert_eq!(e.status, None);
    assert_eq!(e.message, "body read failed: cut");
}

#[test]
fn the_guards_refuse_answers_and_say_why() {
    let e = judge_reply("да", &ok_reply(&"Это очень длинный ответ на вопрос. ".repeat(4))).unwrap_err();
    assert_eq!(e.kind, FailKind::Hard);
    assert_eq!(e.message, "runaway output (2 → 139 chars): model answered instead of editing");
    let e = judge_reply("а какая столица франции", &ok_reply("Париж.")).unwrap_err();
    assert_eq!(e.kind, FailKind::Hard);
    assert_eq!(e.message, "edit dropped the dictation (word recall 0.00): model answered instead of editing");
}

#[test]
fn the_recall_in_the_message_has_two_decimals() {
    let e = judge_reply("один два три", &ok_reply("Один.")).unwrap_err();
    assert_eq!(e.message, "edit dropped the dictation (word recall 0.33): model answered instead of editing");
}

#[test]
fn a_recall_on_a_tie_rounds_to_the_even_hundredth() {
    let input = "яблоко груша слива вишня дыня арбуз банан лимон";
    let e = judge_reply(input, &ok_reply("Яблоко.")).unwrap_err();
    assert_eq!(e.message, "edit dropped the dictation (word recall 0.12): model answered instead of editing");
    assert_eq!(format!("{:.2}", 1.0f32 / 8.0), "0.12");
    let e = judge_reply(input, &ok_reply("Яблоко, груша, слива.")).unwrap_err();
    assert_eq!(e.message, "edit dropped the dictation (word recall 0.38): model answered instead of editing");
    assert_eq!(format!("{:.2}", 3.0f32 / 8.0), "0.38");
}
