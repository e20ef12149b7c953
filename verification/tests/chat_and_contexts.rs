//! The conversation, and what goes along with it.

use health_widget::chat::{Chat, Role};
use health_widget::contexts::{compose_system, Contexts};
use health_widget::deepseek::{answer, payload, read_env, reply, request, value, Provider};
use health_widget::hr_reply;
use health_widget::json::read;
use health_widget::prompts::Prompts;

#[test]
fn notes_stay_out_of_history() {
    let mut chat = Chat::default();
    chat.push_user("привет".into());
    chat.push_note("⚠ нечего отправлять".into());
    chat.push_bot("ответ".into());
    assert_eq!(
        chat.history(),
        vec![(true, "привет".to_string()), (false, "ответ".to_string())]
    );
}

#[test]
fn same_note_twice_pushes_once() {
    let mut chat = Chat::default();
    chat.push_note("⚠ нечего отправлять".into());
    chat.push_note("⚠ нечего отправлять".into());
    assert!(!chat.has_dialogue());
    assert_eq!(chat.messages.len(), 1);
}

#[test]
fn dialogue_seen_only_past_notes() {
    let mut chat = Chat::default();
    chat.push_note("⚠ канал молчит".into());
    assert!(!chat.has_dialogue());
    chat.push_user("вопрос".into());
    assert!(chat.has_dialogue());
}

#[test]
fn a_question_is_taken_out_of_the_input() {
    let mut chat = Chat::default();
    chat.input = "  ".to_string();
    assert_eq!(chat.submit(), None);
    chat.input = " вопрос ".to_string();
    let q = chat.submit().expect("asks");
    assert_eq!(q.trim(), "вопрос");
    assert_eq!(chat.input, "");
    chat.push_user(q);
    assert_eq!(chat.messages[0].role, Role::Me);
    chat.clear();
    assert!(chat.messages.is_empty());
}

fn with_one() -> Contexts {
    let mut c = Contexts::default();
    c.upsert("проект".into(), "мы пишем виджет".into());
    c
}

#[test]
fn disabled_switch_hides_context() {
    let mut c = with_one();
    assert_eq!(c.active_text(), None);
    c.enabled = true;
    assert_eq!(c.active_text(), Some("мы пишем виджет"));
}

#[test]
fn upsert_replaces_and_selects() {
    let mut c = with_one();
    c.upsert("другой".into(), "текст".into());
    c.upsert("проект".into(), "новый текст".into());
    assert_eq!(c.items.len(), 2);
    assert_eq!(c.selected, "проект");
    c.enabled = true;
    assert_eq!(c.active_text(), Some("новый текст"));
}

#[test]
fn remove_moves_selection() {
    let mut c = with_one();
    c.upsert("второй".into(), "два".into());
    c.remove("второй");
    assert_eq!(c.selected, "проект");
    c.remove("проект");
    assert!(c.items.is_empty());
    assert_eq!(c.selected, "");
    c.enabled = true;
    assert_eq!(c.active_text(), None);
}

#[test]
fn empty_context_not_attached() {
    let mut c = Contexts::default();
    c.enabled = true;
    c.upsert("пустой".into(), "   ".into());
    assert_eq!(c.active_text(), None);
}

#[test]
fn compose_keeps_prompt_alone_without_context() {
    assert_eq!(compose_system("ты бот", None), "ты бот");
    assert_eq!(compose_system("ты бот", Some("  ")), "ты бот");
}

#[test]
fn compose_glues_prompt_and_context() {
    assert_eq!(
        compose_system("ты бот", Some("мы пишем виджет")),
        "ты бот\n\nКонтекст вопроса:\nмы пишем виджет"
    );
    assert_eq!(
        compose_system("", Some("мы пишем виджет")),
        "Контекст вопроса:\nмы пишем виджет"
    );
}

#[test]
fn free_name_avoids_collision() {
    let c = with_one();
    assert_eq!(c.free_name("проект"), "проект 2");
    assert_eq!(c.free_name(" "), "контекст");
}

#[test]
fn a_name_is_given_up_after_many_tries() {
    let mut c = Contexts::default();
    c.upsert("x".into(), "t".into());
    for n in 2..1000 {
        c.upsert(format!("x {n}"), "t".into());
    }
    assert_eq!(c.free_name("x"), "x");
    c.remove("x 517");
    assert_eq!(c.free_name(" x "), "x 517");
}

#[test]
fn the_second_prompt_is_used_only_when_asked_for() {
    let mut p = Prompts::default();
    assert_eq!(p.active, 1);
    p.prompt_1 = "один".to_string();
    p.prompt_2 = "два".to_string();
    assert_eq!(p.active_text(), "один");
    p.active = 2;
    assert_eq!(p.active_text(), "два");
    p.active = 7;
    assert_eq!(p.active_text(), "один");
}

#[test]
fn a_saved_provider_is_read_back() {
    for p in [Provider::DeepSeek, Provider::OpenAi] {
        assert_eq!(Provider::from_str(p.as_str()), p);
        assert_eq!(p.toggled().toggled(), p);
        assert_ne!(p.label(), p.toggled().label());
    }
    assert_eq!(Provider::from_str("что-то"), Provider::DeepSeek);
}

#[test]
fn settings_are_read_line_by_line() {
    let env = read_env(Some(
        "# c\n\n LLM_API_KEY = \"k1\" \nBROKEN\nLLM_MODEL='m'\nLLM_API_KEY=k2\r\nX=a=b\n",
    ));
    assert_eq!(value(&env, "LLM_API_KEY"), Some("k2"), "the last one counts");
    assert_eq!(value(&env, "LLM_MODEL"), Some("m"));
    assert_eq!(value(&env, "X"), Some("a=b"));
    assert_eq!(value(&env, "BROKEN"), None);
    assert!(read_env(None).is_empty());
}

#[test]
fn nothing_is_asked_without_a_key() {
    let none = read_env(None);
    assert_eq!(
        request(Provider::DeepSeek, &none, "", &vec![]).unwrap_err(),
        "нет LLM_API_KEY в .env автопилота"
    );
    let empty = read_env(Some("OPENAI_API_KEY=EMPTY"));
    assert_eq!(
        request(Provider::OpenAi, &empty, "", &vec![]).unwrap_err(),
        "нет OPENAI_API_KEY в .env автопилота"
    );
}

#[test]
fn a_question_goes_to_the_provider() {
    let env = read_env(Some("LLM_API_KEY=k\nLLM_BASE_URL=https://x/v1//\n"));
    let args = request(
        Provider::DeepSeek,
        &env,
        " ты бот ",
        &vec![(true, "вопрос".to_string()), (false, "ответ".to_string())],
    )
    .unwrap();
    assert_eq!(args[3], "https://x/v1/chat/completions");
    assert_eq!(args[7], "Authorization: Bearer k");
    assert_eq!(
        args[9],
        "{\"messages\":[{\"content\":\"ты бот\",\"role\":\"system\"},{\"content\":\"вопрос\",\"role\":\"user\"},{\"content\":\"ответ\",\"role\":\"assistant\"}],\"model\":\"deepseek-chat\",\"stream\":false}"
    );
    assert_eq!(
        payload("m", "  ", &vec![]),
        "{\"messages\":[],\"model\":\"m\",\"stream\":false}"
    );
}

#[test]
fn answers_and_faults_are_told_apart() {
    let p = Provider::OpenAi;
    assert_eq!(answer(p, false, b"", b" no route \n").unwrap_err(), "curl: no route");
    assert_eq!(answer(p, true, b"<html>", b"").unwrap_err(), "ответ не JSON: <html>");
    assert_eq!(answer(p, true, &[0xff], b"").unwrap_err(), "ответ не JSON: \u{fffd}");
    assert_eq!(
        answer(p, true, br#"{"error":{"message":"quota"}}"#, b"").unwrap_err(),
        "OpenAI: quota"
    );
    assert_eq!(answer(p, true, br#"{"choices":[]}"#, b"").unwrap_err(), "пустой ответ OpenAI");
    assert_eq!(
        answer(p, true, br#"{"choices":[{"message":{"content":"  "}}]}"#, b"").unwrap_err(),
        "пустой ответ OpenAI"
    );
    assert_eq!(
        answer(p, true, br#"{"choices":[{"message":{"content":" hi "}}]}"#, b"").unwrap(),
        "hi"
    );
    let long = "я".repeat(300);
    assert_eq!(
        answer(p, true, long.as_bytes(), b"").unwrap_err(),
        format!("ответ не JSON: {}", "я".repeat(200))
    );
    let body = read(r#"{"choices":[{"message":{"content":"x"}}]}"#).unwrap();
    assert_eq!(reply(Provider::DeepSeek, &body).unwrap(), "x");
}

#[test]
fn an_answer_to_the_staff_needs_a_message() {
    assert_eq!(hr_reply::message(b" \n").unwrap_err(), "буфер пуст — скопируй сообщение HR");
    assert_eq!(hr_reply::message(" здравствуйте \n".as_bytes()).unwrap(), "здравствуйте");
    assert_eq!(hr_reply::args("back"), ["reply-hr", "--profile", "back"]);
    assert_eq!(hr_reply::answer(false, b"", b"a\nb\n").unwrap_err(), "LLM не ответила: b");
    assert_eq!(hr_reply::answer(false, b"", b"").unwrap_err(), "LLM не ответила: ошибка LLM");
    assert_eq!(hr_reply::answer(true, b"  ", b"").unwrap_err(), "пустой ответ LLM");
    assert_eq!(hr_reply::answer(true, b" ok \n", b"").unwrap(), "ok");
    assert_eq!(hr_reply::finished(Ok(())), hr_reply::HrReplyState::Done);
    assert_eq!(
        hr_reply::finished(Err("e".to_string())),
        hr_reply::HrReplyState::Error("e".to_string())
    );
}
