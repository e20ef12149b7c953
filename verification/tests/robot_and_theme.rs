//! The face, and the looks of the window.

use health_widget::clock::Duration;
use health_widget::robot::{
    after_colon, bubble, human_age, human_gap, is_icon, lead, remark, remark_lowered, renderable,
    without_lead_icon, Eye, Mood, Mouth,
};
use health_widget::theme::{Color, Theme};

#[test]
fn maps_steps_to_moods() {
    assert_eq!(remark("🤖 Пишу письмо (LLM): Go dev").mood, Mood::Thinking);
    assert_eq!(remark("📄 Открываю вакансию: Go dev").mood, Mood::Reading);
    assert_eq!(
        remark("⏳ Пауза 42с перед следующей вакансией (анти-бот)").mood,
        Mood::Waiting
    );
    assert_eq!(
        remark("😴 Проход чата закончен (обработано 1). Сплю 30м до следующего.").mood,
        Mood::Waiting
    );
    assert_eq!(remark("✅ Откликнулся: Go dev — https://hh.ru/x").mood, Mood::Happy);
    assert_eq!(
        remark("🔒 hh показал капчу — реши её в открытой вкладке, жду тебя…").mood,
        Mood::Alarm
    );
    assert_eq!(remark("").mood, Mood::Idle);
}

#[test]
fn keeps_vacancy_title_in_remark() {
    assert_eq!(
        remark("📄 Открываю вакансию: Go dev").text,
        "Читаю вакансию: Go dev"
    );
    assert_eq!(remark("📝 Открываю форму отклика").text, "Открываю форму отклика");
}

#[test]
fn strips_leading_icons_only() {
    assert_eq!(without_lead_icon("🚪 Отказ — вышел из чата"), "Отказ — вышел из чата");
    assert_eq!(without_lead_icon("✅ Откликнулся: Go dev"), "Откликнулся: Go dev");
    assert_eq!(without_lead_icon("hh: вышел из чата"), "hh: вышел из чата");
    assert_eq!(
        without_lead_icon("Чат [все ≤2д]: просмотрено 32"),
        "Чат [все ≤2д]: просмотрено 32"
    );
    assert_eq!(without_lead_icon("→ score=0.712: Go dev"), "score=0.712: Go dev");
}

#[test]
fn human_gap_formats_hours() {
    assert_eq!(human_gap(45), "45м");
    assert_eq!(human_gap(360), "6ч");
    assert_eq!(human_gap(95), "1ч35м");
}

#[test]
fn human_age_formats_minutes() {
    assert_eq!(human_age(Duration::from_secs(9)), "9с");
    assert_eq!(human_age(Duration::from_secs(75)), "1м15с");
}

#[test]
fn gaps_and_ages_at_their_edges() {
    assert_eq!(human_gap(-5), "0м");
    assert_eq!(human_gap(60), "1ч");
    assert_eq!(human_gap(61), "1ч01м");
    assert_eq!(human_age(Duration::from_secs(60)), "1м00с");
    assert_eq!(human_age(Duration::from_millis(59_999)), "59с");
}

#[test]
fn every_word_of_the_log_has_its_mood() {
    let cases = [
        ("ПРАВЛЮ ПИСЬМО: x", Mood::Thinking, "Причёсываю письмо: x"),
        ("вопросы: 3", Mood::Thinking, "Отвечаю на вопросы работодателя"),
        ("Отправляю отклик: Rust", Mood::Sending, "Отправляю отклик: Rust"),
        ("обогащено 5", Mood::Happy, "обогащено 5"),
        (" скан группы ", Mood::Reading, "скан группы"),
        ("в выдаче 12", Mood::Reading, "в выдаче 12"),
        ("лимит на сегодня", Mood::Waiting, "лимит на сегодня"),
        ("недоступна", Mood::Waiting, "недоступна"),
        ("пропускаю", Mood::Waiting, "пропускаю"),
        ("ошибка сети", Mood::Alarm, "ошибка сети"),
        ("не удалось войти", Mood::Alarm, "не удалось войти"),
        ("   ", Mood::Idle, "Стою без дела"),
        (" иду ", Mood::Thinking, "иду"),
    ];
    for (line, mood, text) in cases {
        let r = remark(line);
        assert_eq!((r.mood, r.text.as_str()), (mood, text), "{line}");
    }
    assert_eq!(remark("КАПЧА").text, "Капча! Реши её в браузере — я жду");
    assert_eq!(remark_lowered("капча", "иное").mood, Mood::Alarm);
}

#[test]
fn what_is_behind_a_colon_is_named() {
    assert_eq!(after_colon("a: b: c ", "x"), "x: b: c");
    assert_eq!(after_colon("a:  ", "x"), "x");
    assert_eq!(after_colon("a", "x"), "x");
}

#[test]
fn pictures_are_told_from_letters() {
    assert!(is_icon('✅') && is_icon('→') && is_icon('🚪'));
    assert!(!is_icon('—') && !is_icon('«') && !is_icon('я') && !is_icon('漢') && !is_icon('\u{3000}'));
}

#[test]
fn the_bubble_shows_what_can_be_drawn() {
    assert_eq!(renderable("a✅ b", &vec![true, false, false, true]), "a b");
    assert_eq!(lead(Mood::Happy, true), "✅");
    assert_eq!(lead(Mood::Happy, false), "•");
    assert_eq!(bubble(Mood::Idle, false, "жду", Duration::from_secs(2)), "• жду");
    assert_eq!(bubble(Mood::Idle, true, "жду", Duration::from_secs(3)), "💤 жду  · 3с");
}

#[test]
fn faces_follow_moods() {
    assert_eq!(Mood::Alarm.eye(true), Eye::Crossed);
    assert_eq!(Mood::Happy.eye(true), Eye::Arched);
    assert_eq!(Mood::Thinking.eye(true), Eye::Shut);
    assert_eq!(Mood::Thinking.eye(false), Eye::Looking);
    assert_eq!(Mood::Reading.eye(false), Eye::Round);
    assert_eq!(Mood::Happy.mouth(), Mouth::Smile);
    assert_eq!(Mood::Waiting.mouth(), Mouth::Line);
    assert_eq!(Mood::Idle.mouth(), Mouth::Open { moves: false });
    assert_eq!(Mood::Alarm.mouth(), Mouth::Open { moves: true });
    assert_eq!(Mood::Sending.repaint_ms(), Some(80));
    assert_eq!(Mood::Waiting.repaint_ms(), None);
    let pal = Theme::Dark.palette(220);
    assert_eq!(Mood::Alarm.color(&pal), pal.err);
    assert_eq!(Mood::Sending.color(&pal), pal.info);
}

#[test]
fn looks_are_saved_and_read_back() {
    for t in [Theme::Dark, Theme::Light] {
        assert_eq!(Theme::from_label(t.label()), t);
        assert_eq!(t.toggled().toggled(), t);
        assert_ne!(t.icon(), t.toggled().icon());
        assert_ne!(t.hint(), t.toggled().hint());
    }
    assert_eq!(Theme::from_label("иное"), Theme::Dark);
}

fn blended(r: u8, g: u8, b: u8, a: u8) -> Color {
    let [r, g, b, a] = egui::Color32::from_rgba_unmultiplied(r, g, b, a).to_array();
    Color { r, g, b, a }
}

#[test]
fn colours_are_blended_with_their_opacity() {
    for a in [0u8, 1, 100, 220, 254, 255] {
        assert_eq!(Theme::Dark.palette(a).bg, blended(18, 18, 22, a));
        assert_eq!(Theme::Light.palette(a).bg, blended(245, 246, 248, a));
    }
    assert_eq!(Theme::Dark.palette(0).card, blended(255, 255, 255, 6));
    assert_eq!(Theme::Light.palette(0).card, blended(0, 0, 0, 12));
    assert_eq!(Theme::Dark.palette(0).focus, Color { r: 26, g: 115, b: 232, a: 255 });
}
