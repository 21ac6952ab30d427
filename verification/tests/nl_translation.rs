use oxo_tui::action::Action;
use oxo_tui::components::nl_query::{number_text, translation, translation_would_panic, NlQuery};
use oxo_tui::keymap::{Key, KeyPress, Modifiers, PressKind};
use oxo_tui::theme::Theme;

fn key(code: Key) -> KeyPress {
    KeyPress { code, modifiers: Modifiers::none(), kind: PressKind::Press }
}

#[test]
fn errors_from_api_service() {
    let (q, e) = translation("errors from api service", &Vec::new(), 1000);
    assert_eq!(q, "{job=\"api\"} |= \"error\"");
    assert_eq!(e[0], "Filter to job=\"api\"");
    assert_eq!(e[1], "Match lines containing \"error\"");
}

#[test]
fn service_label_follows_known_labels() {
    let labels = vec!["app".to_string(), "level".to_string()];
    let (q, e) = translation("warnings from checkout", &labels, 1000);
    assert_eq!(q, "{app=\"checkout\"} | level=\"warn\"");
    assert_eq!(e[1], "Filter level=warn");
}

#[test]
fn slow_requests_use_the_given_threshold() {
    let (q, e) = translation("slow requests over 2 seconds", &Vec::new(), 2000);
    assert_eq!(q, "{} | json | duration > 2000");
    assert_eq!(e, vec!["Parse JSON, filter duration > 2000ms".to_string()]);
}

#[test]
fn status_code_families() {
    let (q, _) = translation("5xx responses", &Vec::new(), 1000);
    assert_eq!(q, "{} |~ \"5[0-9]{2}\"");
    let (q, _) = translation("404 pages", &Vec::new(), 1000);
    assert_eq!(q, "{} |= \"404\"");
}

#[test]
fn search_text_after_containing() {
    let (q, _) = translation("show me all warnings containing timeout", &Vec::new(), 1000);
    assert_eq!(q, "{job=\"gs\"} | json |= \"warn\" |= \"timeout\" | duration > 1000");
    let (q, _) = translation("lines containing \"disk full\" please", &Vec::new(), 1000);
    assert_eq!(q, "{job=\"es\"} |= \"disk full\"");
}

#[test]
fn falls_back_to_meaningful_words() {
    let (q, e) = translation("show me the database", &Vec::new(), 1000);
    assert_eq!(q, "{} |= \"database\"");
    assert_eq!(e, vec!["Search for \"database\"".to_string()]);
}

#[test]
fn nothing_recognised_shows_all_logs() {
    let (q, e) = translation("show me", &Vec::new(), 1000);
    assert_eq!(q, "{} ");
    assert_eq!(e.len(), 1);
}

#[test]
fn number_text_takes_the_first_number() {
    assert_eq!(number_text("over 2.5 seconds"), "2.5");
    assert_eq!(number_text("no digits"), "");
    assert_eq!(number_text(".5 then 30ms"), "5");
}

#[test]
fn ascii_input_never_panics() {
    assert!(!translation_would_panic("errors from api service in prod"));
}

#[test]
fn enter_translates_then_submits() {
    let mut nl = NlQuery::new(Theme::default());
    nl.toggle();
    for c in "errors".chars() {
        nl.handle_key(key(Key::Char(c)), 1000);
    }
    assert_eq!(nl.handle_key(key(Key::Enter), 1000), Some(Action::Noop));
    assert_eq!(nl.generated_query.as_deref(), Some("{} |= \"error\""));
    assert_eq!(nl.history.len(), 1);
    assert_eq!(
        nl.handle_key(key(Key::Enter), 1000),
        Some(Action::SubmitQuery("{} |= \"error\"".to_string()))
    );
    assert!(!nl.is_visible());
}

#[test]
fn tab_moves_generated_query_into_input() {
    let mut nl = NlQuery::new(Theme::default());
    nl.toggle();
    for c in "errors".chars() {
        nl.handle_key(key(Key::Char(c)), 1000);
    }
    nl.handle_key(key(Key::Enter), 1000);
    nl.handle_key(key(Key::Tab), 1000);
    assert_eq!(nl.input.value(), "{} |= \"error\"");
    assert!(nl.generated_query.is_none());
}

#[test]
fn documented_examples() {
    let mut nl = NlQuery::new(Theme::default());
    nl.translate("errors in the last hour", 1000);
    assert_eq!(nl.generated_query, Some("{} |= \"error\"".to_string()));
    nl.translate("show me 500 errors from api service", 1000);
    assert_eq!(nl.generated_query, Some("{job=\"api\"} |= \"500\"".to_string()));
    nl.translate("slow requests over 2 seconds", 2000);
    assert_eq!(nl.generated_query, Some("{} | json | duration > 2000".to_string()));
    let (q, _) = translation("logs from the api", &Vec::new(), 1000);
    assert_eq!(q, "{job=\"api\"} |= \"from api\"");
}
