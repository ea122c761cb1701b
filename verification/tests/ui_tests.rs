use typeid::ui::{sanitize_prefix, App, Msg};

#[test]
fn create_starts_untyped() {
    let app = App::create();
    assert_eq!(app.prefix, "");
    assert_eq!(app.id.prefix(), "");
    assert_eq!(app.id.to_string().len(), 26);
}

#[test]
fn set_prefix_regenerates_under_it() {
    let mut app = App::create();
    let outcome = app.update(Msg::SetPrefix("user".to_owned()));
    assert!(outcome.render);
    assert!(outcome.copy_text.is_none());
    assert_eq!(app.prefix, "user");
    assert_eq!(app.id.prefix(), "user");
}

#[test]
fn invalid_prefix_falls_back_to_error() {
    let mut app = App::create();
    app.update(Msg::SetPrefix("2cool".to_owned()));
    assert_eq!(app.prefix, "2cool");
    assert_eq!(app.id.prefix(), "error");
}

#[test]
fn generate_keeps_the_prefix_and_changes_the_id() {
    let mut app = App::create();
    app.update(Msg::SetPrefix("user".to_owned()));
    let before = app.id.to_string();
    let outcome = app.update(Msg::Generate);
    assert!(outcome.render);
    assert!(outcome.copy_text.is_none());
    assert_eq!(app.prefix, "user");
    assert_eq!(app.id.prefix(), "user");
    // 80 random bits make a repeat practically impossible.
    assert_ne!(app.id.to_string(), before);
}

#[test]
fn copy_hands_out_the_canonical_string_unchanged() {
    let mut app = App::create();
    app.update(Msg::SetPrefix("user".to_owned()));
    let shown = app.id.to_string();
    let outcome = app.update(Msg::Copy);
    assert!(outcome.render);
    assert_eq!(outcome.copy_text.as_deref(), Some(shown.as_str()));
    assert_eq!(app.id.to_string(), shown);
}

#[test]
fn sanitize_lowercases_and_strips() {
    assert_eq!(sanitize_prefix("My Cool-Prefix_"), "mycoolprefix");
    assert_eq!(sanitize_prefix("USER"), "user");
    assert_eq!(sanitize_prefix("___"), "");
    assert_eq!(sanitize_prefix(""), "");
    assert_eq!(sanitize_prefix("user2"), "user2");
}
