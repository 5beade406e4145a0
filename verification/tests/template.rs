use pigeon::config::template::{NotificationTemplate, TemplateError};
use pigeon::notification::{Notification, NotificationHints};
use pigeon::string_map::StringMap;

fn notification() -> Notification {
    Notification {
        id: 1,
        app_name: "pigeond-test".into(),
        app_icon: String::new(),
        summary: "Summary".into(),
        body: "Body".into(),
        img: None,
        actions: StringMap::new(),
        hints: NotificationHints::default(),
    }
}

#[test]
fn renders_fields_and_literals() {
    let template = NotificationTemplate::parse("%a: %s\\n%b").unwrap();

    assert_eq!(
        template.render(&notification()),
        "pigeond-test: Summary\\nBody"
    );
}

#[test]
fn rejects_unknown_fields() {
    assert!(matches!(
        NotificationTemplate::parse("%unknown"),
        Err(TemplateError::UnknownField(field)) if field == "unknown"
    ));
}

#[test]
fn recognizes_the_default_layout() {
    assert!(NotificationTemplate::default().is_default_layout());
}
