use pigeon::config::timeouts::{TimeoutConfig, NEVER};
use pigeon::config::PigeonConfig;
use pigeon::config::profiles::RuleAction;
use pigeon::config::style::NotificationConfig;
use pigeon::daemon::{
    normalize_actions, normalize_hints, prepare_notification, resolve, same_source, timeout_policy,
    truncate, EnqueueOutcome, HintValue, LifecycleAction, LifecycleCommand, NotificationQueue,
    TimeoutPolicy, MAX_LIVE_NOTIFICATIONS,
};
use pigeon::notification::{Notification, NotificationHints};
use pigeon::string_map::StringMap;

fn notification(app_name: &str, summary: &str) -> Notification {
    Notification {
        id: 0,
        app_name: app_name.to_string(),
        app_icon: String::new(),
        summary: summary.to_string(),
        body: String::new(),
        img: None,
        actions: StringMap::new(),
        hints: NotificationHints::default(),
    }
}

fn tagged(app_name: &str, tag: &str) -> Notification {
    let mut n = notification(app_name, "tagged");
    n.hints.stack_tag = Some(tag.to_string());
    n
}

fn text(value: &str) -> HintValue {
    HintValue { byte: None, int32: None, boolean: None, text: Some(value.to_string()) }
}

fn store(queue: &mut NotificationQueue, replaces_id: u32, n: Notification) -> EnqueueOutcome {
    queue.enqueue(replaces_id, n, NotificationConfig::default(), TimeoutPolicy::Configured, Some(5000))
}

#[test]
fn truncate_keeps_text_within_the_limit() {
    assert_eq!(truncate("hello".to_string(), 5), "hello");
    assert_eq!(truncate(String::new(), 0), "");
}

#[test]
fn truncate_ends_cut_text_with_an_ellipsis() {
    assert_eq!(truncate("abcdefgh".to_string(), 5), "ab…");
    assert_eq!(truncate("abcdefgh".to_string(), 2), "…");
}

#[test]
fn truncate_cuts_on_a_character_boundary() {
    // Each "é" takes two bytes: with a limit of 6 the budget before the
    // ellipsis is 3 bytes, which holds one whole "é".
    assert_eq!(truncate("éééé".to_string(), 6), "é…");
    assert!(truncate("éééé".to_string(), 6).len() <= 6);
}

#[test]
fn timeout_policy_reads_the_expire_argument() {
    assert_eq!(timeout_policy(0), TimeoutPolicy::Never);
    assert_eq!(timeout_policy(-1), TimeoutPolicy::Configured);
    assert_eq!(timeout_policy(1500), TimeoutPolicy::Fixed(1500));
    assert_eq!(timeout_policy(-7), TimeoutPolicy::Never);
}

#[test]
fn resolve_goes_by_urgency() {
    let configured = TimeoutConfig { low: 1000, normal: 2000, critical: NEVER };
    let mut n = notification("app", "s");
    assert_eq!(resolve(TimeoutPolicy::Configured, &configured, &n), Some(2000));
    n.hints.urgency = Some(0);
    assert_eq!(resolve(TimeoutPolicy::Configured, &configured, &n), Some(1000));
    n.hints.urgency = Some(2);
    assert_eq!(resolve(TimeoutPolicy::Configured, &configured, &n), None);
    assert_eq!(resolve(TimeoutPolicy::Fixed(42), &configured, &n), Some(42));
    assert_eq!(resolve(TimeoutPolicy::Never, &configured, &n), None);
}

#[test]
fn actions_pair_up_and_drop_a_dangling_item() {
    let actions = vec![
        "default".to_string(),
        "Open".to_string(),
        "reply".to_string(),
        "Reply".to_string(),
        "dangling".to_string(),
    ];
    let map = normalize_actions(actions);
    assert_eq!(map.len(), 2);
    assert_eq!(map.get("default").unwrap(), "Open");
    assert_eq!(map.get("reply").unwrap(), "Reply");
    assert!(!map.contains_key("dangling"));
}

#[test]
fn actions_keep_at_most_the_limit_and_later_pairs_win() {
    let mut actions = Vec::new();
    for i in 0..40 {
        actions.push(format!("id{i}"));
        actions.push(format!("label{i}"));
    }
    let map = normalize_actions(actions);
    assert_eq!(map.len(), 32);
    assert!(map.contains_key("id31"));
    assert!(!map.contains_key("id32"));

    let repeated = vec!["a".to_string(), "1".to_string(), "a".to_string(), "2".to_string()];
    let map = normalize_actions(repeated);
    assert_eq!(map.len(), 1);
    assert_eq!(map.get("a").unwrap(), "2");
}

#[test]
fn hints_are_read_by_name() {
    let hints = vec![
        ("urgency".to_string(), HintValue { byte: Some(2), int32: None, boolean: None, text: None }),
        ("value".to_string(), HintValue { byte: None, int32: Some(40), boolean: None, text: None }),
        ("transient".to_string(), HintValue { byte: None, int32: None, boolean: Some(true), text: None }),
        ("desktop-entry".to_string(), text("firefox")),
        ("category".to_string(), text("im.received")),
        ("x-pigeon-profile".to_string(), text("work")),
        ("image-path".to_string(), text("/tmp/a.png")),
        ("sound-name".to_string(), text("message")),
    ];
    let normalized = normalize_hints(&hints);
    assert_eq!(normalized.urgency, Some(2));
    assert_eq!(normalized.progress, Some(40));
    assert_eq!(normalized.transient, Some(true));
    assert_eq!(normalized.resident, None);
    assert_eq!(normalized.desktop_entry.as_deref(), Some("firefox"));
    assert_eq!(normalized.category.as_deref(), Some("im.received"));
    assert_eq!(normalized.profile.as_deref(), Some("work"));
    assert_eq!(normalized.hint("sound-name"), Some("message"));
    assert_eq!(normalized.hint("image-path"), None);
    assert_eq!(normalized.strings.len(), 1);
}

#[test]
fn stack_tag_prefers_the_dunst_hint() {
    let hints = vec![
        ("x-canonical-private-synchronous".to_string(), text("volume")),
        ("x-dunst-stack-tag".to_string(), text("brightness")),
    ];
    assert_eq!(normalize_hints(&hints).stack_tag.as_deref(), Some("brightness"));

    let hints = vec![("x-canonical-private-synchronous".to_string(), text("volume"))];
    assert_eq!(normalize_hints(&hints).stack_tag.as_deref(), Some("volume"));

    let hints = vec![(
        "x-dunst-stack-tag".to_string(),
        HintValue { byte: Some(1), int32: None, boolean: None, text: None },
    ), ("x-canonical-private-synchronous".to_string(), text("volume"))];
    assert_eq!(normalize_hints(&hints).stack_tag.as_deref(), Some("volume"));
}

#[test]
fn string_hints_stop_at_the_limit() {
    let mut hints = Vec::new();
    for i in 0..70 {
        hints.push((format!("x-hint-{i}"), text("v")));
    }
    let normalized = normalize_hints(&hints);
    assert_eq!(normalized.strings.len(), 64);
    assert_eq!(normalized.hint("x-hint-63"), Some("v"));
    assert_eq!(normalized.hint("x-hint-64"), None);
}

#[test]
fn prepared_notifications_are_cut_to_their_limits() {
    let long_body = "b".repeat(70_000);
    let n = prepare_notification(
        "app".to_string(),
        String::new(),
        "s".repeat(5000),
        long_body,
        vec!["default".to_string(), "Open".to_string()],
        &Vec::new(),
    );
    assert_eq!(n.id, 0);
    assert_eq!(n.app_name, "app");
    assert_eq!(n.summary.len(), 4096);
    assert!(n.summary.ends_with('…'));
    assert_eq!(n.body.len(), 65536);
    assert!(n.img.is_none());
    assert_eq!(n.actions.get("default").unwrap(), "Open");
}

#[test]
fn same_source_compares_desktop_entries_when_both_have_one() {
    let mut a = notification("Firefox", "a");
    let mut b = notification("firefox-bin", "b");
    assert!(!same_source(&a, &b));
    a.hints.desktop_entry = Some("firefox".to_string());
    b.hints.desktop_entry = Some("firefox".to_string());
    assert!(same_source(&a, &b));
    let c = notification("Firefox", "c");
    assert!(same_source(&notification("Firefox", "x"), &c));
    // Without a desktop entry on both sides the application names decide.
    assert!(same_source(&a, &c));
    assert!(!same_source(&a, &notification("Thunderbird", "d")));
}

#[test]
fn new_notifications_get_fresh_ids_in_order() {
    let mut queue = NotificationQueue::new();
    assert_eq!(store(&mut queue, 0, notification("a", "1")), EnqueueOutcome::Stored(1));
    assert_eq!(store(&mut queue, 0, notification("a", "2")), EnqueueOutcome::Stored(2));
    assert_eq!(queue.len(), 2);
    assert_eq!(queue.entry(0).notification.id, 1);
    assert_eq!(queue.entry(1).notification.summary, "2");
    assert_eq!(queue.entry(1).generation, 1);
    assert_eq!(queue.next_id(), 3);
    assert_eq!(queue.next_id(), 4);
}

#[test]
fn replacing_by_id_keeps_the_id_and_bumps_the_generation() {
    let mut queue = NotificationQueue::new();
    store(&mut queue, 0, notification("a", "first"));
    store(&mut queue, 0, notification("b", "other"));
    assert_eq!(store(&mut queue, 1, notification("a", "second")), EnqueueOutcome::Stored(1));
    assert_eq!(queue.len(), 2);
    assert_eq!(queue.entry(0).notification.summary, "second");
    assert_eq!(queue.entry(0).notification.id, 1);
    assert_eq!(queue.entry(0).generation, 2);
    assert!(!queue.entry(0).timer_started);
}

#[test]
fn replacing_an_unknown_id_stores_a_new_notification() {
    let mut queue = NotificationQueue::new();
    store(&mut queue, 0, notification("a", "first"));
    assert_eq!(store(&mut queue, 77, notification("a", "second")), EnqueueOutcome::Stored(2));
    assert_eq!(queue.len(), 2);
}

#[test]
fn stack_tags_replace_only_within_one_application() {
    let mut queue = NotificationQueue::new();
    store(&mut queue, 0, tagged("volume-app", "volume"));
    assert_eq!(store(&mut queue, 0, tagged("volume-app", "volume")), EnqueueOutcome::Stored(1));
    assert_eq!(queue.len(), 1);
    assert_eq!(queue.entry(0).generation, 2);
    assert_eq!(store(&mut queue, 0, tagged("other-app", "volume")), EnqueueOutcome::Stored(2));
    assert_eq!(queue.len(), 2);
}

#[test]
fn a_full_queue_rejects_new_notifications() {
    let mut queue = NotificationQueue::new();
    for i in 0..MAX_LIVE_NOTIFICATIONS {
        assert_eq!(
            store(&mut queue, 0, notification("a", &i.to_string())),
            EnqueueOutcome::Stored(i as u32 + 1)
        );
    }
    assert_eq!(store(&mut queue, 0, notification("a", "late")), EnqueueOutcome::Rejected(33));
    assert_eq!(queue.len(), MAX_LIVE_NOTIFICATIONS);
    assert_eq!(store(&mut queue, 5, notification("a", "update")), EnqueueOutcome::Stored(5));
    assert_eq!(queue.entry(4).notification.summary, "update");
}

#[test]
fn removal_goes_by_id_and_generation() {
    let mut queue = NotificationQueue::new();
    store(&mut queue, 0, notification("a", "1"));
    store(&mut queue, 0, notification("a", "2"));
    assert!(queue.remove(2, Some(9)).is_none());
    assert_eq!(queue.len(), 2);
    let removed = queue.remove(2, Some(1)).unwrap();
    assert_eq!(removed.notification.summary, "2");
    assert!(queue.remove(2, None).is_none());
    assert_eq!(queue.len(), 1);
    assert_eq!(store(&mut queue, 0, notification("a", "3")), EnqueueOutcome::Stored(3));
}

#[test]
fn a_visible_notification_starts_its_timer_once() {
    let mut queue = NotificationQueue::new();
    store(&mut queue, 0, notification("a", "1"));
    assert_eq!(
        queue.handle(LifecycleCommand::Visible { id: 1, generation: 1 }),
        LifecycleAction::StartTimer { id: 1, generation: 1, milliseconds: 5000 }
    );
    assert_eq!(
        queue.handle(LifecycleCommand::Visible { id: 1, generation: 1 }),
        LifecycleAction::Ignore
    );
    assert!(queue.entry(0).timer_started);
    assert_eq!(
        queue.handle(LifecycleCommand::Visible { id: 1, generation: 3 }),
        LifecycleAction::Ignore
    );
}

#[test]
fn a_notification_without_timeout_starts_no_timer() {
    let mut queue = NotificationQueue::new();
    queue.enqueue(0, notification("a", "1"), NotificationConfig::default(), TimeoutPolicy::Never, None);
    assert_eq!(
        queue.handle(LifecycleCommand::Visible { id: 1, generation: 1 }),
        LifecycleAction::Ignore
    );
    assert!(queue.entry(0).timer_started);
}

#[test]
fn an_expiry_for_a_replaced_version_is_ignored() {
    let mut queue = NotificationQueue::new();
    store(&mut queue, 0, notification("a", "1"));
    store(&mut queue, 1, notification("a", "1 again"));
    assert_eq!(
        queue.handle(LifecycleCommand::Expire { id: 1, generation: 1 }),
        LifecycleAction::Ignore
    );
    assert_eq!(queue.len(), 1);
    assert_eq!(
        queue.handle(LifecycleCommand::Expire { id: 1, generation: 2 }),
        LifecycleAction::Expired { id: 1 }
    );
    assert_eq!(queue.len(), 0);
}

#[test]
fn dismissing_invokes_the_default_action_when_there_is_one() {
    let mut queue = NotificationQueue::new();
    let mut with_action = notification("a", "1");
    with_action.actions.insert("default".to_string(), "Open".to_string());
    store(&mut queue, 0, with_action);
    store(&mut queue, 0, notification("a", "2"));
    assert_eq!(
        queue.handle(LifecycleCommand::Dismiss { id: 1 }),
        LifecycleAction::Dismissed { id: 1, invoke_default: true }
    );
    assert_eq!(
        queue.handle(LifecycleCommand::Dismiss { id: 2 }),
        LifecycleAction::Dismissed { id: 2, invoke_default: false }
    );
    assert_eq!(queue.handle(LifecycleCommand::Dismiss { id: 2 }), LifecycleAction::Ignore);
    assert_eq!(queue.len(), 0);
}

#[test]
fn refreshing_keeps_running_timers() {
    let mut queue = NotificationQueue::new();
    store(&mut queue, 0, notification("a", "1"));
    store(&mut queue, 0, notification("a", "2"));
    queue.handle(LifecycleCommand::Visible { id: 1, generation: 1 });
    let mut config = PigeonConfig::default();
    config.timeouts = TimeoutConfig { low: 1, normal: 777, critical: 3 };
    config.notification.corner_radius = 3;
    queue.refresh_presentation(&config);
    assert_eq!(queue.entry(0).timeout, Some(5000));
    assert_eq!(queue.entry(1).timeout, Some(777));
    assert_eq!(queue.entry(0).style.corner_radius, 3);
    assert_eq!(queue.entry(1).style.corner_radius, 3);
    assert_eq!(queue.entry(1).generation, 1);
}

#[test]
fn blocked_notifications_get_an_id_but_are_not_stored() {
    let mut queue = NotificationQueue::new();
    assert_eq!(store(&mut queue, 0, notification("a", "1")), EnqueueOutcome::Stored(1));
    assert_eq!(queue.turn_away(RuleAction::Allow), None);
    assert_eq!(queue.turn_away(RuleAction::Block), Some(2));
    assert_eq!(queue.len(), 1);
    assert_eq!(store(&mut queue, 0, notification("a", "2")), EnqueueOutcome::Stored(3));
}
