use ebloid::settings::{
    client_event, keep_recent_notifications, remember_notification, ClientSettings, SiteEvent,
    MAX_SEEN_NOTIFICATIONS,
};

fn event(kind: &str, id: Option<&str>) -> SiteEvent {
    SiteEvent {
        kind: kind.to_string(),
        unread: Some(3),
        notification_id: id.map(str::to_string),
        title: None,
        body: Some("reply".to_string()),
        url: Some("https://eblo.id/n/1".to_string()),
        online: Some(true),
    }
}

#[test]
fn defaults_enable_notifications_and_tray() {
    let s = ClientSettings::default();
    assert!(s.notifications && !s.autostart && s.minimize_to_tray && s.check_updates);
    assert!(s.seen_notifications.is_empty());
}

#[test]
fn keeps_only_the_newest_seen_ids() {
    let mut seen: Vec<String> = (0..(MAX_SEEN_NOTIFICATIONS + 3)).map(|i| i.to_string()).collect();
    keep_recent_notifications(&mut seen);
    assert_eq!(seen.len(), MAX_SEEN_NOTIFICATIONS);
    assert_eq!(seen[0], "3");
    let mut few = vec!["a".to_string()];
    keep_recent_notifications(&mut few);
    assert_eq!(few, vec!["a".to_string()]);
}

#[test]
fn remembers_each_id_once() {
    let mut seen: Vec<String> = (0..MAX_SEEN_NOTIFICATIONS).map(|i| i.to_string()).collect();
    assert!(remember_notification(&mut seen, "new".to_string()));
    assert_eq!(seen.len(), MAX_SEEN_NOTIFICATIONS);
    assert_eq!(seen.last().map(String::as_str), Some("new"));
    assert_eq!(seen[0], "1");
    assert!(!remember_notification(&mut seen, "new".to_string()));
    assert_eq!(seen.len(), MAX_SEEN_NOTIFICATIONS);
}

#[test]
fn announces_new_notifications_once() {
    let mut s = ClientSettings::default();
    let first = client_event(&mut s, event("notification", Some("n1")));
    assert_eq!(first.online, Some(true));
    assert_eq!(first.unread, Some(3));
    assert!(first.save_settings);
    let n = first.notification.unwrap();
    assert_eq!(n.title, "Новое уведомление");
    assert_eq!(n.body, "reply");
    assert_eq!(n.url.as_deref(), Some("https://eblo.id/n/1"));
    let again = client_event(&mut s, event("notification", Some("n1")));
    assert!(again.notification.is_none());
    assert!(again.save_settings);
    assert_eq!(s.seen_notifications, vec!["n1".to_string()]);
}

#[test]
fn seeds_and_other_reports_announce_nothing() {
    let mut s = ClientSettings::default();
    let seed = client_event(&mut s, event("seedNotification", Some("old")));
    assert!(seed.notification.is_none());
    assert_eq!(s.seen_notifications, vec!["old".to_string()]);
    let heartbeat = client_event(&mut s, event("heartbeat", Some("x")));
    assert!(!heartbeat.save_settings);
    assert_eq!(s.seen_notifications.len(), 1);
    let no_id = client_event(&mut s, event("notification", None));
    assert!(!no_id.save_settings && no_id.notification.is_none());
    s.notifications = false;
    let muted = client_event(&mut s, event("notification", Some("m")));
    assert!(muted.notification.is_none());
    assert_eq!(s.seen_notifications.len(), 2);
}
