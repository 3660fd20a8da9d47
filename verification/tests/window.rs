use ebloid::monitor::{is_reachable, needs_reload};
use ebloid::routing::SettingsSection;
use ebloid::system::{file_manager_command, open_command, reveal_command, Platform};
use ebloid::window::{
    badge_count, badge_icon, cookie_header, download_script, hides_on_close, online_script,
    section_script, settings_page, tray_action, tray_tooltip, unread_menu_label,
    update_notice_title, window_title, BadgeIcon, TrayAction,
};

#[test]
fn labels_follow_the_unread_count() {
    assert_eq!(unread_menu_label(0), "Нет новых уведомлений");
    assert_eq!(unread_menu_label(12), "Непрочитанных: 12");
    assert_eq!(window_title(0), "Ebloid");
    assert_eq!(window_title(7), "(7) Ebloid");
    assert_eq!(tray_tooltip(0), "Ebloid");
    assert_eq!(tray_tooltip(3), "Ebloid — 3 непрочитанных");
    assert_eq!(badge_count(0), None);
    assert_eq!(badge_count(4), Some(4));
    assert_eq!(badge_count(u64::MAX), Some(-1));
    assert_eq!(badge_icon(0), None);
    assert_eq!(badge_icon(9), Some(BadgeIcon::Count(9)));
    assert_eq!(badge_icon(10), Some(BadgeIcon::NinePlus));
}

#[test]
fn builds_pages_and_scripts() {
    assert_eq!(settings_page(None), "settings.html#general");
    assert_eq!(settings_page(Some("downloads")), "settings.html#downloads");
    assert_eq!(
        section_script("down\"loads"),
        "location.hash=\"down\\\"loads\";window.dispatchEvent(new CustomEvent('ebloid-section', {detail:\"down\\\"loads\"}));"
    );
    assert_eq!(
        section_script("a\u{1}\n\\"),
        "location.hash=\"a\\u0001\\n\\\\\";window.dispatchEvent(new CustomEvent('ebloid-section', {detail:\"a\\u0001\\n\\\\\"}));"
    );
    assert_eq!(online_script(true), "window.__ebloidClientSetOnline?.(true);");
    assert_eq!(online_script(false), "window.__ebloidClientSetOnline?.(false);");
    assert_eq!(download_script("null"), "window.__ebloidClientDownload?.(null);");
    assert_eq!(update_notice_title("1.2.3"), "Доступен Ebloid 1.2.3");
}

#[test]
fn routes_tray_entries() {
    assert_eq!(tray_action("show"), TrayAction::Show);
    assert_eq!(tray_action("settings"), TrayAction::OpenSettings(SettingsSection::General));
    assert_eq!(tray_action("downloads"), TrayAction::OpenSettings(SettingsSection::Downloads));
    assert_eq!(tray_action("quit"), TrayAction::Quit);
    assert_eq!(tray_action("unread"), TrayAction::Nothing);
    assert_eq!(SettingsSection::Downloads.name(), "downloads");
    assert!(hides_on_close(false, true));
    assert!(!hides_on_close(true, true));
    assert!(!hides_on_close(false, false));
}

#[test]
fn joins_cookies() {
    assert_eq!(cookie_header(&vec![]), "");
    assert_eq!(
        cookie_header(&vec![("a".into(), "1".into()), ("sid".into(), "x y".into())]),
        "a=1; sid=x y"
    );
}

#[test]
fn watches_the_connection() {
    assert!(is_reachable(Some(200)));
    assert!(is_reachable(Some(302)));
    assert!(!is_reachable(Some(404)));
    assert!(!is_reachable(Some(199)));
    assert!(!is_reachable(None));
    assert!(needs_reload(true, 100, 54));
    assert!(!needs_reload(true, 100, 55));
    assert!(!needs_reload(false, 100, 0));
    assert!(!needs_reload(true, 10, 100));
}

#[test]
fn builds_system_commands() {
    let c = open_command(Platform::Windows, "https://x");
    assert_eq!(c.program, "rundll32.exe");
    assert_eq!(c.args, vec!["url.dll,FileProtocolHandler", "https://x"]);
    let c = open_command(Platform::Other, "mailto:a@b");
    assert_eq!((c.program.as_str(), c.args.len()), ("xdg-open", 1));
    let c = reveal_command(Platform::Windows, "C:\\d\\f.txt", Some("C:\\d"));
    assert_eq!(c.args, vec!["/select,C:\\d\\f.txt"]);
    let c = reveal_command(Platform::MacOs, "/d/f", Some("/d"));
    assert_eq!((c.program.as_str(), c.args.clone()), ("open", vec!["-R".to_string(), "/d/f".to_string()]));
    let c = reveal_command(Platform::Other, "/d/f", Some("/d"));
    assert_eq!(c.args, vec!["/d"]);
    let c = reveal_command(Platform::Other, "f", None);
    assert_eq!(c.args, vec!["f"]);
}

#[test]
fn file_manager_opens_the_folder_of_a_file() {
    let c = file_manager_command(Platform::Other, "/home/u/Downloads/clip.mp4");
    assert_eq!((c.program.as_str(), c.args.clone()), ("xdg-open", vec!["/home/u/Downloads".to_string()]));
    let c = file_manager_command(Platform::Other, "/");
    assert_eq!(c.args, vec!["/"]);
    let c = file_manager_command(Platform::Other, "clip.mp4");
    assert_eq!(c.args, vec![""]);
    let c = file_manager_command(Platform::MacOs, "/d/f");
    assert_eq!(c.args, vec!["-R".to_string(), "/d/f".to_string()]);
}
