//! The texts and small decisions of the client's windows, tray icon and
//! injected scripts.

use vstd::prelude::*;

use crate::routing::SettingsSection;
use crate::text::{decimal, decimal_string, same_text};

verus! {

/// The disabled first entry of the tray menu.
pub open spec fn unread_label(unread: u64) -> Seq<char> {
    if unread == 0 {
        "Нет новых уведомлений"@
    } else {
        "Непрочитанных: "@ + decimal(unread as nat)
    }
}

/// The tray menu's line about unread notifications.
pub fn unread_menu_label(unread: u64) -> (res: String)
    ensures
        res@ == unread_label(unread),
{
    if unread == 0 {
        "Нет новых уведомлений".to_owned()
    } else {
        let mut s = "Непрочитанных: ".to_owned();
        s.append(decimal_string(unread).as_str());
        s
    }
}

/// The main window's title.
pub open spec fn title_for(unread: u64) -> Seq<char> {
    if unread == 0 {
        "Ebloid"@
    } else {
        "("@ + decimal(unread as nat) + ") Ebloid"@
    }
}

/// The main window's title: the unread count in brackets before the name.
pub fn window_title(unread: u64) -> (res: String)
    ensures
        res@ == title_for(unread),
{
    if unread == 0 {
        "Ebloid".to_owned()
    } else {
        let mut s = "(".to_owned();
        s.append(decimal_string(unread).as_str());
        s.append(") Ebloid");
        s
    }
}

/// The tray icon's tooltip.
pub open spec fn tooltip_for(unread: u64) -> Seq<char> {
    if unread == 0 {
        "Ebloid"@
    } else {
        "Ebloid — "@ + decimal(unread as nat) + " непрочитанных"@
    }
}

/// The tray icon's tooltip.
pub fn tray_tooltip(unread: u64) -> (res: String)
    ensures
        res@ == tooltip_for(unread),
{
    if unread == 0 {
        "Ebloid".to_owned()
    } else {
        let mut s = "Ebloid — ".to_owned();
        s.append(decimal_string(unread).as_str());
        s.append(" непрочитанных");
        s
    }
}

/// The count on the dock or taskbar icon: none for no unread notifications,
/// else the count as a signed number (wrapping like `as i64`).
pub fn badge_count(unread: u64) -> (res: Option<i64>)
    ensures
        res == if unread > 0 {
            Some(unread as i64)
        } else {
            None::<i64>
        },
{
    if unread > 0 {
        Some(unread as i64)
    } else {
        None
    }
}

/// The overlay on the taskbar icon.
#[derive(Clone, Copy, PartialEq, Eq, Structural, Debug)]
pub enum BadgeIcon {
    /// A digit from 1 to 9.
    Count(u8),
    /// `9+`.
    NinePlus,
}

/// The overlay for an unread count: none for zero, the digit up to nine,
/// else `9+`.
pub fn badge_icon(unread: u64) -> (res: Option<BadgeIcon>)
    ensures
        unread == 0 ==> res is None,
        1 <= unread <= 9 ==> res == Some(BadgeIcon::Count(unread as u8)),
        unread > 9 ==> res == Some(BadgeIcon::NinePlus),
{
    if unread == 0 {
        None
    } else if unread <= 9 {
        Some(BadgeIcon::Count(unread as u8))
    } else {
        Some(BadgeIcon::NinePlus)
    }
}

/// The settings page's address within the client: `settings.html#` and the
/// section, `general` when none is given.
pub fn settings_page(section: Option<&str>) -> (res: String)
    ensures
        res@ == "settings.html#"@ + match section {
            Some(s) => s@,
            None => "general"@,
        },
{
    let mut page = "settings.html#".to_owned();
    match section {
        Some(s) => page.append(s),
        None => page.append("general"),
    }
    page
}

/// A lower-case hexadecimal digit.
pub open spec fn hex_lower(d: int) -> char {
    if d < 10 {
        crate::text::digit_char(d as nat)
    } else if d == 10 {
        'a'
    } else if d == 11 {
        'b'
    } else if d == 12 {
        'c'
    } else if d == 13 {
        'd'
    } else if d == 14 {
        'e'
    } else {
        'f'
    }
}

/// How a character stands in a JSON string literal as `serde_json` writes
/// it: `"` and `\` behind a backslash, `\b \t \n \f \r` for those controls,
/// other characters below U+0020 as `\u00XX` in lower-case hexadecimal, and
/// every other character as itself.
pub open spec fn json_escape(c: char) -> Seq<char> {
    if c == '"' {
        seq!['\\', '"']
    } else if c == '\\' {
        seq!['\\', '\\']
    } else if c == '\u{8}' {
        seq!['\\', 'b']
    } else if c == '\t' {
        seq!['\\', 't']
    } else if c == '\n' {
        seq!['\\', 'n']
    } else if c == '\u{c}' {
        seq!['\\', 'f']
    } else if c == '\r' {
        seq!['\\', 'r']
    } else if (c as int) < 0x20 {
        seq!['\\', 'u', '0', '0', hex_lower((c as int) / 16), hex_lower((c as int) % 16)]
    } else {
        seq![c]
    }
}

/// The escaped characters of a text.
pub open spec fn json_body(s: Seq<char>) -> Seq<char>
    decreases s.len(),
{
    if s.len() == 0 {
        Seq::<char>::empty()
    } else {
        json_escape(s[0]) + json_body(s.drop_first())
    }
}

/// A text as a JSON string literal: quoted, with its characters escaped.
pub open spec fn json_text(s: Seq<char>) -> Seq<char> {
    seq!['"'] + json_body(s) + seq!['"']
}

/// `serde_json::to_string` on a string slice: the string as a JSON string
/// literal, quoted and escaped as [`json_text`] says (the escape table of
/// `serde_json`'s compact formatter). Writing a string into memory does not
/// fail.
#[verifier::external_body]
fn json_string(s: &str) -> (res: String)
    ensures
        res@ == json_text(s@),
{
    serde_json::to_string(s).unwrap_or_default()
}

/// The script that moves an open settings window to a section.
pub open spec fn section_script_text(section: Seq<char>) -> Seq<char> {
    let q = json_text(section);
    "location.hash="@ + q + ";window.dispatchEvent(new CustomEvent('ebloid-section', {detail:"@ + q
        + "}));"@
}

/// The script that moves an open settings window to a section.
pub fn section_script(section: &str) -> (res: String)
    ensures
        res@ == section_script_text(section@),
{
    let q = json_string(section);
    let mut script = "location.hash=".to_owned();
    script.append(q.as_str());
    script.append(";window.dispatchEvent(new CustomEvent('ebloid-section', {detail:");
    script.append(q.as_str());
    script.append("}));");
    script
}

/// The script that tells the page whether the site can be reached.
pub fn online_script(reachable: bool) -> (res: String)
    ensures
        res@ == "window.__ebloidClientSetOnline?.("@ + (if reachable {
            "true"@
        } else {
            "false"@
        }) + ");"@,
{
    let mut script = "window.__ebloidClientSetOnline?.(".to_owned();
    if reachable {
        script.append("true");
    } else {
        script.append("false");
    }
    script.append(");");
    script
}

/// The script that shows the newest download on the page; `latest` is its
/// JSON (or `null`).
pub fn download_script(latest: &str) -> (res: String)
    ensures
        res@ == "window.__ebloidClientDownload?.("@ + latest@ + ");"@,
{
    let mut script = "window.__ebloidClientDownload?.(".to_owned();
    script.append(latest);
    script.append(");");
    script
}

/// The title of the notice about an available update.
pub fn update_notice_title(version: &str) -> (res: String)
    ensures
        res@ == "Доступен Ebloid "@ + version@,
{
    let mut title = "Доступен Ebloid ".to_owned();
    title.append(version);
    title
}

/// An entry of the tray menu.
#[derive(Clone, Copy, PartialEq, Eq, Structural, Debug)]
pub enum TrayAction {
    /// Bring the main window forward.
    Show,
    /// Open the settings window at a section.
    OpenSettings(SettingsSection),
    /// Quit the client.
    Quit,
    /// Nothing.
    Nothing,
}

/// What a tray menu entry does, by its id.
pub fn tray_action(id: &str) -> (res: TrayAction)
    ensures
        res == if id@ == "show"@ {
            TrayAction::Show
        } else if id@ == "settings"@ {
            TrayAction::OpenSettings(SettingsSection::General)
        } else if id@ == "downloads"@ {
            TrayAction::OpenSettings(SettingsSection::Downloads)
        } else if id@ == "quit"@ {
            TrayAction::Quit
        } else {
            TrayAction::Nothing
        },
{
    if same_text(id, "show") {
        TrayAction::Show
    } else if same_text(id, "settings") {
        TrayAction::OpenSettings(SettingsSection::General)
    } else if same_text(id, "downloads") {
        TrayAction::OpenSettings(SettingsSection::Downloads)
    } else if same_text(id, "quit") {
        TrayAction::Quit
    } else {
        TrayAction::Nothing
    }
}

/// Whether closing the main window only hides it in the tray: unless the
/// client is quitting, when the settings ask for it.
pub fn hides_on_close(quitting: bool, minimize_to_tray: bool) -> (res: bool)
    ensures
        res == (!quitting && minimize_to_tray),
{
    !quitting && minimize_to_tray
}

/// The `Cookie` header for a request: `name=value` pairs joined by `; `.
pub open spec fn cookie_text(cookies: Seq<(Seq<char>, Seq<char>)>) -> Seq<char>
    decreases cookies.len(),
{
    if cookies.len() == 0 {
        Seq::<char>::empty()
    } else if cookies.len() == 1 {
        cookies[0].0 + seq!['='] + cookies[0].1
    } else {
        cookie_text(cookies.drop_last()) + seq![';', ' '] + cookies.last().0 + seq!['='] + cookies.last().1
    }
}

/// The `Cookie` header for the site's cookies.
pub fn cookie_header(cookies: &Vec<(String, String)>) -> (res: String)
    ensures
        res@ == cookie_text(cookies@.map_values(|c: (String, String)| (c.0@, c.1@))),
{
    let ghost all = cookies@.map_values(|c: (String, String)| (c.0@, c.1@));
    let mut header = String::new();
    let n = cookies.len();
    for i in 0..n
        invariant
            n == cookies@.len(),
            all == cookies@.map_values(|c: (String, String)| (c.0@, c.1@)),
            header@ == cookie_text(all.take(i as int)),
    {
        let ghost before = header@;
        if i > 0 {
            header.append("; ");
        }
        header.append(cookies[i].0.as_str());
        header.append("=");
        header.append(cookies[i].1.as_str());
        proof {
            reveal_strlit("; ");
            reveal_strlit("=");
            assert(all.take(i + 1).drop_last() =~= all.take(i as int));
            assert(all.take(i + 1).last() == all[i as int]);
            if i == 0 {
                assert(all.take(1)[0] == all[0]);
            }
        }
        assert(header@ =~= cookie_text(all.take(i + 1)));
    }
    assert(all.take(n as int) =~= all);
    header
}

} // verus!
