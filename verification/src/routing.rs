//! What the client does with a link: load it in the site window, hand it to
//! the system, open a settings section, or refuse it.

use vstd::prelude::*;

use crate::links::{
    deep_link_destination, destination_from_deep_link, embedded_navigation, is_ebloid_url,
    is_embedded_navigation, is_system_link, parsed_url, site_url, system_link, UrlView, WebUrl,
};
use crate::text::same_text;

verus! {

/// A section of the client's settings window.
#[derive(Clone, Copy, PartialEq, Eq, Structural, Debug)]
pub enum SettingsSection {
    General,
    Downloads,
}

impl SettingsSection {
    pub open spec fn spec_name(self) -> Seq<char> {
        match self {
            SettingsSection::General => "general"@,
            SettingsSection::Downloads => "downloads"@,
        }
    }

    /// The section's name in the settings page's address.
    pub fn name(&self) -> (res: String)
        ensures
            res@ == self.spec_name(),
    {
        match self {
            SettingsSection::General => "general".to_owned(),
            SettingsSection::Downloads => "downloads".to_owned(),
        }
    }
}

/// What an `ebloid:` link makes the client do.
pub enum DeepLinkAction {
    /// Open the settings window at a section.
    OpenSettings(SettingsSection),
    /// Show this site page in the main window.
    Navigate(WebUrl),
    /// Nothing.
    Ignore,
}

/// The settings section that `ebloid://settings` or `ebloid://downloads`
/// opens.
pub open spec fn settings_link_section(u: UrlView) -> Option<SettingsSection> {
    if u.scheme == "ebloid"@ && u.host == Some("downloads"@) {
        Some(SettingsSection::Downloads)
    } else if u.scheme == "ebloid"@ && u.host == Some("settings"@) {
        Some(SettingsSection::General)
    } else {
        None
    }
}

/// What the client does with a link it was started or woken with: a settings
/// link opens that section; any other `ebloid:` link shows the site page it
/// leads to, when there is one.
pub fn deep_link_action(url: &WebUrl) -> (res: DeepLinkAction)
    ensures
        match res {
            DeepLinkAction::OpenSettings(s) => settings_link_section(url@) == Some(s),
            DeepLinkAction::Navigate(d) => settings_link_section(url@) is None
                && deep_link_destination(url@) == Some(d@),
            DeepLinkAction::Ignore => settings_link_section(url@) is None
                && deep_link_destination(url@) is None,
        },
{
    if same_text(url.scheme.as_str(), "ebloid") {
        match &url.host {
            Some(h) => {
                if same_text(h.as_str(), "downloads") {
                    return DeepLinkAction::OpenSettings(SettingsSection::Downloads);
                }
                if same_text(h.as_str(), "settings") {
                    return DeepLinkAction::OpenSettings(SettingsSection::General);
                }
            },
            None => {},
        }
    }
    match destination_from_deep_link(url) {
        Some(d) => DeepLinkAction::Navigate(d),
        None => DeepLinkAction::Ignore,
    }
}

/// What the site window does when a page asks to go to an address.
#[derive(Clone, Copy, PartialEq, Eq, Structural, Debug)]
pub enum NavigationDecision {
    /// Load it in the window.
    Allow,
    /// Stay, hand the address to the system and bring the window forward.
    OpenExternally,
    /// Stay.
    Block,
}

pub open spec fn navigation_of(u: UrlView) -> NavigationDecision {
    if embedded_navigation(u) {
        NavigationDecision::Allow
    } else if system_link(u) {
        NavigationDecision::OpenExternally
    } else {
        NavigationDecision::Block
    }
}

/// Decides a navigation of the site window.
pub fn navigation_decision(url: &WebUrl) -> (res: NavigationDecision)
    ensures
        res == navigation_of(url@),
{
    if is_embedded_navigation(url) {
        NavigationDecision::Allow
    } else if is_system_link(url) {
        NavigationDecision::OpenExternally
    } else {
        NavigationDecision::Block
    }
}

/// What the client does when a page asks for a new window; no new window is
/// ever made.
#[derive(Clone, Copy, PartialEq, Eq, Structural, Debug)]
pub enum NewWindowDecision {
    /// Load the address in the main window and focus it.
    ShowInMain,
    /// Hand the address to the system.
    OpenExternally,
    /// Do nothing.
    Ignore,
}

pub open spec fn new_window_of(u: UrlView) -> NewWindowDecision {
    if site_url(u) {
        NewWindowDecision::ShowInMain
    } else if system_link(u) {
        NewWindowDecision::OpenExternally
    } else {
        NewWindowDecision::Ignore
    }
}

/// Decides a request for a new window.
pub fn new_window_decision(url: &WebUrl) -> (res: NewWindowDecision)
    ensures
        res == new_window_of(url@),
{
    if is_ebloid_url(url) {
        NewWindowDecision::ShowInMain
    } else if is_system_link(url) {
        NewWindowDecision::OpenExternally
    } else {
        NewWindowDecision::Ignore
    }
}

/// The answer to a page that asks to open an address outside the client:
/// the parsed address when the system may open it, else the parse error or
/// a refusal.
pub open spec fn external_link_of(input: Seq<char>) -> Result<UrlView, Seq<char>> {
    match parsed_url(input) {
        Ok(u) => if system_link(u) {
            Ok(u)
        } else {
            Err("Эту ссылку нельзя открыть во внешнем приложении"@)
        },
        Err(e) => Err(e),
    }
}

/// Checks an address that a page asks to open outside the client: see
/// [`external_link_of`].
pub fn external_link(url: &str) -> (res: Result<WebUrl, String>)
    ensures
        match res {
            Ok(u) => external_link_of(url@) == Ok::<UrlView, Seq<char>>(u@),
            Err(e) => external_link_of(url@) == Err::<UrlView, Seq<char>>(e@),
        },
{
    let parsed = WebUrl::parse(url)?;
    if !is_system_link(&parsed) {
        return Err("Эту ссылку нельзя открыть во внешнем приложении".to_owned());
    }
    Ok(parsed)
}

/// Addresses that the window loads itself (site pages, `about:`, `data:`,
/// `blob:`) are never handed to a browser.
pub proof fn embedded_addresses_stay_inside(u: UrlView)
    requires
        embedded_navigation(u),
    ensures
        navigation_of(u) == NavigationDecision::Allow,
{
}

/// The site's own pages are always loaded inside the window and never
/// handed to the system; a request for a new window with one shows it in
/// the main window.
pub proof fn site_pages_stay_inside(u: UrlView)
    requires
        site_url(u),
    ensures
        navigation_of(u) == NavigationDecision::Allow,
        new_window_of(u) == NewWindowDecision::ShowInMain,
{
}

/// A web address (`http` or `https`) whose host is the site or one of its
/// subdomains.
pub open spec fn on_site_host(u: UrlView) -> bool {
    (u.scheme == "https"@ || u.scheme == "http"@) && match u.host {
        Some(h) => h == "eblo.id"@ || crate::text::ends_with(h, ".eblo.id"@),
        None => false,
    }
}

/// A web, mail or phone address: scheme `https`, `http`, `mailto` or `tel`.
pub open spec fn web_mail_or_phone(u: UrlView) -> bool {
    u.scheme == "https"@ || u.scheme == "http"@ || u.scheme == "mailto"@ || u.scheme == "tel"@
}

/// A request for a new window shows a page of the site in the main window;
/// any other web, mail or phone address is handed to the system; anything
/// else is dropped.
pub proof fn new_windows_by_address(u: UrlView)
    ensures
        on_site_host(u) ==> new_window_of(u) == NewWindowDecision::ShowInMain,
        !on_site_host(u) && web_mail_or_phone(u) ==> new_window_of(u)
            == NewWindowDecision::OpenExternally,
        !on_site_host(u) && !web_mail_or_phone(u) ==> new_window_of(u) == NewWindowDecision::Ignore,
{
}

/// A navigation loads site pages and `about:`, `data:` and `blob:`
/// addresses in the window, hands any other web, mail or phone address to
/// the system, and blocks the rest.
pub proof fn navigations_by_address(u: UrlView)
    ensures
        on_site_host(u) || u.scheme == "about"@ || u.scheme == "data"@ || u.scheme == "blob"@
            ==> navigation_of(u) == NavigationDecision::Allow,
        !(on_site_host(u) || u.scheme == "about"@ || u.scheme == "data"@ || u.scheme == "blob"@)
            && web_mail_or_phone(u) ==> navigation_of(u) == NavigationDecision::OpenExternally,
        !(on_site_host(u) || u.scheme == "about"@ || u.scheme == "data"@ || u.scheme == "blob"@)
            && !web_mail_or_phone(u) ==> navigation_of(u) == NavigationDecision::Block,
{
}

/// An address that a page asks to open outside the client is accepted
/// unchanged exactly when it parses and is a web, mail or phone address; a
/// parse error is passed on, and any other address refused.
pub proof fn external_links_by_address(input: Seq<char>)
    ensures
        parsed_url(input) matches Ok(u) ==> (web_mail_or_phone(u) ==> external_link_of(input)
            == Ok::<UrlView, Seq<char>>(u)),
        parsed_url(input) matches Ok(u) ==> (!web_mail_or_phone(u) ==> external_link_of(
            input,
        ) is Err),
        parsed_url(input) matches Err(e) ==> external_link_of(input) == Err::<UrlView, Seq<char>>(
            e,
        ),
{
}

} // verus!
