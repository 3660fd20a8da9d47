//! The client's settings and the notifications that the site reports: which
//! of them were seen already and which one the system is to announce.

use vstd::prelude::*;

use crate::text::same_text;

verus! {

/// How many seen notification ids the settings remember.
pub const MAX_SEEN_NOTIFICATIONS: usize = 500;

/// The client's settings, but for the page zoom.
#[derive(Clone, Debug)]
pub struct ClientSettings {
    pub notifications: bool,
    pub autostart: bool,
    pub minimize_to_tray: bool,
    pub check_updates: bool,
    /// The ids of the notifications seen so far, the oldest first.
    pub seen_notifications: Vec<String>,
}

impl Default for ClientSettings {
    fn default() -> (res: ClientSettings)
        ensures
            res.notifications,
            !res.autostart,
            res.minimize_to_tray,
            res.check_updates,
            res.seen_notifications@.len() == 0,
    {
        ClientSettings {
            notifications: true,
            autostart: false,
            minimize_to_tray: true,
            check_updates: true,
            seen_notifications: Vec::new(),
        }
    }
}

/// The texts of a list of strings.
pub open spec fn texts(v: Seq<String>) -> Seq<Seq<char>> {
    v.map_values(|s: String| s@)
}

/// The newest [`MAX_SEEN_NOTIFICATIONS`] ids of a list.
pub open spec fn most_recent(seen: Seq<Seq<char>>) -> Seq<Seq<char>> {
    if seen.len() > MAX_SEEN_NOTIFICATIONS {
        seen.skip(seen.len() - MAX_SEEN_NOTIFICATIONS)
    } else {
        seen
    }
}

/// Drops the oldest seen ids beyond [`MAX_SEEN_NOTIFICATIONS`].
pub fn keep_recent_notifications(seen: &mut Vec<String>)
    ensures
        texts(final(seen)@) == most_recent(texts(old(seen)@)),
{
    if seen.len() > MAX_SEEN_NOTIFICATIONS {
        let drop = seen.len() - MAX_SEEN_NOTIFICATIONS;
        let kept = seen.split_off(drop);
        *seen = kept;
        assert(texts(seen@) =~= most_recent(texts(old(seen)@)));
    }
}

/// The seen ids after a notification with id `id` arrives: a new id is
/// added at the end, and the oldest one dropped when that makes more than
/// [`MAX_SEEN_NOTIFICATIONS`]; a known one changes nothing.
pub open spec fn remembered(seen: Seq<Seq<char>>, id: Seq<char>) -> Seq<Seq<char>> {
    if seen.contains(id) {
        seen
    } else if seen.len() + 1 > MAX_SEEN_NOTIFICATIONS {
        seen.push(id).drop_first()
    } else {
        seen.push(id)
    }
}

/// Records a notification id; true when it was not seen before.
pub fn remember_notification(seen: &mut Vec<String>, id: String) -> (is_new: bool)
    ensures
        is_new == !texts(old(seen)@).contains(id@),
        texts(final(seen)@) == remembered(texts(old(seen)@), id@),
{
    let n = seen.len();
    let ghost t = texts(seen@);
    for i in 0..n
        invariant
            n == seen@.len(),
            t == texts(seen@),
            seen@ == old(seen)@,
            forall|j: int| 0 <= j < i ==> t[j] != id@,
    {
        if same_text(seen[i].as_str(), id.as_str()) {
            assert(t[i as int] == id@);
            return false;
        }
    }
    assert(!t.contains(id@));
    let ghost idv = id@;
    seen.push(id);
    assert(texts(seen@) =~= t.push(idv));
    if seen.len() > MAX_SEEN_NOTIFICATIONS {
        seen.remove(0);
        assert(texts(seen@) =~= t.push(idv).drop_first());
    }
    true
}

} // verus!

verus! {

/// A report that the site's page sends to the client.
#[derive(Clone, Debug)]
pub struct SiteEvent {
    /// `notification` for a new notification, `seedNotification` for one
    /// already on the page when it loaded; other kinds carry only state.
    pub kind: String,
    pub unread: Option<u64>,
    pub notification_id: Option<String>,
    pub title: Option<String>,
    pub body: Option<String>,
    pub url: Option<String>,
    pub online: Option<bool>,
}

/// A notification for the system to show.
pub struct SystemNotification {
    pub title: String,
    pub body: String,
    /// The page the notification is about.
    pub url: Option<String>,
}

/// What the client does after a report of the site.
pub struct SiteEventEffects {
    /// The connection state to record, when the report gives one.
    pub online: Option<bool>,
    /// The unread count to show, when the report gives one.
    pub unread: Option<u64>,
    /// Whether the settings are to be saved.
    pub save_settings: bool,
    /// The notification to show, if any.
    pub notification: Option<SystemNotification>,
}

/// A report about a notification, with the notification's id.
pub open spec fn notification_id_of(e: SiteEvent) -> Option<Seq<char>> {
    if e.kind@ == "notification"@ || e.kind@ == "seedNotification"@ {
        match e.notification_id {
            Some(id) => Some(id@),
            None => None,
        }
    } else {
        None
    }
}

/// Whether the system announces the report's notification: a new
/// notification, not one seen before, with notifications enabled.
pub open spec fn announces(seen: Seq<Seq<char>>, enabled: bool, e: SiteEvent) -> bool {
    match notification_id_of(e) {
        Some(id) => !seen.contains(id) && enabled && e.kind@ == "notification"@,
        None => false,
    }
}

/// Handles a report of the site's page: passes on the connection state and
/// the unread count, remembers a notification id, and says whether the
/// system announces the notification, with the title `Новое уведомление`
/// and an empty body where the report gives none.
pub fn client_event(settings: &mut ClientSettings, event: SiteEvent) -> (res: SiteEventEffects)
    ensures
        res.online == event.online,
        res.unread == event.unread,
        final(settings).notifications == old(settings).notifications,
        final(settings).autostart == old(settings).autostart,
        final(settings).minimize_to_tray == old(settings).minimize_to_tray,
        final(settings).check_updates == old(settings).check_updates,
        match notification_id_of(event) {
            Some(id) => res.save_settings && texts(final(settings).seen_notifications@)
                == remembered(texts(old(settings).seen_notifications@), id),
            None => !res.save_settings && final(settings).seen_notifications@
                == old(settings).seen_notifications@,
        },
        res.notification is Some <==> announces(
            texts(old(settings).seen_notifications@),
            old(settings).notifications,
            event,
        ),
        res.notification matches Some(n) ==> {
            &&& n.title@ == match event.title {
                Some(t) => t@,
                None => "Новое уведомление"@,
            }
            &&& n.body@ == match event.body {
                Some(b) => b@,
                None => Seq::<char>::empty(),
            }
            &&& n.url == event.url
        },
{
    let SiteEvent { kind, unread, notification_id, title, body, url, online } = event;
    let is_notification = same_text(kind.as_str(), "notification");
    let relevant = is_notification || same_text(kind.as_str(), "seedNotification");
    if !relevant {
        return SiteEventEffects { online, unread, save_settings: false, notification: None };
    }
    let id = match notification_id {
        Some(id) => id,
        None => {
            return SiteEventEffects { online, unread, save_settings: false, notification: None };
        },
    };
    let is_new = remember_notification(&mut settings.seen_notifications, id);
    let notification = if is_new && settings.notifications && is_notification {
        let title = match title {
            Some(t) => t,
            None => "Новое уведомление".to_owned(),
        };
        let body = match body {
            Some(b) => b,
            None => String::new(),
        };
        Some(SystemNotification { title, body, url })
    } else {
        None
    };
    SiteEventEffects { online, unread, save_settings: true, notification }
}

/// A notification id is remembered once it arrived, and the list of seen
/// ids grows past [`MAX_SEEN_NOTIFICATIONS`] only when it was longer
/// already.
pub proof fn remembered_ids_stay(seen: Seq<Seq<char>>, id: Seq<char>)
    ensures
        remembered(seen, id).contains(id),
        remembered(seen, id).len() <= if seen.len() > MAX_SEEN_NOTIFICATIONS {
            seen.len()
        } else {
            MAX_SEEN_NOTIFICATIONS as nat
        },
        remembered(remembered(seen, id), id) == remembered(seen, id),
{
    if !seen.contains(id) {
        let s = seen.push(id);
        assert(s[s.len() - 1] == id);
        if s.len() > MAX_SEEN_NOTIFICATIONS {
            assert(s.drop_first()[s.len() - 2] == id);
        }
    }
    assert(remembered(seen, id).contains(id));
}

/// The system announces a notification at most once: handling the same
/// report again, with the ids remembered by the first handling, announces
/// nothing.
pub proof fn notifications_are_announced_once(seen: Seq<Seq<char>>, enabled: bool, e: SiteEvent)
    ensures
        notification_id_of(e) matches Some(id) ==> !announces(remembered(seen, id), enabled, e),
{
    if let Some(id) = notification_id_of(e) {
        remembered_ids_stay(seen, id);
    }
}

} // verus!
