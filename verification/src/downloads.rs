//! The download history: the newest download first, at most
//! [`MAX_DOWNLOAD_HISTORY`] of them, each with its status and progress.

use vstd::prelude::*;

use crate::links::{downloadable, is_downloadable_url, suggested_filename, suggested_name, UrlView, WebUrl};
use crate::text::{decimal, decimal_chars, same_text, string_of};

verus! {

/// How many downloads the history keeps.
pub const MAX_DOWNLOAD_HISTORY: usize = 200;

/// One download of the history.
#[derive(Clone, Debug)]
pub struct DownloadItem {
    pub id: String,
    pub file_name: String,
    pub source_url: String,
    pub destination: String,
    /// `queued`, `downloading`, `completed`, `failed` or `cancelled`.
    pub status: String,
    pub downloaded_bytes: u64,
    pub total_bytes: Option<u64>,
    pub error: Option<String>,
    /// Seconds since the Unix epoch.
    pub created_at: u64,
}

/// A download, as text and numbers.
pub struct DownloadView {
    pub id: Seq<char>,
    pub file_name: Seq<char>,
    pub source_url: Seq<char>,
    pub destination: Seq<char>,
    pub status: Seq<char>,
    pub downloaded_bytes: u64,
    pub total_bytes: Option<u64>,
    pub error: Option<Seq<char>>,
    pub created_at: u64,
}

impl View for DownloadItem {
    type V = DownloadView;

    open spec fn view(&self) -> DownloadView {
        DownloadView {
            id: self.id@,
            file_name: self.file_name@,
            source_url: self.source_url@,
            destination: self.destination@,
            status: self.status@,
            downloaded_bytes: self.downloaded_bytes,
            total_bytes: self.total_bytes,
            error: crate::links::opt_view(self.error),
            created_at: self.created_at,
        }
    }
}

/// The views of the history's entries.
pub open spec fn history_view(items: Seq<DownloadItem>) -> Seq<DownloadView> {
    items.map_values(|d: DownloadItem| d@)
}

/// The history after a new download is recorded: it comes first, and only
/// the newest [`MAX_DOWNLOAD_HISTORY`] entries stay.
pub open spec fn with_new_download(h: Seq<DownloadView>, d: DownloadView) -> Seq<DownloadView> {
    let all = seq![d] + h;
    if all.len() <= MAX_DOWNLOAD_HISTORY {
        all
    } else {
        all.take(MAX_DOWNLOAD_HISTORY as int)
    }
}

/// Records a new download at the front of the history.
pub fn record_download(downloads: &mut Vec<DownloadItem>, item: DownloadItem)
    ensures
        history_view(final(downloads)@) == with_new_download(history_view(old(downloads)@), item@),
{
    let ghost d = item@;
    downloads.insert(0, item);
    assert(history_view(downloads@) =~= seq![d] + history_view(old(downloads)@));
    downloads.truncate(MAX_DOWNLOAD_HISTORY);
    assert(history_view(downloads@) =~= with_new_download(history_view(old(downloads)@), d));
}

/// The index of the first download with the given id.
pub open spec fn first_with_id(h: Seq<DownloadView>, id: Seq<char>) -> Option<int>
    decreases h.len(),
{
    if h.len() == 0 {
        None
    } else if h[0].id == id {
        Some(0)
    } else {
        match first_with_id(h.drop_first(), id) {
            Some(i) => Some(i + 1),
            None => None,
        }
    }
}

proof fn lemma_first_with_id(h: Seq<DownloadView>, id: Seq<char>)
    ensures
        match first_with_id(h, id) {
            Some(i) => 0 <= i < h.len() && h[i].id == id && forall|j: int|
                0 <= j < i ==> h[j].id != id,
            None => forall|j: int| 0 <= j < h.len() ==> h[j].id != id,
        },
    decreases h.len(),
{
    if h.len() > 0 {
        lemma_first_with_id(h.drop_first(), id);
        if h[0].id != id {
            match first_with_id(h.drop_first(), id) {
                Some(i) => {
                    assert forall|j: int| 0 <= j < i + 1 implies h[j].id != id by {
                        if j > 0 {
                            assert(h[j] == h.drop_first()[j - 1]);
                        }
                    }
                },
                None => {
                    assert forall|j: int| 0 <= j < h.len() implies h[j].id != id by {
                        if j > 0 {
                            assert(h[j] == h.drop_first()[j - 1]);
                        }
                    }
                },
            }
        }
    }
}

/// Finds the first download with the given id.
pub fn find_download(downloads: &Vec<DownloadItem>, id: &str) -> (res: Option<usize>)
    ensures
        match res {
            Some(i) => first_with_id(history_view(downloads@), id@) == Some(i as int),
            None => first_with_id(history_view(downloads@), id@) is None,
        },
{
    let ghost h = history_view(downloads@);
    proof {
        lemma_first_with_id(h, id@);
    }
    let n = downloads.len();
    for i in 0..n
        invariant
            n == downloads@.len(),
            h == history_view(downloads@),
            match first_with_id(h, id@) {
                Some(k) => 0 <= k < h.len() && h[k].id == id@ && forall|j: int|
                    0 <= j < k ==> h[j].id != id@,
                None => forall|j: int| 0 <= j < h.len() ==> h[j].id != id@,
            },
            forall|j: int| 0 <= j < i ==> h[j].id != id@,
    {
        if same_text(downloads[i].id.as_str(), id) {
            assert(h[i as int].id == id@);
            return Some(i);
        }
        assert(h[i as int].id != id@);
    }
    None
}

} // verus!

verus! {

/// A change to one download of the history.
pub enum DownloadChange {
    /// The server answered; `total` is the announced size.
    Started { total: Option<u64> },
    /// This many bytes are on disk.
    Progress { downloaded: u64 },
    /// The download finished with this many bytes.
    Completed { downloaded: u64 },
    /// The download stopped early: cancelled by the user, or failed with
    /// `error`.
    Stopped { cancelled: bool, error: String },
}

/// A download after a change.
pub open spec fn changed(d: DownloadView, c: DownloadChange) -> DownloadView {
    match c {
        DownloadChange::Started { total } => DownloadView {
            status: "downloading"@,
            total_bytes: total,
            ..d
        },
        DownloadChange::Progress { downloaded } => DownloadView { downloaded_bytes: downloaded, ..d },
        DownloadChange::Completed { downloaded } => DownloadView {
            status: "completed"@,
            downloaded_bytes: downloaded,
            error: None,
            ..d
        },
        DownloadChange::Stopped { cancelled, error } => if cancelled {
            DownloadView { status: "cancelled"@, error: None, ..d }
        } else {
            DownloadView { status: "failed"@, error: Some(error@), ..d }
        },
    }
}

/// The history after a change to the download with the given id: only the
/// first download with that id changes; with none, nothing does.
pub open spec fn with_change(h: Seq<DownloadView>, id: Seq<char>, c: DownloadChange) -> Seq<DownloadView> {
    match first_with_id(h, id) {
        Some(i) => h.update(i, changed(h[i], c)),
        None => h,
    }
}

/// Applies a change to the download with the given id.
pub fn update_download(downloads: &mut Vec<DownloadItem>, id: &str, change: DownloadChange)
    ensures
        history_view(final(downloads)@) == with_change(history_view(old(downloads)@), id@, change),
{
    proof {
        lemma_first_with_id(history_view(downloads@), id@);
    }
    match find_download(downloads, id) {
        Some(i) => {
            let ghost c = change;
            let mut item = downloads.remove(i);
            match change {
                DownloadChange::Started { total } => {
                    item.status = "downloading".to_owned();
                    item.total_bytes = total;
                },
                DownloadChange::Progress { downloaded } => {
                    item.downloaded_bytes = downloaded;
                },
                DownloadChange::Completed { downloaded } => {
                    item.status = "completed".to_owned();
                    item.downloaded_bytes = downloaded;
                    item.error = None;
                },
                DownloadChange::Stopped { cancelled, error } => {
                    if cancelled {
                        item.status = "cancelled".to_owned();
                        item.error = None;
                    } else {
                        item.status = "failed".to_owned();
                        item.error = Some(error);
                    }
                },
            }
            assert(item@ == changed(history_view(old(downloads)@)[i as int], c));
            downloads.insert(i, item);
            assert(history_view(downloads@) =~= history_view(old(downloads)@).update(
                i as int,
                changed(history_view(old(downloads)@)[i as int], c),
            ));
        },
        None => {},
    }
}

/// A download that is still running: `queued` or `downloading`.
pub open spec fn is_active(status: Seq<char>) -> bool {
    status == "queued"@ || status == "downloading"@
}

/// The downloads that are still running, in order.
pub open spec fn active_only(h: Seq<DownloadView>) -> Seq<DownloadView>
    decreases h.len(),
{
    if h.len() == 0 {
        h
    } else if is_active(h[0].status) {
        seq![h[0]] + active_only(h.drop_first())
    } else {
        active_only(h.drop_first())
    }
}

/// Forgets the downloads that have ended.
pub fn clear_download_history(downloads: &mut Vec<DownloadItem>)
    ensures
        history_view(final(downloads)@) == active_only(history_view(old(downloads)@)),
{
    let mut rest: Vec<DownloadItem> = Vec::new();
    std::mem::swap(downloads, &mut rest);
    let ghost all = history_view(rest@);
    let mut kept: Vec<DownloadItem> = Vec::new();
    assert(history_view(kept@) + active_only(history_view(rest@)) =~= active_only(all));
    while rest.len() > 0
        invariant
            active_only(all) == history_view(kept@) + active_only(history_view(rest@)),
        decreases rest@.len(),
    {
        let ghost before = history_view(rest@);
        let item = rest.remove(0);
        assert(history_view(rest@) =~= before.drop_first());
        let active = same_text(item.status.as_str(), "queued") || same_text(item.status.as_str(), "downloading");
        let ghost kept_before = history_view(kept@);
        if active {
            kept.push(item);
            assert(history_view(kept@) =~= kept_before.push(before[0]));
            assert(kept_before + (seq![before[0]] + active_only(before.drop_first())) =~= history_view(kept@) + active_only(before.drop_first()));
        }
    }
    assert(history_view(kept@) + Seq::<DownloadView>::empty() =~= history_view(kept@));
    *downloads = kept;
}

/// Where the download with the given id is saved.
pub fn download_destination(downloads: &Vec<DownloadItem>, id: &str) -> (res: Result<String, String>)
    ensures
        match first_with_id(history_view(downloads@), id@) {
            Some(i) => res == Ok::<String, String>(downloads@[i].destination),
            None => res matches Err(e) && e@ == "Загрузка не найдена"@,
        },
{
    proof {
        lemma_first_with_id(history_view(downloads@), id@);
    }
    match find_download(downloads, id) {
        Some(i) => Ok(downloads[i].destination.clone()),
        None => Err("Загрузка не найдена".to_owned()),
    }
}

} // verus!

verus! {

/// How many new bytes make a running download report its progress again.
pub const PROGRESS_STEP: u64 = 262144;

/// The byte count of a running download and when it was last reported.
pub struct DownloadProgress {
    pub downloaded: u64,
    pub last_reported: u64,
    pub total: Option<u64>,
}

/// Whether progress is reported after a chunk: a full step since the last
/// report, or the announced size reached.
pub open spec fn reports_progress(downloaded: u64, last_reported: u64, total: Option<u64>) -> bool {
    (if downloaded >= last_reported {
        downloaded - last_reported
    } else {
        0
    }) >= PROGRESS_STEP || total == Some(downloaded)
}

impl DownloadProgress {
    /// A download that has written nothing yet.
    pub fn new(total: Option<u64>) -> (res: DownloadProgress)
        ensures
            res.downloaded == 0,
            res.last_reported == 0,
            res.total == total,
    {
        DownloadProgress { downloaded: 0, last_reported: 0, total }
    }

    /// Counts a chunk of `read` bytes that was written; true when the
    /// progress is to be reported now.
    pub fn record_chunk(&mut self, read: u64) -> (report: bool)
        requires
            old(self).downloaded + read <= u64::MAX,
        ensures
            final(self).downloaded == old(self).downloaded + read,
            final(self).total == old(self).total,
            report == reports_progress(final(self).downloaded, old(self).last_reported, old(self).total),
            final(self).last_reported == if report {
                final(self).downloaded
            } else {
                old(self).last_reported
            },
            *final(self) == progress_after(*old(self), read),
            report == reported_after(*old(self), read),
    {
        self.downloaded = self.downloaded + read;
        let since = self.downloaded.saturating_sub(self.last_reported);
        let report = since >= PROGRESS_STEP || self.total == Some(self.downloaded);
        if report {
            self.last_reported = self.downloaded;
        }
        report
    }
}

/// The progress after a chunk of `read` bytes was written.
pub open spec fn progress_after(p: DownloadProgress, read: u64) -> DownloadProgress {
    let downloaded = (p.downloaded + read) as u64;
    DownloadProgress {
        downloaded,
        last_reported: if reports_progress(downloaded, p.last_reported, p.total) {
            downloaded
        } else {
            p.last_reported
        },
        total: p.total,
    }
}

/// Whether the chunk of `read` bytes makes a report.
pub open spec fn reported_after(p: DownloadProgress, read: u64) -> bool {
    reports_progress((p.downloaded + read) as u64, p.last_reported, p.total)
}

/// The number of bytes of a list of chunks.
pub open spec fn bytes_of(reads: Seq<u64>) -> nat
    decreases reads.len(),
{
    if reads.len() == 0 {
        0
    } else {
        (reads[0] + bytes_of(reads.drop_first())) as nat
    }
}

/// The progress after a list of chunks.
pub open spec fn progress_through(p: DownloadProgress, reads: Seq<u64>) -> DownloadProgress
    decreases reads.len(),
{
    if reads.len() == 0 {
        p
    } else {
        progress_through(progress_after(p, reads[0]), reads.drop_first())
    }
}

/// The byte counts that a list of chunks reports, in order.
pub open spec fn reports_through(p: DownloadProgress, reads: Seq<u64>) -> Seq<u64>
    decreases reads.len(),
{
    if reads.len() == 0 {
        Seq::<u64>::empty()
    } else if reported_after(p, reads[0]) {
        seq![progress_after(p, reads[0]).downloaded] + reports_through(
            progress_after(p, reads[0]),
            reads.drop_first(),
        )
    } else {
        reports_through(progress_after(p, reads[0]), reads.drop_first())
    }
}

proof fn lemma_progress_reports(p: DownloadProgress, reads: Seq<u64>)
    requires
        p.last_reported <= p.downloaded,
        forall|i: int| 0 <= i < reads.len() ==> reads[i] > 0,
        p.downloaded + bytes_of(reads) <= u64::MAX,
    ensures
        ({
            let r = reports_through(p, reads);
            let end = progress_through(p, reads);
            &&& end.downloaded == p.downloaded + bytes_of(reads)
            &&& end.last_reported <= end.downloaded
            &&& end.total == p.total
            &&& r.len() > 0 ==> r[0] - p.last_reported >= PROGRESS_STEP || p.total == Some(r[0])
            &&& forall|k: int| 0 <= k < r.len() ==> p.downloaded < #[trigger] r[k] <= end.downloaded
            &&& forall|k: int|
                0 < k < r.len() ==> r[k - 1] < #[trigger] r[k] && (r[k] - r[k - 1]
                    >= PROGRESS_STEP || p.total == Some(r[k]))
            &&& forall|k: int|
                0 <= k < r.len() ==> exists|j: int|
                    1 <= j <= reads.len() && #[trigger] r[k] == p.downloaded + bytes_of(
                        reads.take(j),
                    )
        }),
    decreases reads.len(),
{
    if reads.len() > 0 {
        let q = progress_after(p, reads[0]);
        let rest = reads.drop_first();
        assert forall|i: int| 0 <= i < rest.len() implies rest[i] > 0 by {
            assert(rest[i] == reads[i + 1]);
        }
        lemma_progress_reports(q, rest);
        let r2 = reports_through(q, rest);
        let r = reports_through(p, reads);
        assert forall|j: int| 0 <= j <= rest.len() implies bytes_of(#[trigger] reads.take(j + 1))
            == reads[0] + bytes_of(rest.take(j)) by {
            assert(reads.take(j + 1)[0] == reads[0]);
            assert(reads.take(j + 1).drop_first() =~= rest.take(j));
        }
        assert(bytes_of(reads.take(1)) == reads[0]) by {
            assert(reads.take(1).drop_first() =~= rest.take(0));
            assert(rest.take(0) =~= Seq::<u64>::empty());
        }
        if reported_after(p, reads[0]) {
            assert(r == seq![q.downloaded] + r2);
            assert forall|k: int| 0 <= k < r.len() implies exists|j: int|
                1 <= j <= reads.len() && #[trigger] r[k] == p.downloaded + bytes_of(reads.take(j)) by {
                if k == 0 {
                    assert(r[0] == p.downloaded + bytes_of(reads.take(1)));
                } else {
                    assert(r[k] == r2[k - 1]);
                    let j2 = choose|j: int|
                        1 <= j <= rest.len() && #[trigger] r2[k - 1] == q.downloaded + bytes_of(rest.take(j));
                    assert(r[k] == p.downloaded + bytes_of(reads.take(j2 + 1)));
                }
            }
            assert forall|k: int| 0 < k < r.len() implies r[k - 1] < #[trigger] r[k] && (r[k] - r[k - 1]
                >= PROGRESS_STEP || p.total == Some(r[k])) by {
                assert(r[k] == r2[k - 1]);
                if k > 1 {
                    assert(r[k - 1] == r2[k - 2]);
                }
            }
            assert forall|k: int| 0 <= k < r.len() implies p.downloaded < #[trigger] r[k] <= progress_through(p, reads).downloaded by {
                if k > 0 {
                    assert(r[k] == r2[k - 1]);
                }
            }
        } else {
            assert(r == r2);
            assert forall|k: int| 0 <= k < r.len() implies exists|j: int|
                1 <= j <= reads.len() && #[trigger] r[k] == p.downloaded + bytes_of(reads.take(j)) by {
                let j2 = choose|j: int|
                    1 <= j <= rest.len() && #[trigger] r2[k] == q.downloaded + bytes_of(rest.take(j));
                assert(r[k] == p.downloaded + bytes_of(reads.take(j2 + 1)));
            }
        }
    }
}

/// The progress reports of a whole download, from nothing written, over
/// chunks of at least one byte each: every report gives the bytes written up
/// to some chunk; each grows on the one before by at least
/// [`PROGRESS_STEP`] (the first on zero), or has reached the announced
/// total; and the count at the end, that of all chunks, is at least every
/// report.
pub proof fn download_progress_reports(total: Option<u64>, reads: Seq<u64>)
    requires
        forall|i: int| 0 <= i < reads.len() ==> reads[i] > 0,
        bytes_of(reads) <= u64::MAX,
    ensures
        ({
            let start = DownloadProgress { downloaded: 0, last_reported: 0, total };
            let r = reports_through(start, reads);
            let end = progress_through(start, reads);
            &&& end.downloaded == bytes_of(reads)
            &&& forall|k: int|
                0 <= k < r.len() ==> exists|j: int|
                    1 <= j <= reads.len() && #[trigger] r[k] == bytes_of(reads.take(j))
            &&& r.len() > 0 ==> r[0] >= PROGRESS_STEP || total == Some(r[0])
            &&& forall|k: int|
                0 < k < r.len() ==> r[k - 1] < #[trigger] r[k] && (r[k] - r[k - 1]
                    >= PROGRESS_STEP || total == Some(r[k]))
            &&& forall|k: int| 0 <= k < r.len() ==> 0 < #[trigger] r[k] <= end.downloaded
        }),
{
    let start = DownloadProgress { downloaded: 0, last_reported: 0, total };
    lemma_progress_reports(start, reads);
}

/// Each chunk makes a report exactly when the count has grown by at least
/// [`PROGRESS_STEP`] since the last report or reached the total, and a
/// report records the new count.
pub proof fn progress_reports_follow_the_step(p: DownloadProgress, read: u64)
    requires
        p.last_reported <= p.downloaded,
        p.downloaded + read <= u64::MAX,
    ensures
        reported_after(p, read) <==> (p.downloaded + read - p.last_reported >= PROGRESS_STEP
            || p.total == Some((p.downloaded + read) as u64)),
        reported_after(p, read) ==> progress_after(p, read).last_reported == p.downloaded + read,
        !reported_after(p, read) ==> progress_after(p, read).last_reported == p.last_reported,
        progress_after(p, read).downloaded == p.downloaded + read,
{
}

/// Whether a download goes on: a cancelled one stops with the message
/// `Загрузка отменена`.
pub fn check_cancelled(cancelled: bool) -> (res: Result<(), String>)
    ensures
        res is Ok <==> !cancelled,
        res matches Err(e) ==> e@ == "Загрузка отменена"@,
{
    if cancelled {
        Err("Загрузка отменена".to_owned())
    } else {
        Ok(())
    }
}

/// The id of a download: the time in seconds, `-`, and the number of
/// downloads started before it in this run.
pub fn download_id(seconds: u64, sequence: u64) -> (res: String)
    ensures
        res@ == decimal(seconds as nat) + seq!['-'] + decimal(sequence as nat),
{
    let mut out = decimal_chars(seconds);
    out.push('-');
    let digits = decimal_chars(sequence);
    let ghost head = out@;
    let n = digits.len();
    for i in 0..n
        invariant
            n == digits@.len(),
            out@ == head + digits@.take(i as int),
    {
        out.push(digits[i]);
        assert(digits@.take(i + 1) =~= digits@.take(i as int).push(digits@[i as int]));
        assert(head + digits@.take(i + 1) =~= (head + digits@.take(i as int)).push(digits@[i as int]));
    }
    assert(digits@.take(n as int) =~= digits@);
    string_of(out.as_slice())
}

/// Refuses to download anything but HTTP(S) addresses.
pub fn check_download_url(url: &WebUrl) -> (res: Result<(), String>)
    ensures
        res is Ok <==> downloadable(url@),
        res matches Err(e) ==> e@ == "Разрешены только HTTP(S)-ссылки"@,
{
    if is_downloadable_url(url) {
        Ok(())
    } else {
        Err("Разрешены только HTTP(S)-ссылки".to_owned())
    }
}

/// The name a download is saved under: the one the server gave, else the
/// one the address suggests.
pub fn download_file_name(remote: Option<String>, url: &WebUrl) -> (res: String)
    ensures
        res@ == match remote {
            Some(r) => r@,
            None => suggested_name(url@),
        },
{
    match remote {
        Some(name) => name,
        None => suggested_filename(url),
    }
}

/// A new download, waiting to start.
pub fn queued_download(
    id: String,
    file_name: String,
    source_url: String,
    destination: String,
    created_at: u64,
) -> (res: DownloadItem)
    ensures
        res.id == id,
        res.file_name == file_name,
        res.source_url == source_url,
        res.destination == destination,
        res.status@ == "queued"@,
        res.downloaded_bytes == 0,
        res.total_bytes is None,
        res.error is None,
        res.created_at == created_at,
{
    DownloadItem {
        id,
        file_name,
        source_url,
        destination,
        status: "queued".to_owned(),
        downloaded_bytes: 0,
        total_bytes: None,
        error: None,
        created_at,
    }
}

/// The history never holds more than [`MAX_DOWNLOAD_HISTORY`] downloads once
/// one is recorded, and the new one comes first.
pub proof fn history_stays_bounded(h: Seq<DownloadView>, d: DownloadView)
    ensures
        with_new_download(h, d).len() <= MAX_DOWNLOAD_HISTORY,
        with_new_download(h, d)[0] == d,
        h.len() < MAX_DOWNLOAD_HISTORY ==> with_new_download(h, d).len() == h.len() + 1,
{
}

/// A change touches at most one download, keeps the length of the history
/// and every id in it.
pub proof fn change_touches_one_download(h: Seq<DownloadView>, id: Seq<char>, c: DownloadChange)
    ensures
        with_change(h, id, c).len() == h.len(),
        forall|j: int| 0 <= j < h.len() ==> #[trigger] with_change(h, id, c)[j].id == h[j].id,
        forall|j: int|
            0 <= j < h.len() && h[j].id != id ==> #[trigger] with_change(h, id, c)[j] == h[j],
{
    lemma_first_with_id(h, id);
}

/// A stopped download records its error only when it failed; a cancelled
/// one has none.
pub proof fn stopped_downloads_explain_failures(d: DownloadView, cancelled: bool, error: String)
    ensures
        cancelled ==> changed(d, DownloadChange::Stopped { cancelled, error }).status == "cancelled"@
            && changed(d, DownloadChange::Stopped { cancelled, error }).error is None,
        !cancelled ==> changed(d, DownloadChange::Stopped { cancelled, error }).status == "failed"@
            && changed(d, DownloadChange::Stopped { cancelled, error }).error == Some(error@),
{
}

/// Clearing the history keeps exactly the running downloads, in order.
pub proof fn clearing_keeps_running_downloads(h: Seq<DownloadView>)
    ensures
        forall|j: int| 0 <= j < active_only(h).len() ==> is_active(#[trigger] active_only(h)[j].status),
        active_only(h).len() <= h.len(),
        forall|j: int| 0 <= j < h.len() && is_active(h[j].status) ==> active_only(h).contains(h[j]),
    decreases h.len(),
{
    if h.len() > 0 {
        clearing_keeps_running_downloads(h.drop_first());
        let r = active_only(h.drop_first());
        if is_active(h[0].status) {
            assert forall|j: int| 0 <= j < active_only(h).len() implies is_active(#[trigger] active_only(h)[j].status) by {
                if j > 0 {
                    assert(active_only(h)[j] == r[j - 1]);
                }
            }
            assert forall|j: int| 0 <= j < h.len() && is_active(h[j].status) implies active_only(h).contains(h[j]) by {
                if j == 0 {
                    assert(active_only(h)[0] == h[0]);
                } else {
                    assert(h[j] == h.drop_first()[j - 1]);
                    let k = choose|k: int| 0 <= k < r.len() && r[k] == h[j];
                    assert(active_only(h)[k + 1] == h[j]);
                }
            }
        } else {
            assert forall|j: int| 0 <= j < h.len() && is_active(h[j].status) implies active_only(h).contains(h[j]) by {
                assert(j != 0);
                assert(h[j] == h.drop_first()[j - 1]);
            }
        }
    }
}

} // verus!
