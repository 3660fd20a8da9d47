use ebloid::downloads::{
    check_cancelled, check_download_url, clear_download_history, download_destination, download_file_name,
    download_id, queued_download, record_download, update_download, DownloadChange,
    DownloadItem, DownloadProgress, MAX_DOWNLOAD_HISTORY, PROGRESS_STEP,
};
use ebloid::links::WebUrl;

fn item(id: &str) -> DownloadItem {
    queued_download(
        id.to_string(),
        format!("{id}.bin"),
        format!("https://eblo.id/{id}.bin"),
        format!("/home/u/Downloads/{id}.bin"),
        10,
    )
}

#[test]
fn newest_download_comes_first_and_history_is_capped() {
    let mut history = Vec::new();
    for i in 0..(MAX_DOWNLOAD_HISTORY + 5) {
        record_download(&mut history, item(&i.to_string()));
    }
    assert_eq!(history.len(), MAX_DOWNLOAD_HISTORY);
    assert_eq!(history[0].id, (MAX_DOWNLOAD_HISTORY + 4).to_string());
    assert_eq!(history[MAX_DOWNLOAD_HISTORY - 1].id, "5");
    assert_eq!(history[0].status, "queued");
}

#[test]
fn changes_apply_to_the_first_download_with_the_id() {
    let mut history = vec![item("a"), item("b"), item("a")];
    update_download(&mut history, "a", DownloadChange::Started { total: Some(100) });
    assert_eq!(history[0].status, "downloading");
    assert_eq!(history[0].total_bytes, Some(100));
    assert_eq!(history[2].status, "queued");
    update_download(&mut history, "a", DownloadChange::Progress { downloaded: 40 });
    assert_eq!(history[0].downloaded_bytes, 40);
    update_download(&mut history, "b", DownloadChange::Stopped { cancelled: false, error: "timeout".into() });
    assert_eq!(history[1].status, "failed");
    assert_eq!(history[1].error.as_deref(), Some("timeout"));
    update_download(&mut history, "a", DownloadChange::Stopped { cancelled: true, error: "x".into() });
    assert_eq!(history[0].status, "cancelled");
    assert_eq!(history[0].error, None);
    update_download(&mut history, "a", DownloadChange::Completed { downloaded: 100 });
    assert_eq!(history[0].status, "completed");
    assert_eq!(history[0].downloaded_bytes, 100);
    update_download(&mut history, "zzz", DownloadChange::Completed { downloaded: 1 });
    assert_eq!(history.len(), 3);
}

#[test]
fn clearing_keeps_running_downloads() {
    let mut history = vec![item("a"), item("b"), item("c"), item("d")];
    update_download(&mut history, "a", DownloadChange::Completed { downloaded: 1 });
    update_download(&mut history, "b", DownloadChange::Started { total: None });
    update_download(&mut history, "d", DownloadChange::Stopped { cancelled: true, error: String::new() });
    clear_download_history(&mut history);
    let ids: Vec<&str> = history.iter().map(|d| d.id.as_str()).collect();
    assert_eq!(ids, vec!["b", "c"]);
}

#[test]
fn finds_destinations_by_id() {
    let history = vec![item("a"), item("b")];
    assert_eq!(download_destination(&history, "b").as_deref(), Ok("/home/u/Downloads/b.bin"));
    assert_eq!(
        download_destination(&history, "c").err().as_deref(),
        Some("Загрузка не найдена")
    );
}

#[test]
fn reports_progress_in_steps_and_at_the_end() {
    let mut p = DownloadProgress::new(Some(PROGRESS_STEP + 10));
    assert!(!p.record_chunk(1000));
    assert!(!p.record_chunk(PROGRESS_STEP - 1001));
    assert!(p.record_chunk(1));
    assert_eq!(p.last_reported, PROGRESS_STEP);
    assert!(!p.record_chunk(5));
    assert!(p.record_chunk(5));
    assert_eq!(p.downloaded, PROGRESS_STEP + 10);
    let mut q = DownloadProgress::new(None);
    assert!(!q.record_chunk(0));
}

#[test]
fn names_ids_and_checks_downloads() {
    assert_eq!(download_id(1700000000, 0), "1700000000-0");
    assert_eq!(download_id(5, 42), "5-42");
    let u = WebUrl::parse("https://eblo.id/media/song.mp3").unwrap();
    assert_eq!(check_download_url(&u), Ok(()));
    let m = WebUrl::parse("mailto:a@b.c").unwrap();
    assert_eq!(
        check_download_url(&m).err().as_deref(),
        Some("Разрешены только HTTP(S)-ссылки")
    );
    assert_eq!(download_file_name(None, &u), "song.mp3");
    assert_eq!(download_file_name(Some("given.mp3".into()), &u), "given.mp3");
}

#[test]
fn reports_of_a_whole_download_follow_the_step() {
    let chunks = [100_000u64, 100_000, 100_000, 50_000, 300_000, 10];
    let total: u64 = chunks.iter().sum();
    let mut p = DownloadProgress::new(Some(total));
    let mut reports = Vec::new();
    for c in chunks {
        if p.record_chunk(c) {
            reports.push(p.downloaded);
        }
    }
    assert_eq!(reports, vec![300_000, 650_000, 650_010]);
    assert_eq!(p.downloaded, total);
}

#[test]
fn cancelled_downloads_stop() {
    assert_eq!(check_cancelled(false), Ok(()));
    assert_eq!(check_cancelled(true).err().as_deref(), Some("Загрузка отменена"));
}
