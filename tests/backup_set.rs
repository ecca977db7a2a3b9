use bookmark_backup::backup::{BackupConfig, BackupJob, BackupManager, CopyOutcome};
use bookmark_backup::naming::{backup_file_name, Browser, LocalDateTime};
use bookmark_backup::store::{
    expired_backups, find_release_profile, newest_first, profile_root, zip_entry_name, BackupFile,
    ProfileEntry, DAY_MS,
};

fn at(year: i32, month: u32, day: u32, hour: u32, minute: u32, second: u32) -> LocalDateTime {
    LocalDateTime { year, month, day, hour, minute, second }
}

fn file(name: &str, modified: i64) -> BackupFile {
    BackupFile { name: name.to_string(), path: format!("/b/{}", name), modified, size: 10 }
}

#[test]
fn backup_names_follow_the_stamp_format() {
    let t = at(2025, 1, 31, 23, 59, 9);
    assert_eq!(backup_file_name(Browser::Chrome, &t), "bookmarks_20250131_235909.json");
    assert_eq!(backup_file_name(Browser::Edge, &t), "bookmarks_20250131_235909.json");
    assert_eq!(backup_file_name(Browser::Firefox, &t), "bookmarks_20250131_235909.sqlite");
    assert_eq!(at(7, 2, 3, 4, 5, 6).stamp(), "00070203_040506");
}

#[test]
fn years_outside_four_digits_carry_a_sign() {
    assert_eq!(at(12345, 12, 1, 0, 0, 0).stamp(), "+123451201_000000");
    assert_eq!(at(-1, 1, 1, 0, 0, 0).stamp(), "-00010101_000000");
    assert_eq!(at(i32::MIN, 1, 1, 0, 0, 0).stamp(), "-21474836480101_000000");
}

#[test]
fn same_second_gives_same_name() {
    let t = at(2024, 6, 1, 12, 0, 0);
    assert_eq!(backup_file_name(Browser::Chrome, &t), backup_file_name(Browser::Chrome, &t));
}

#[test]
fn default_config_enables_everything() {
    let c = BackupConfig::default();
    assert!(c.backup_chrome && c.backup_edge && c.backup_firefox);
    assert_eq!(c.enabled_browsers(), vec![Browser::Chrome, Browser::Edge, Browser::Firefox]);
}

#[test]
fn manager_uses_stored_config_or_default() {
    let stored = BackupConfig { backup_chrome: false, backup_edge: true, backup_firefox: false };
    let m = BackupManager::new("/root/b".to_string(), Some(stored));
    assert_eq!(*m.get_config(), stored);
    assert_eq!(m.get_backup_directory(), "/root/b");
    let d = BackupManager::new("/x".to_string(), None);
    assert_eq!(*d.get_config(), BackupConfig::default());
}

#[test]
fn set_config_replaces_config_only() {
    let mut m = BackupManager::new("/root/b".to_string(), None);
    let c = BackupConfig { backup_chrome: true, backup_edge: false, backup_firefox: true };
    m.set_config(c);
    assert_eq!(*m.get_config(), c);
    assert_eq!(m.get_backup_directory(), "/root/b");
}

#[test]
fn jobs_cover_enabled_browsers_in_order() {
    let c = BackupConfig { backup_chrome: true, backup_edge: false, backup_firefox: true };
    let m = BackupManager::new("/b".to_string(), Some(c));
    let jobs = m.backup_jobs_at(&at(2025, 3, 4, 5, 6, 7));
    assert_eq!(jobs.len(), 2);
    assert_eq!(jobs[0].browser, Browser::Chrome);
    assert_eq!(jobs[0].file_name, "bookmarks_20250304_050607.json");
    assert_eq!(jobs[1].browser, Browser::Firefox);
    assert_eq!(jobs[1].file_name, "bookmarks_20250304_050607.sqlite");
    let none = BackupManager::new(
        "/b".to_string(),
        Some(BackupConfig { backup_chrome: false, backup_edge: false, backup_firefox: false }),
    );
    assert!(none.backup_jobs_at(&at(2025, 3, 4, 5, 6, 7)).is_empty());
}

#[test]
fn backup_all_names_files_after_the_current_time() {
    let m = BackupManager::new("/b".to_string(), None);
    let jobs = m.backup_all();
    assert_eq!(jobs.len(), 3);
    assert!(jobs[0].file_name.starts_with("bookmarks_"));
    assert!(jobs[0].file_name.ends_with(".json"));
    assert!(jobs[2].file_name.ends_with(".sqlite"));
    assert_eq!(jobs[0].file_name.len(), "bookmarks_20250304_050607.json".len());
}

#[test]
fn job_results_report_each_outcome() {
    let job = BackupJob { browser: Browser::Firefox, file_name: "bookmarks_x.sqlite".to_string() };
    let ok = job.result(CopyOutcome::Copied);
    assert!(ok.success);
    assert_eq!(ok.browser, "Firefox");
    assert_eq!(ok.message, "Gesichert: bookmarks_x.sqlite");
    let r = job.result(CopyOutcome::ProfileNotFound);
    assert!(!r.success);
    assert_eq!(r.message, "Firefox Profil nicht gefunden");
    assert_eq!(job.result(CopyOutcome::SourceMissing).message, "Favoriten nicht gefunden");
    assert_eq!(
        job.result(CopyOutcome::DirectoryFailed("denied".to_string())).message,
        "Fehler beim Erstellen des Verzeichnisses: denied"
    );
    let failed = job.result(CopyOutcome::CopyFailed("disk full".to_string()));
    assert!(!failed.success);
    assert_eq!(failed.message, "Fehler: disk full");
}

#[test]
fn cleanup_deletes_only_backups_older_than_retention() {
    // "now" is day 41; backups are 0, 10 and 40 days old.
    let now = 41 * DAY_MS;
    let files = vec![file("age0", now), file("age10", now - 10 * DAY_MS), file("age40", now - 40 * DAY_MS)];
    let expired = expired_backups(&files, now, 30);
    assert_eq!(expired, vec![2]);
    assert_eq!(expired.len(), 1);
}

#[test]
fn cleanup_cutoff_is_strict() {
    let now = 100 * DAY_MS;
    let files = vec![file("edge", now - 30 * DAY_MS), file("older", now - 30 * DAY_MS - 1)];
    assert_eq!(expired_backups(&files, now, 30), vec![1]);
    assert_eq!(expired_backups(&files, now, 0), vec![0, 1]);
    assert!(expired_backups(&vec![], now, 30).is_empty());
}

#[test]
fn cleanup_handles_extreme_retention() {
    let files = vec![file("a", i64::MIN), file("b", i64::MAX)];
    assert_eq!(expired_backups(&files, 0, i64::MAX), Vec::<usize>::new());
    assert_eq!(expired_backups(&files, 0, i64::MIN), vec![0, 1]);
}

#[test]
fn listing_is_newest_first() {
    let listed = newest_first(vec![file("t2", 2000), file("t1", 1000), file("t3", 3000)]);
    let names: Vec<&str> = listed.iter().map(|f| f.name.as_str()).collect();
    assert_eq!(names, vec!["t3", "t2", "t1"]);
    assert!(newest_first(vec![]).is_empty());
}

#[test]
fn listing_keeps_every_file() {
    let listed = newest_first(vec![file("a", 5), file("b", 5), file("c", 7), file("d", -1)]);
    assert_eq!(listed.len(), 4);
    let mut names: Vec<String> = listed.iter().map(|f| f.name.clone()).collect();
    assert_eq!(names[0], "c");
    assert_eq!(names[3], "d");
    names.sort();
    assert_eq!(names, vec!["a", "b", "c", "d"]);
}

#[test]
fn release_profile_is_first_matching_directory() {
    let entries = vec![
        ProfileEntry { path: "/p/abc.default".to_string(), is_dir: true },
        ProfileEntry { path: "/p/file.default-release".to_string(), is_dir: false },
        ProfileEntry { path: "/p/xyz.default-release".to_string(), is_dir: true },
        ProfileEntry { path: "/p/second.default-release".to_string(), is_dir: true },
    ];
    assert_eq!(find_release_profile(&entries), Some(2));
    assert_eq!(find_release_profile(&entries[..2].to_vec()), None);
    assert_eq!(find_release_profile(&vec![]), None);
}

#[test]
fn zip_entries_are_browser_slash_file() {
    assert_eq!(zip_entry_name("Chrome", "bookmarks_1.json"), "Chrome/bookmarks_1.json");
}

#[test]
fn profile_root_falls_back_in_order() {
    assert_eq!(profile_root(Some("P".to_string()), Some("H".to_string())), "P");
    assert_eq!(profile_root(None, Some("H".to_string())), "H");
    assert_eq!(profile_root(None, None), "C:\\");
}

#[test]
fn browsers_by_name() {
    assert_eq!(Browser::from_name("Chrome"), Some(Browser::Chrome));
    assert_eq!(Browser::from_name("Edge"), Some(Browser::Edge));
    assert_eq!(Browser::from_name("Firefox"), Some(Browser::Firefox));
    assert_eq!(Browser::from_name("Opera"), None);
    assert_eq!(Browser::from_name("chrome"), None);
    assert_eq!(Browser::all(), vec![Browser::Chrome, Browser::Edge, Browser::Firefox]);
    assert_eq!(Browser::Edge.name(), "Edge");
}
