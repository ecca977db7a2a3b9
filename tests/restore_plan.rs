use std::collections::HashMap;

use bookmark_backup::naming::Browser;
use bookmark_backup::restore::{restore_plan, RestoreError, RestorePlan};

fn run(files: &mut HashMap<String, Vec<u8>>, plan: &RestorePlan) {
    for c in &plan.copies {
        let content = files.get(&c.from).expect("source exists").clone();
        files.insert(c.to.clone(), content);
    }
}

#[test]
fn restore_keeps_previous_live_file_as_bak() {
    let mut files = HashMap::new();
    files.insert("live/Bookmarks".to_string(), b"before".to_vec());
    files.insert("backups/Chrome/b1.json".to_string(), b"chosen".to_vec());
    let plan = restore_plan(Browser::Chrome, "live/Bookmarks", true, "live/Bookmarks.bak", "backups/Chrome/b1.json");
    assert_eq!(plan.copies.len(), 2);
    run(&mut files, &plan);
    assert_eq!(files["live/Bookmarks.bak"], b"before".to_vec());
    assert_eq!(files["live/Bookmarks"], b"chosen".to_vec());
    assert_eq!(plan.message, "Chrome Favoriten erfolgreich wiederhergestellt");
}

#[test]
fn restore_without_live_file_only_copies_backup() {
    let mut files = HashMap::new();
    files.insert("b.sqlite".to_string(), b"db".to_vec());
    let plan = restore_plan(Browser::Firefox, "p/places.sqlite", false, "p/places.bak", "b.sqlite");
    assert_eq!(plan.copies.len(), 1);
    assert_eq!(plan.copies[0].from, "b.sqlite");
    assert_eq!(plan.copies[0].to, "p/places.sqlite");
    run(&mut files, &plan);
    assert_eq!(files["p/places.sqlite"], b"db".to_vec());
    assert!(!files.contains_key("p/places.bak"));
    assert_eq!(
        plan.message,
        "Firefox Favoriten erfolgreich wiederhergestellt\n(Firefox muss neu gestartet werden)"
    );
}

#[test]
fn second_restore_overwrites_the_single_bak() {
    let mut files = HashMap::new();
    files.insert("t".to_string(), b"v0".to_vec());
    files.insert("b1".to_string(), b"v1".to_vec());
    files.insert("b2".to_string(), b"v2".to_vec());
    run(&mut files, &restore_plan(Browser::Edge, "t", true, "t.bak", "b1"));
    run(&mut files, &restore_plan(Browser::Edge, "t", true, "t.bak", "b2"));
    assert_eq!(files["t.bak"], b"v1".to_vec());
    assert_eq!(files["t"], b"v2".to_vec());
}

#[test]
fn restore_error_messages() {
    assert_eq!(RestoreError::NoUserProfile.message(), "USERPROFILE environment variable not found");
    assert_eq!(RestoreError::UnknownBrowser.message(), "Unbekannter Browser");
    assert_eq!(RestoreError::ProfileNotFound(Browser::Firefox).message(), "Firefox Profil nicht gefunden");
    assert_eq!(
        RestoreError::SafetyCopyFailed("locked".to_string()).message(),
        "Fehler beim Sichern der aktuellen Datei: locked"
    );
    assert_eq!(
        RestoreError::RestoreFailed("locked".to_string()).message(),
        "Fehler beim Wiederherstellen: locked"
    );
}
