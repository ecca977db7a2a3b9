use bookmark_backup::locations::{backup_root_location, store_location, StoreLocation};
use bookmark_backup::naming::Browser;

#[test]
fn chromium_stores_are_files_below_the_profile() {
    match store_location(Browser::Chrome) {
        StoreLocation::File(p) => {
            assert_eq!(p, vec!["AppData", "Local", "Google", "Chrome", "User Data", "Default", "Bookmarks"])
        }
        other => panic!("unexpected {:?}", other),
    }
    match store_location(Browser::Edge) {
        StoreLocation::File(p) => {
            assert_eq!(p, vec!["AppData", "Local", "Microsoft", "Edge", "User Data", "Default", "Bookmarks"])
        }
        other => panic!("unexpected {:?}", other),
    }
}

#[test]
fn firefox_store_is_inside_the_release_profile() {
    match store_location(Browser::Firefox) {
        StoreLocation::InReleaseProfile { profiles, file } => {
            assert_eq!(profiles, vec!["AppData", "Roaming", "Mozilla", "Firefox", "Profiles"]);
            assert_eq!(file, "places.sqlite");
        }
        other => panic!("unexpected {:?}", other),
    }
}

#[test]
fn backup_root_below_profile() {
    assert_eq!(backup_root_location(), vec!["Work Folders", "Benutzerdatensicherung", "Bookmarks"]);
}
