use vstd::prelude::*;
use crate::naming::Browser;

verus! {

/// Path components, as text.
pub open spec fn parts_view(s: Seq<String>) -> Seq<Seq<char>> {
    s.map_values(|x: String| x@)
}

/// Where a browser keeps its bookmarks, below the user's profile directory.
#[derive(Debug)]
pub enum StoreLocation {
    /// The store is the file at these components.
    File(Vec<String>),
    /// The store is `file` inside the release profile that is found in the
    /// directory at `profiles`.
    InReleaseProfile { profiles: Vec<String>, file: String },
}

pub open spec fn chrome_store() -> Seq<Seq<char>> {
    seq!["AppData"@, "Local"@, "Google"@, "Chrome"@, "User Data"@, "Default"@, "Bookmarks"@]
}

pub open spec fn edge_store() -> Seq<Seq<char>> {
    seq!["AppData"@, "Local"@, "Microsoft"@, "Edge"@, "User Data"@, "Default"@, "Bookmarks"@]
}

pub open spec fn firefox_profiles() -> Seq<Seq<char>> {
    seq!["AppData"@, "Roaming"@, "Mozilla"@, "Firefox"@, "Profiles"@]
}

pub open spec fn backup_root() -> Seq<Seq<char>> {
    seq!["Work Folders"@, "Benutzerdatensicherung"@, "Bookmarks"@]
}

fn parts(names: &[&str]) -> (r: Vec<String>)
    ensures
        parts_view(r@) == names@.map_values(|x: &str| x@),
{
    let mut out: Vec<String> = Vec::new();
    let mut i: usize = 0;
    while i < names.len()
        invariant
            i <= names@.len(),
            out.len() == i,
            parts_view(out@) == names@.take(i as int).map_values(|x: &str| x@),
        decreases names.len() - i,
    {
        let ghost prev = out@;
        out.push(String::from_str(names[i]));
        proof {
            let want = names@.take(i + 1).map_values(|x: &str| x@);
            assert forall|k: int| 0 <= k < i + 1 implies #[trigger] parts_view(out@)[k] == want[k] by {
                if k < i {
                    assert(out@[k] == prev[k]);
                    assert(parts_view(prev)[k] == names@.take(i as int).map_values(|x: &str| x@)[k]);
                }
            }
            assert(parts_view(out@) =~= want);
        }
        i = i + 1;
    }
    assert(names@.take(names@.len() as int) == names@);
    out
}

/// The location of a browser's bookmark store below the profile directory.
pub fn store_location(b: Browser) -> (r: StoreLocation)
    ensures
        match b {
            Browser::Chrome => r matches StoreLocation::File(p) && parts_view(p@) == chrome_store(),
            Browser::Edge => r matches StoreLocation::File(p) && parts_view(p@) == edge_store(),
            Browser::Firefox => r matches StoreLocation::InReleaseProfile { profiles, file }
                && parts_view(profiles@) == firefox_profiles() && file@ == "places.sqlite"@,
        },
{
    match b {
        Browser::Chrome => {
            let a = ["AppData", "Local", "Google", "Chrome", "User Data", "Default", "Bookmarks"];
            let p = parts(&a);
            assert(a@.map_values(|x: &str| x@) =~= chrome_store());
            StoreLocation::File(p)
        },
        Browser::Edge => {
            let a = ["AppData", "Local", "Microsoft", "Edge", "User Data", "Default", "Bookmarks"];
            let p = parts(&a);
            assert(a@.map_values(|x: &str| x@) =~= edge_store());
            StoreLocation::File(p)
        },
        Browser::Firefox => {
            let a = ["AppData", "Roaming", "Mozilla", "Firefox", "Profiles"];
            let p = parts(&a);
            assert(a@.map_values(|x: &str| x@) =~= firefox_profiles());
            StoreLocation::InReleaseProfile { profiles: p, file: String::from_str("places.sqlite") }
        },
    }
}

/// The backup root below the profile directory.
pub fn backup_root_location() -> (r: Vec<String>)
    ensures
        parts_view(r@) == backup_root(),
{
    let a = ["Work Folders", "Benutzerdatensicherung", "Bookmarks"];
    let p = parts(&a);
    assert(a@.map_values(|x: &str| x@) =~= backup_root());
    p
}

} // verus!
