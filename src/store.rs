use vstd::prelude::*;
use vstd::multiset::Multiset;
use crate::naming::{Browser, browser_name};
use crate::text::str_ends_with;

verus! {

broadcast use vstd::seq_lib::group_to_multiset_ensures;

/// One backup file on disk; `modified` is its modification time in
/// milliseconds since the Unix epoch.
#[derive(Debug)]
pub struct BackupFile {
    pub name: String,
    pub path: String,
    pub modified: i64,
    pub size: u64,
}

pub open spec fn newest_first_order(s: Seq<BackupFile>) -> bool {
    forall|a: int, b: int| 0 <= a < b < s.len() ==> #[trigger] s[a].modified >= #[trigger] s[b].modified
}

/// The same backups, most recent first.
pub fn newest_first(files: Vec<BackupFile>) -> (r: Vec<BackupFile>)
    ensures
        r@.to_multiset() == files@.to_multiset(),
        newest_first_order(r@),
{
    let ghost all = files@.to_multiset();
    let mut rest = files;
    let mut out: Vec<BackupFile> = Vec::new();
    while rest.len() > 0
        invariant
            out@.to_multiset().add(rest@.to_multiset()) == all,
            newest_first_order(out@),
        decreases rest.len(),
    {
        let ghost before_rest = rest@;
        let f = rest.remove(0);
        let mut pos = out.len();
        while pos > 0 && out[pos - 1].modified < f.modified
            invariant
                pos <= out.len(),
                newest_first_order(out@),
                forall|k: int| pos <= k < out.len() ==> #[trigger] out@[k].modified < f.modified,
            decreases pos,
        {
            pos = pos - 1;
        }
        let ghost before_out = out@;
        out.insert(pos, f);
        proof {
            vstd::seq_lib::to_multiset_remove(before_rest, 0);
            vstd::seq_lib::to_multiset_insert(before_out, pos as int, f);
            assert(before_rest[0] == f);
            assert(before_rest.to_multiset().count(f) > 0);
            assert(out@.to_multiset().add(rest@.to_multiset()) =~= before_out.to_multiset().add(
                before_rest.to_multiset(),
            ));
            assert forall|a: int, b: int| 0 <= a < b < out@.len() implies #[trigger] out@[a].modified
                >= #[trigger] out@[b].modified by {
                if a < pos && b == pos {
                    assert(before_out[a].modified >= before_out[pos - 1].modified);
                } else if a < pos && b > pos {
                    assert(out@[b] == before_out[b - 1]);
                } else if a == pos {
                    assert(out@[b] == before_out[b - 1]);
                } else if a > pos {
                    assert(out@[a] == before_out[a - 1] && out@[b] == before_out[b - 1]);
                }
            }
        }
    }
    proof {
        assert(rest@.to_multiset() =~= Multiset::empty());
        assert(out@.to_multiset().add(Multiset::empty()) =~= out@.to_multiset());
    }
    out
}

/// Milliseconds in a day.
pub const DAY_MS: i64 = 86_400_000;

/// A backup is expired when it was modified strictly before `now` minus
/// `keep_days` days.
pub open spec fn expired(f: BackupFile, now: i64, keep_days: i64) -> bool {
    f.modified < now - keep_days * DAY_MS
}

/// Indices of the expired backups among the first `n`, ascending.
pub open spec fn expired_among(s: Seq<BackupFile>, now: i64, keep_days: i64, n: int) -> Seq<usize>
    decreases n,
{
    if n <= 0 {
        Seq::empty()
    } else if expired(s[n - 1], now, keep_days) {
        expired_among(s, now, keep_days, n - 1).push((n - 1) as usize)
    } else {
        expired_among(s, now, keep_days, n - 1)
    }
}

/// The backups to delete when keeping `keep_days` days back from `now`
/// (both in the units of `BackupFile::modified`, days for `keep_days`):
/// the indices, ascending, of those modified strictly before the cutoff.
pub fn expired_backups(files: &Vec<BackupFile>, now: i64, keep_days: i64) -> (r: Vec<usize>)
    ensures
        r@ == expired_among(files@, now, keep_days, files.len() as int),
{
    let k: i128 = keep_days as i128;
    assert(-0x1_0000_0000_0000_0000_0000_0000 <= k * 86_400_000 <= 0x1_0000_0000_0000_0000_0000_0000)
        by (nonlinear_arith)
        requires
            i64::MIN <= k <= i64::MAX,
    ;
    let span: i128 = k * 86_400_000;
    let cutoff: i128 = now as i128 - span;
    let mut out: Vec<usize> = Vec::new();
    let mut i: usize = 0;
    while i < files.len()
        invariant
            i <= files.len(),
            cutoff == now - keep_days * DAY_MS,
            out@ == expired_among(files@, now, keep_days, i as int),
        decreases files.len() - i,
    {
        if (files[i].modified as i128) < cutoff {
            out.push(i);
        }
        i = i + 1;
    }
    out
}

/// A directory entry met while looking for a browser profile.
#[derive(Clone, Debug)]
pub struct ProfileEntry {
    pub path: String,
    pub is_dir: bool,
}

/// The suffix of the directory name of Firefox's release profile.
pub open spec fn release_suffix() -> Seq<char> {
    ".default-release"@
}

pub open spec fn is_release_profile(e: ProfileEntry) -> bool {
    e.is_dir && e.path@.len() >= release_suffix().len() && e.path@.subrange(
        e.path@.len() - release_suffix().len(),
        e.path@.len() as int,
    ) == release_suffix()
}

/// The first directory among the profile entries whose path ends in
/// `.default-release`.
pub fn find_release_profile(entries: &Vec<ProfileEntry>) -> (r: Option<usize>)
    ensures
        match r {
            Some(i) => i < entries.len() && is_release_profile(entries@[i as int]) && forall|k: int|
                0 <= k < i ==> !is_release_profile(#[trigger] entries@[k]),
            None => forall|k: int| 0 <= k < entries.len() ==> !is_release_profile(#[trigger] entries@[k]),
        },
{
    let mut i: usize = 0;
    while i < entries.len()
        invariant
            i <= entries.len(),
            forall|k: int| 0 <= k < i ==> !is_release_profile(#[trigger] entries@[k]),
        decreases entries.len() - i,
    {
        let e = &entries[i];
        if e.is_dir && str_ends_with(e.path.as_str(), ".default-release") {
            return Some(i);
        }
        i = i + 1;
    }
    None
}

/// The path of one backup inside an export archive: `<browser>/<file>`.
pub fn zip_entry_name(browser_dir: &str, file_name: &str) -> (r: String)
    ensures
        r@ == browser_dir@ + "/"@ + file_name@,
{
    let mut s = String::new();
    s.append(browser_dir);
    s.append("/");
    s.append(file_name);
    s
}

/// The directory under which the user's data lives: the profile directory
/// when known, else the home directory, else `C:\`.
pub fn profile_root(user_profile: Option<String>, home: Option<String>) -> (r: String)
    ensures
        r@ == match user_profile {
            Some(p) => p@,
            None => match home {
                Some(h) => h@,
                None => "C:\\"@,
            },
        },
{
    match user_profile {
        Some(p) => p,
        None => match home {
            Some(h) => h,
            None => String::from_str("C:\\"),
        },
    }
}

} // verus!
