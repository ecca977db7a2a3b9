use vstd::prelude::*;
use crate::naming::{Browser, browser_name};

verus! {

/// A file copy from `from` to `to`.
#[derive(Debug)]
pub struct FileCopy {
    pub from: String,
    pub to: String,
}

/// The copies of a restore, in order, and the message to show once they
/// have all succeeded.
#[derive(Debug)]
pub struct RestorePlan {
    pub copies: Vec<FileCopy>,
    pub message: String,
}

/// A copy as a pair of paths.
pub type CopyStep = (Seq<char>, Seq<char>);

pub open spec fn copies_view(s: Seq<FileCopy>) -> Seq<CopyStep> {
    s.map_values(|c: FileCopy| (c.from@, c.to@))
}

/// The copies that restore `backup` over the live file `target`: when the
/// live file exists it is first saved to `safety`.
pub open spec fn restore_steps(
    target: Seq<char>,
    target_exists: bool,
    safety: Seq<char>,
    backup: Seq<char>,
) -> Seq<CopyStep> {
    if target_exists {
        seq![(target, safety), (backup, target)]
    } else {
        seq![(backup, target)]
    }
}

pub open spec fn restore_message(b: Browser) -> Seq<char> {
    browser_name(b) + " Favoriten erfolgreich wiederhergestellt"@ + if b == Browser::Firefox {
        "\n(Firefox muss neu gestartet werden)"@
    } else {
        Seq::empty()
    }
}

/// The plan to restore the backup at `backup` over the live store `target`
/// of `browser`; `safety` is the `.bak` sibling of `target`, which receives
/// the live store first when it exists. Firefox's message asks for a
/// restart.
pub fn restore_plan(browser: Browser, target: &str, target_exists: bool, safety: &str, backup: &str) -> (r:
    RestorePlan)
    ensures
        copies_view(r.copies@) == restore_steps(target@, target_exists, safety@, backup@),
        r.message@ == restore_message(browser),
{
    let mut copies: Vec<FileCopy> = Vec::new();
    if target_exists {
        copies.push(FileCopy { from: String::from_str(target), to: String::from_str(safety) });
    }
    copies.push(FileCopy { from: String::from_str(backup), to: String::from_str(target) });
    let mut message = String::new();
    message.append(browser.name());
    message.append(" Favoriten erfolgreich wiederhergestellt");
    match browser {
        Browser::Firefox => {
            message.append("\n(Firefox muss neu gestartet werden)");
        },
        _ => {},
    }
    proof {
        let v = copies_view(copies@);
        let w = restore_steps(target@, target_exists, safety@, backup@);
        assert(v.len() == w.len());
        assert(v =~= w);
    }
    RestorePlan { copies, message }
}

/// Files on disk, as contents by path.
pub type Files = Map<Seq<char>, Seq<u8>>;

/// The files after a successful copy.
pub open spec fn copy_file(fs: Files, c: CopyStep) -> Files {
    if fs.dom().contains(c.0) {
        fs.insert(c.1, fs[c.0])
    } else {
        fs
    }
}

/// The files after the copies, made in order, have all succeeded.
pub open spec fn run_copies(fs: Files, steps: Seq<CopyStep>) -> Files
    decreases steps.len(),
{
    if steps.len() == 0 {
        fs
    } else {
        copy_file(run_copies(fs, steps.drop_last()), steps.last())
    }
}

/// A restore over an existing live file keeps that file: once the planned
/// copies have succeeded, the `.bak` sibling holds what the live file held
/// before, and the live file holds exactly the chosen backup. (The sibling
/// must differ from the live file and from the chosen backup.)
pub proof fn lemma_restore_keeps_previous(fs: Files, target: Seq<char>, safety: Seq<char>, backup: Seq<char>)
    requires
        fs.dom().contains(target),
        fs.dom().contains(backup),
        safety != target,
        safety != backup,
    ensures
        run_copies(fs, restore_steps(target, true, safety, backup)).dom().contains(safety),
        run_copies(fs, restore_steps(target, true, safety, backup))[safety] == fs[target],
        run_copies(fs, restore_steps(target, true, safety, backup))[target] == fs[backup],
{
    let steps = restore_steps(target, true, safety, backup);
    let first = steps.drop_last();
    assert(first.drop_last() == Seq::<CopyStep>::empty());
    assert(first == seq![(target, safety)]);
    assert(run_copies(fs, first.drop_last()) == fs);
    let fs1 = run_copies(fs, first);
    assert(fs1 == fs.insert(safety, fs[target]));
    assert(fs1.dom().contains(backup));
    assert(fs1[backup] == fs[backup]);
    assert(run_copies(fs, steps) == fs1.insert(target, fs1[backup]));
}

/// Why a restore did not happen.
pub enum RestoreError {
    /// The user's profile directory is not known.
    NoUserProfile,
    /// The browser's name is not one of the known browsers.
    UnknownBrowser,
    /// The browser's profile directory could not be found.
    ProfileNotFound(Browser),
    /// The live store could not be saved to its `.bak` sibling.
    SafetyCopyFailed(String),
    /// The backup could not be copied over the live store.
    RestoreFailed(String),
}

pub open spec fn restore_error_text(e: RestoreError) -> Seq<char> {
    match e {
        RestoreError::NoUserProfile => "USERPROFILE environment variable not found"@,
        RestoreError::UnknownBrowser => "Unbekannter Browser"@,
        RestoreError::ProfileNotFound(b) => browser_name(b) + " Profil nicht gefunden"@,
        RestoreError::SafetyCopyFailed(r) => "Fehler beim Sichern der aktuellen Datei: "@ + r@,
        RestoreError::RestoreFailed(r) => "Fehler beim Wiederherstellen: "@ + r@,
    }
}

impl RestoreError {
    /// The text shown for this error.
    pub fn message(&self) -> (r: String)
        ensures
            r@ == restore_error_text(*self),
    {
        let mut s = String::new();
        match self {
            RestoreError::NoUserProfile => {
                s.append("USERPROFILE environment variable not found");
            },
            RestoreError::UnknownBrowser => {
                s.append("Unbekannter Browser");
            },
            RestoreError::ProfileNotFound(b) => {
                s.append(b.name());
                s.append(" Profil nicht gefunden");
            },
            RestoreError::SafetyCopyFailed(r) => {
                s.append("Fehler beim Sichern der aktuellen Datei: ");
                s.append(r.as_str());
            },
            RestoreError::RestoreFailed(r) => {
                s.append("Fehler beim Wiederherstellen: ");
                s.append(r.as_str());
            },
        }
        s
    }
}

} // verus!
