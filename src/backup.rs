use vstd::prelude::*;
use crate::naming::{
    Browser, LocalDateTime, browser_name, backup_file_name, backup_file_name_at, all_browsers,
};

verus! {

/// Which browsers take part in a backup run.
#[derive(Clone, Copy, PartialEq, Eq, Structural, Debug)]
pub struct BackupConfig {
    pub backup_chrome: bool,
    pub backup_edge: bool,
    pub backup_firefox: bool,
}

pub open spec fn default_config() -> BackupConfig {
    BackupConfig { backup_chrome: true, backup_edge: true, backup_firefox: true }
}

impl Default for BackupConfig {
    /// Every browser takes part.
    fn default() -> (r: Self)
        ensures
            r == default_config(),
    {
        BackupConfig { backup_chrome: true, backup_edge: true, backup_firefox: true }
    }
}

pub open spec fn config_enables(c: BackupConfig, b: Browser) -> bool {
    match b {
        Browser::Chrome => c.backup_chrome,
        Browser::Edge => c.backup_edge,
        Browser::Firefox => c.backup_firefox,
    }
}

/// The enabled browsers, in the order Chrome, Edge, Firefox.
pub open spec fn enabled_browsers(c: BackupConfig) -> Seq<Browser> {
    all_browsers().filter(|b: Browser| config_enables(c, b))
}

impl BackupConfig {
    pub fn enabled_browsers(&self) -> (r: Vec<Browser>)
        ensures
            r@ == enabled_browsers(*self),
    {
        let mut v: Vec<Browser> = Vec::new();
        if self.backup_chrome {
            v.push(Browser::Chrome);
        }
        if self.backup_edge {
            v.push(Browser::Edge);
        }
        if self.backup_firefox {
            v.push(Browser::Firefox);
        }
        proof {
            reveal_with_fuel(Seq::filter, 4);
            let a = all_browsers();
            assert(a.drop_last() == seq![Browser::Chrome, Browser::Edge]);
            assert(a.drop_last().drop_last() == seq![Browser::Chrome]);
            assert(a.drop_last().drop_last().drop_last() == Seq::<Browser>::empty());
        }
        v
    }
}

/// The outcome of backing up one browser.
#[derive(Debug)]
pub struct BackupResult {
    pub browser: String,
    pub success: bool,
    pub message: String,
}

/// One copy to make in a backup run: the store of `browser` goes to
/// `<backup root>/<browser name>/<file_name>`.
#[derive(Debug)]
pub struct BackupJob {
    pub browser: Browser,
    pub file_name: String,
}

/// What happened when a job's copy was attempted.
pub enum CopyOutcome {
    /// The browser's profile directory could not be found.
    ProfileNotFound,
    /// The bookmark store does not exist.
    SourceMissing,
    /// The backup directory could not be created, for the given reason.
    DirectoryFailed(String),
    /// The copy failed, for the given reason.
    CopyFailed(String),
    /// The store was copied.
    Copied,
}

pub open spec fn outcome_success(o: CopyOutcome) -> bool {
    o is Copied
}

pub open spec fn outcome_message(job_file: Seq<char>, b: Browser, o: CopyOutcome) -> Seq<char> {
    match o {
        CopyOutcome::ProfileNotFound => browser_name(b) + " Profil nicht gefunden"@,
        CopyOutcome::SourceMissing => "Favoriten nicht gefunden"@,
        CopyOutcome::DirectoryFailed(e) => "Fehler beim Erstellen des Verzeichnisses: "@ + e@,
        CopyOutcome::CopyFailed(e) => "Fehler: "@ + e@,
        CopyOutcome::Copied => "Gesichert: "@ + job_file,
    }
}

impl BackupJob {
    /// The result to report for this job after `outcome`.
    pub fn result(&self, outcome: CopyOutcome) -> (r: BackupResult)
        ensures
            r.browser@ == browser_name(self.browser),
            r.success == outcome_success(outcome),
            r.message@ == outcome_message(self.file_name@, self.browser, outcome),
    {
        let mut browser = String::new();
        browser.append(self.browser.name());
        let success = match &outcome {
            CopyOutcome::Copied => true,
            _ => false,
        };
        let mut message = String::new();
        match &outcome {
            CopyOutcome::ProfileNotFound => {
                message.append(self.browser.name());
                message.append(" Profil nicht gefunden");
            },
            CopyOutcome::SourceMissing => {
                message.append("Favoriten nicht gefunden");
            },
            CopyOutcome::DirectoryFailed(e) => {
                message.append("Fehler beim Erstellen des Verzeichnisses: ");
                message.append(e.as_str());
            },
            CopyOutcome::CopyFailed(e) => {
                message.append("Fehler: ");
                message.append(e.as_str());
            },
            CopyOutcome::Copied => {
                message.append("Gesichert: ");
                message.append(self.file_name.as_str());
            },
        }
        BackupResult { browser, success, message }
    }
}

/// Relies on chrono::Local::now with chrono's Datelike and Timelike
/// accessors: the current local date and time; chrono documents month 1 to
/// 12, day 1 to 31, hour 0 to 23, minute and second 0 to 59.
#[verifier::external_body]
fn local_now() -> (r: LocalDateTime)
    ensures
        r.valid(),
{
    let now = chrono::Local::now();
    LocalDateTime {
        year: chrono::Datelike::year(&now),
        month: chrono::Datelike::month(&now),
        day: chrono::Datelike::day(&now),
        hour: chrono::Timelike::hour(&now),
        minute: chrono::Timelike::minute(&now),
        second: chrono::Timelike::second(&now),
    }
}

/// The state of a manager: its backup root and its configuration.
pub struct ManagerState {
    pub backup_dir: Seq<char>,
    pub config: BackupConfig,
}

/// The backup root and the configuration of a backup run.
pub struct BackupManager {
    backup_dir: String,
    config: BackupConfig,
}

impl View for BackupManager {
    type V = ManagerState;

    closed spec fn view(&self) -> ManagerState {
        ManagerState { backup_dir: self.backup_dir@, config: self.config }
    }
}

/// The jobs of a backup run at time `t`: one per enabled browser, in order.
pub open spec fn jobs_match(jobs: Seq<BackupJob>, c: BackupConfig, t: LocalDateTime) -> bool {
    &&& jobs.len() == enabled_browsers(c).len()
    &&& forall|i: int|
        0 <= i < jobs.len() ==> (#[trigger] jobs[i]).browser == enabled_browsers(c)[i]
            && jobs[i].file_name@ == backup_file_name_at(enabled_browsers(c)[i], t)
}

impl BackupManager {
    /// A manager over the backup root `backup_dir`, with the configuration
    /// read from its configuration file, or every browser enabled when that
    /// file is missing or unreadable.
    pub fn new(backup_dir: String, stored: Option<BackupConfig>) -> (r: Self)
        ensures
            r@.backup_dir == backup_dir@,
            r@.config == match stored {
                Some(c) => c,
                None => default_config(),
            },
    {
        let config = match stored {
            Some(c) => c,
            None => BackupConfig::default(),
        };
        BackupManager { backup_dir, config }
    }

    pub fn get_config(&self) -> (r: &BackupConfig)
        ensures
            *r == self@.config,
    {
        &self.config
    }

    /// Replaces the configuration; the caller stores it.
    pub fn set_config(&mut self, config: BackupConfig)
        ensures
            final(self)@.config == config,
            final(self)@.backup_dir == old(self)@.backup_dir,
    {
        self.config = config;
    }

    pub fn get_backup_directory(&self) -> (r: &str)
        ensures
            r@ == self@.backup_dir,
    {
        self.backup_dir.as_str()
    }

    /// The jobs of a backup run taken at `t`: one per enabled browser, in
    /// the order Chrome, Edge, Firefox, each naming its backup file after `t`.
    pub fn backup_jobs_at(&self, t: &LocalDateTime) -> (r: Vec<BackupJob>)
        ensures
            jobs_match(r@, self@.config, *t),
    {
        let browsers = self.config.enabled_browsers();
        let mut jobs: Vec<BackupJob> = Vec::new();
        let mut i: usize = 0;
        while i < browsers.len()
            invariant
                i <= browsers.len(),
                browsers@ == enabled_browsers(self@.config),
                jobs.len() == i,
                forall|k: int|
                    0 <= k < i ==> (#[trigger] jobs@[k]).browser == browsers@[k]
                        && jobs@[k].file_name@ == backup_file_name_at(browsers@[k], *t),
            decreases browsers.len() - i,
        {
            let b = browsers[i];
            let file_name = backup_file_name(b, t);
            jobs.push(BackupJob { browser: b, file_name });
            i = i + 1;
        }
        jobs
    }

    /// The jobs of a backup run taken now (local time): as `backup_jobs_at`
    /// for the current time.
    pub fn backup_all(&self) -> (r: Vec<BackupJob>)
        ensures
            exists|t: LocalDateTime| t.valid() && jobs_match(r@, self@.config, t),
    {
        let t = local_now();
        self.backup_jobs_at(&t)
    }
}

} // verus!
