use vstd::prelude::*;

verus! {

/// A change to the per-user list of programs started at sign-in.
#[derive(Debug)]
pub enum AutostartChange {
    /// Set `value_name` under `key_path` to the program's `command`.
    Register { key_path: String, value_name: String, command: String },
    /// Remove `value_name` under `key_path`, if present.
    Unregister { key_path: String, value_name: String },
}

pub open spec fn run_key() -> Seq<char> {
    "Software\\Microsoft\\Windows\\CurrentVersion\\Run"@
}

pub open spec fn autostart_value() -> Seq<char> {
    "BrowserBackup"@
}

/// The change that turns starting at sign-in on (with the program at
/// `exe_path`) or off.
pub fn setup_autostart(enable: bool, exe_path: &str) -> (r: AutostartChange)
    ensures
        match r {
            AutostartChange::Register { key_path, value_name, command } => enable && key_path@ == run_key()
                && value_name@ == autostart_value() && command@ == exe_path@,
            AutostartChange::Unregister { key_path, value_name } => !enable && key_path@ == run_key()
                && value_name@ == autostart_value(),
        },
{
    let key_path = String::from_str("Software\\Microsoft\\Windows\\CurrentVersion\\Run");
    let value_name = String::from_str("BrowserBackup");
    if enable {
        AutostartChange::Register { key_path, value_name, command: String::from_str(exe_path) }
    } else {
        AutostartChange::Unregister { key_path, value_name }
    }
}

} // verus!
