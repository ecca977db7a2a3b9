use bookmark_backup::autostart::{setup_autostart, AutostartChange};
use bookmark_backup::screen::{screen_after, AppMessage, Screen};

#[test]
fn last_message_decides_the_screen() {
    assert_eq!(screen_after(Screen::Main, &vec![]), Screen::Main);
    assert_eq!(screen_after(Screen::Settings, &vec![AppMessage::ShowRestore]), Screen::Restore);
    assert_eq!(
        screen_after(Screen::Main, &vec![AppMessage::ShowRestore, AppMessage::ShowSettings]),
        Screen::Settings
    );
}

#[test]
fn autostart_registers_or_removes_the_run_value() {
    match setup_autostart(true, "C:\\bin\\backup.exe") {
        AutostartChange::Register { key_path, value_name, command } => {
            assert_eq!(key_path, "Software\\Microsoft\\Windows\\CurrentVersion\\Run");
            assert_eq!(value_name, "BrowserBackup");
            assert_eq!(command, "C:\\bin\\backup.exe");
        }
        other => panic!("unexpected {:?}", other),
    }
    match setup_autostart(false, "ignored") {
        AutostartChange::Unregister { key_path, value_name } => {
            assert_eq!(key_path, "Software\\Microsoft\\Windows\\CurrentVersion\\Run");
            assert_eq!(value_name, "BrowserBackup");
        }
        other => panic!("unexpected {:?}", other),
    }
}
