use vstd::prelude::*;

verus! {

/// A request, from the tray menu, to show a screen of the window.
#[derive(Clone, Copy, PartialEq, Eq, Structural, Debug)]
pub enum AppMessage {
    ShowRestore,
    ShowSettings,
}

/// The screens of the window.
#[derive(Clone, Copy, PartialEq, Eq, Structural, Debug)]
pub enum Screen {
    Main,
    Restore,
    Settings,
}

pub open spec fn screen_for(m: AppMessage) -> Screen {
    match m {
        AppMessage::ShowRestore => Screen::Restore,
        AppMessage::ShowSettings => Screen::Settings,
    }
}

/// The screen shown after the pending messages are handled in order: the
/// last one decides; with none, the current screen stays.
pub fn screen_after(current: Screen, messages: &Vec<AppMessage>) -> (r: Screen)
    ensures
        r == if messages.len() == 0 {
            current
        } else {
            screen_for(messages@.last())
        },
{
    let mut s = current;
    let mut i: usize = 0;
    while i < messages.len()
        invariant
            i <= messages.len(),
            s == if i == 0 {
                current
            } else {
                screen_for(messages@[i - 1])
            },
        decreases messages.len() - i,
    {
        s = match messages[i] {
            AppMessage::ShowRestore => Screen::Restore,
            AppMessage::ShowSettings => Screen::Settings,
        };
        i = i + 1;
    }
    s
}

} // verus!
