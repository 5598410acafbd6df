//! The editor's view state: which file is unsaved, whether the sidebar is
//! open, which tab of the upper bar is active, and which theme is chosen.
//! Each transition is a function from the state before to the state after;
//! the surrounding application keeps the values and calls them.

use crate::text::str_equals;
use vstd::prelude::*;
use vstd::string::StringExecFns;

verus! {

/// Whether the open file has changes that are not saved.
#[derive(Clone, Copy, Debug, PartialEq, Eq)]
pub struct FileState {
    pub is_dirty: bool,
}

impl FileState {
    /// The state of a file without unsaved changes.
    pub fn new() -> (state: FileState)
        ensures
            !state.is_dirty,
    {
        FileState { is_dirty: false }
    }
}

/// Records whether the open file has unsaved changes.
pub fn set_dirty_state(state: &mut FileState, is_dirty: bool)
    ensures
        final(state).is_dirty == is_dirty,
{
    state.is_dirty = is_dirty;
}

/// Whether the open file has unsaved changes.
pub fn get_dirty_state(state: &FileState) -> (is_dirty: bool)
    ensures
        is_dirty == state.is_dirty,
{
    state.is_dirty
}

/// Whether the sidebar and the settings panel are shown.
#[derive(Clone, Copy, Debug, PartialEq, Eq)]
pub struct SidebarState {
    pub is_open: bool,
    pub is_settings_open: bool,
}

/// Opens a closed sidebar and closes an open one; returns whether it is open
/// afterwards. The settings panel is left as it is.
pub fn toggle_sidebar(sidebar_state: &mut SidebarState) -> (is_open: bool)
    ensures
        is_open == !old(sidebar_state).is_open,
        final(sidebar_state).is_open == is_open,
        final(sidebar_state).is_settings_open == old(sidebar_state).is_settings_open,
{
    sidebar_state.is_open = !sidebar_state.is_open;
    sidebar_state.is_open
}

/// Whether the sidebar is open.
pub fn get_sidebar_state(sidebar_state: &SidebarState) -> (is_open: bool)
    ensures
        is_open == sidebar_state.is_open,
{
    sidebar_state.is_open
}

/// Marks the settings panel as not open. The sidebar is left as it is.
pub fn show_settings(sidebar_state: &mut SidebarState)
    ensures
        !final(sidebar_state).is_settings_open,
        final(sidebar_state).is_open == old(sidebar_state).is_open,
{
    sidebar_state.is_settings_open = false;
}

/// The tab of the upper bar that is shown.
#[derive(Clone, Debug, PartialEq, Eq)]
pub struct UpperTabBarState {
    pub active_tab: String,
}

/// Whether `tab` names a tab of the upper bar.
pub open spec fn is_valid_tab(tab: Seq<char>) -> bool {
    tab == "files"@ || tab == "settings"@
}

/// The message for a name that is no tab.
pub open spec fn invalid_tab_message(tab: Seq<char>) -> Seq<char> {
    "Invalid tab: "@ + tab + ". Available tabs: files, settings"@
}

/// The tab that a toggle leads to: `settings` from `files`, and `files`
/// from anything else.
pub open spec fn toggled_tab(tab: Seq<char>) -> Seq<char> {
    if tab == "files"@ {
        "settings"@
    } else {
        "files"@
    }
}

/// The name of the active tab.
pub fn get_active_tab(state: &UpperTabBarState) -> (tab: String)
    ensures
        tab@ == state.active_tab@,
{
    state.active_tab.clone()
}

/// Makes `tab` the active tab if it names one, and returns it; otherwise
/// leaves the state as it is and returns a message.
pub fn set_active_tab(state: &mut UpperTabBarState, tab: String) -> (r: Result<String, String>)
    ensures
        is_valid_tab(tab@) ==> r is Ok && r->Ok_0@ == tab@ && final(state).active_tab@ == tab@,
        !is_valid_tab(tab@) ==> r is Err && r->Err_0@ == invalid_tab_message(tab@) && *final(state)
            == *old(state),
{
    if !(str_equals(tab.as_str(), "files") || str_equals(tab.as_str(), "settings")) {
        let mut message = String::from_str("Invalid tab: ");
        message.append(tab.as_str());
        message.append(". Available tabs: files, settings");
        return Err(message);
    }
    state.active_tab = tab.clone();
    Ok(tab)
}

/// Switches between the two tabs and returns the name of the tab that is
/// active afterwards.
pub fn toggle_active_tab(state: &mut UpperTabBarState) -> (tab: String)
    ensures
        tab@ == toggled_tab(old(state).active_tab@),
        final(state).active_tab@ == tab@,
{
    if str_equals(state.active_tab.as_str(), "files") {
        state.active_tab = String::from_str("settings");
    } else {
        state.active_tab = String::from_str("files");
    }
    state.active_tab.clone()
}

/// Whether `theme` names a theme of the editor.
pub open spec fn is_valid_theme(theme: Seq<char>) -> bool {
    theme == "light"@ || theme == "dark"@ || theme == "kali"@ || theme == "bash-light"@ || theme
        == "bash-dark"@
}

/// The message for a name that is no theme.
pub open spec fn invalid_theme_message(theme: Seq<char>) -> Seq<char> {
    "Invalid theme: "@ + theme + ". Available themes: light, dark, kali, bash-light, bash-dark"@
}

/// Checks the name of a theme before it is stored: returns the name if it
/// names a theme, and a message otherwise.
pub fn validate_theme(app_theme: String) -> (r: Result<String, String>)
    ensures
        is_valid_theme(app_theme@) ==> r is Ok && r->Ok_0@ == app_theme@,
        !is_valid_theme(app_theme@) ==> r is Err && r->Err_0@ == invalid_theme_message(app_theme@),
{
    let name = app_theme.as_str();
    if str_equals(name, "light") || str_equals(name, "dark") || str_equals(name, "kali")
        || str_equals(name, "bash-light") || str_equals(name, "bash-dark") {
        Ok(app_theme)
    } else {
        let mut message = String::from_str("Invalid theme: ");
        message.append(name);
        message.append(". Available themes: light, dark, kali, bash-light, bash-dark");
        Err(message)
    }
}

/// The theme to show: the stored one, or the light theme if none is stored.
pub fn stored_theme_or_default(stored: Option<String>) -> (theme: String)
    ensures
        match stored {
            Some(name) => theme@ == name@,
            None => theme@ == "light"@,
        },
{
    match stored {
        Some(name) => name,
        None => String::from_str("light"),
    }
}

/// The style class that switches a theme on: none for the light theme, which
/// is the default look, and the name of the theme for every other.
pub fn theme_class(theme: &str) -> (class: &str)
    ensures
        class@ == (if theme@ == "light"@ {
            ""@
        } else {
            theme@
        }),
{
    if str_equals(theme, "light") {
        ""
    } else {
        theme
    }
}

} // verus!
