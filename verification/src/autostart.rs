//! The desktop entry that makes the application start at login.
use vstd::prelude::*;

use crate::text::append_str;

verus! {

/// The file name of the desktop entry in the autostart directory.
pub const DESKTOP_FILE_NAME: &'static str = "io.github.weversonl.GnomeBrightness.desktop";

/// The part of the desktop entry before the executable's path.
pub open spec fn desktop_entry_head() -> Seq<char> {
    "[Desktop Entry]\nType=Application\nName=GnomeBrightness\nComment=Control external monitor brightness over DDC/CI\nExec="@
}

/// The part of the desktop entry after the executable's path.
pub open spec fn desktop_entry_tail() -> Seq<char> {
    "\nIcon=io.github.weversonl.GnomeBrightness\nTerminal=false\nCategories=GTK;Utility;Settings;\nStartupNotify=true\nX-GNOME-UsesNotifications=false\n"@
}

/// The contents of the autostart desktop entry that launches the executable
/// at `exe`.
pub fn desktop_entry(exe: &str) -> (contents: String)
    ensures
        contents@ == desktop_entry_head() + exe@ + desktop_entry_tail(),
{
    let mut contents = String::new();
    append_str(
        &mut contents,
        "[Desktop Entry]\nType=Application\nName=GnomeBrightness\nComment=Control external monitor brightness over DDC/CI\nExec=",
    );
    append_str(&mut contents, exe);
    append_str(
        &mut contents,
        "\nIcon=io.github.weversonl.GnomeBrightness\nTerminal=false\nCategories=GTK;Utility;Settings;\nStartupNotify=true\nX-GNOME-UsesNotifications=false\n",
    );
    assert(contents@ =~= desktop_entry_head() + exe@ + desktop_entry_tail());
    contents
}

} // verus!
