//! Autostart through an XDG desktop entry: the name of the file placed in
//! `~/.config/autostart/` and its contents.

use vstd::prelude::*;

verus! {

/// Application id, also the base name of the desktop entry.
pub const APP_ID: &'static str = "bluetooth-monitor";

/// File name of the autostart desktop entry.
pub fn autostart_file_name() -> (s: String)
    ensures
        s@ == APP_ID@ + ".desktop"@,
{
    let mut s = String::from_str(APP_ID);
    s.append(".desktop");
    s
}

/// Contents of the autostart desktop entry that launches `exec`. It sets
/// `Hidden=false` and `X-GNOME-Autostart-enabled=true` so that GNOME's tools
/// keep it.
pub open spec fn spec_desktop_entry(exec: Seq<char>) -> Seq<char> {
    "[Desktop Entry]\nType=Application\nVersion=1.0\nName=Bluetooth Monitor\nComment=Live dashboard for Bluetooth devices\nExec="@
        + exec
        + "\nIcon=bluetooth-monitor\nTerminal=false\nHidden=false\nX-GNOME-Autostart-enabled=true\nStartupNotify=true\nStartupWMClass=bluetooth-monitor\nCategories=Network;System;Utility;\n"@
}

/// Writes out the autostart desktop entry for the command `exec`.
pub fn desktop_entry(exec: &str) -> (s: String)
    ensures
        s@ == spec_desktop_entry(exec@),
{
    let mut s = String::from_str(
        "[Desktop Entry]\nType=Application\nVersion=1.0\nName=Bluetooth Monitor\nComment=Live dashboard for Bluetooth devices\nExec=",
    );
    s.append(exec);
    s.append(
        "\nIcon=bluetooth-monitor\nTerminal=false\nHidden=false\nX-GNOME-Autostart-enabled=true\nStartupNotify=true\nStartupWMClass=bluetooth-monitor\nCategories=Network;System;Utility;\n",
    );
    s
}

} // verus!
