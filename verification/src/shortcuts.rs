//! Decision logic of desktop-shortcut registration.
//!
//! The I/O shell reads `$XDG_CURRENT_DESKTOP`, queries and writes gsettings
//! and shows the notification; every judgement about those strings — whether
//! the binding is already registered, and what the new keybindings list must
//! be — is verified here.

use vstd::prelude::*;
use vstd::string::StrSliceExecFns;
use vstd::string::StringExecFns;

use crate::text::has_substring;
use crate::text::str_contains;
use crate::text::str_eq;

verus! {

pub struct ShortcutManager;

impl ShortcutManager {
    /// The popup's shortcut counts as registered when the desktop is GNOME
    /// and the current custom-keybindings list mentions the clippoo
    /// binding.  `desktop` is `$XDG_CURRENT_DESKTOP`; `bindings` is the
    /// gsettings custom-keybindings value (empty for non-GNOME desktops,
    /// which are never considered registered).
    pub fn is_shortcut_registered(desktop: &str, bindings: &str) -> (r: bool)
        ensures
            r == (has_substring(desktop@, "GNOME"@) && has_substring(bindings@, "clippoo"@)),
    {
        str_contains(desktop, "GNOME") && str_contains(bindings, "clippoo")
    }

    /// The new custom-keybindings list that adds the clippoo binding to
    /// `current` (the trimmed gsettings value, never empty): a list already
    /// mentioning clippoo needs no update; an empty list is replaced by the
    /// singleton list; any other list has the binding appended before the
    /// closing bracket.
    pub fn updated_bindings(current: &str) -> (r: Option<String>)
        requires
            current@.len() > 0,
        ensures
            match r {
                None => has_substring(current@, "clippoo"@),
                Some(s) => !has_substring(current@, "clippoo"@) && (if current@ == "@as []"@
                    || current@ == "[]"@ {
                    s@
                        == "['/org/gnome/settings-daemon/plugins/media-keys/custom-keybindings/clippoo/']"@
                } else {
                    s@ == current@.take(current@.len() - 1)
                        + ", '/org/gnome/settings-daemon/plugins/media-keys/custom-keybindings/clippoo/']"@
                }),
            },
    {
        if str_contains(current, "clippoo") {
            return None;
        }
        if str_eq(current, "@as []") || str_eq(current, "[]") {
            Some(
                String::from_str(
                    "['/org/gnome/settings-daemon/plugins/media-keys/custom-keybindings/clippoo/']",
                ),
            )
        } else {
            let n = current.unicode_len();
            let head = current.substring_char(0, n - 1);
            let mut out = String::from_str(head);
            out.append(
                ", '/org/gnome/settings-daemon/plugins/media-keys/custom-keybindings/clippoo/']",
            );
            Some(out)
        }
    }

    /// The command the shortcut launches, rooted at the user's home
    /// directory.
    pub fn ui_command(home: &str) -> (r: String)
        ensures
            r@ == home@ + "/.local/bin/clippoo-ui.sh"@,
    {
        let mut out = String::from_str(home);
        out.append("/.local/bin/clippoo-ui.sh");
        out
    }
}

} // verus!
