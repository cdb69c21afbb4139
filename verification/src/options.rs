//! The run configuration handed to the installer: what to install, where,
//! and for which frontend.

use vstd::prelude::*;

use crate::text::str_eq;

verus! {

/// A known RIME frontend, or an unknown one.
#[derive(Debug, Clone, Copy, PartialEq, Eq, Structural)]
pub enum Frontend {
    Fcitx,
    Fcitx5,
    Ibus,
    Squirrel,
    Weasel,
    Unknown,
}

impl Frontend {
    /// The display name of the frontend.
    pub fn label(&self) -> (r: String)
        ensures
            *self is Fcitx ==> r@ == "fcitx/fcitx-rime"@,
            *self is Fcitx5 ==> r@ == "fcitx/fcitx5-rime"@,
            *self is Ibus ==> r@ == "rime/ibus-rime"@,
            *self is Squirrel ==> r@ == "rime/squirrel"@,
            *self is Weasel ==> r@ == "rime/weasel"@,
            *self is Unknown ==> r@ == "unknown"@,
    {
        match self {
            Frontend::Fcitx => String::from_str("fcitx/fcitx-rime"),
            Frontend::Fcitx5 => String::from_str("fcitx/fcitx5-rime"),
            Frontend::Ibus => String::from_str("rime/ibus-rime"),
            Frontend::Squirrel => String::from_str("rime/squirrel"),
            Frontend::Weasel => String::from_str("rime/weasel"),
            Frontend::Unknown => String::from_str("unknown"),
        }
    }

    /// The frontend a command-line name refers to.
    pub fn from_name(s: &str) -> (r: Option<Frontend>)
        ensures
            (s@ == "fcitx/fcitx-rime"@ || s@ == "fcitx-rime"@) ==> r == Some(Frontend::Fcitx),
            (s@ == "fcitx/fcitx5-rime"@ || s@ == "fcitx5/fcitx5-rime"@ || s@ == "fcitx5-rime"@)
                ==> r == Some(Frontend::Fcitx5),
            (s@ == "rime/ibus-rime"@ || s@ == "ibus-rime"@) ==> r == Some(Frontend::Ibus),
            (s@ == "rime/squirrel"@ || s@ == "squirrel"@) ==> r == Some(Frontend::Squirrel),
            (s@ == "rime/weasel"@ || s@ == "weasel"@) ==> r == Some(Frontend::Weasel),
            (s@ != "fcitx/fcitx-rime"@ && s@ != "fcitx-rime"@ && s@ != "fcitx/fcitx5-rime"@ && s@
                != "fcitx5/fcitx5-rime"@ && s@ != "fcitx5-rime"@ && s@ != "rime/ibus-rime"@ && s@
                != "ibus-rime"@ && s@ != "rime/squirrel"@ && s@ != "squirrel"@ && s@
                != "rime/weasel"@ && s@ != "weasel"@) ==> r is None,
    {
        proof {
            broadcast use vstd::string::group_string_axioms;

            reveal_strlit("fcitx/fcitx-rime");
            reveal_strlit("fcitx-rime");
            reveal_strlit("fcitx/fcitx5-rime");
            reveal_strlit("fcitx5/fcitx5-rime");
            reveal_strlit("fcitx5-rime");
            reveal_strlit("rime/ibus-rime");
            reveal_strlit("ibus-rime");
            reveal_strlit("rime/squirrel");
            reveal_strlit("squirrel");
            reveal_strlit("rime/weasel");
            reveal_strlit("weasel");
            assert("fcitx/fcitx-rime"@.len() == 16);
            assert("fcitx-rime"@.len() == 10);
            assert("fcitx/fcitx5-rime"@.len() == 17);
            assert("fcitx5/fcitx5-rime"@.len() == 18);
            assert("fcitx5-rime"@.len() == 11);
            assert("rime/ibus-rime"@.len() == 14);
            assert("ibus-rime"@.len() == 9);
            assert("rime/squirrel"@.len() == 13);
            assert("squirrel"@.len() == 8);
            assert("rime/weasel"@.len() == 11);
            assert("weasel"@.len() == 6);
            assert("fcitx5-rime"@[0] == 'f' && "rime/weasel"@[0] == 'r');
        }
        if str_eq(s, "fcitx/fcitx-rime") || str_eq(s, "fcitx-rime") {
            Some(Frontend::Fcitx)
        } else if str_eq(s, "fcitx/fcitx5-rime") || str_eq(s, "fcitx5/fcitx5-rime") || str_eq(
            s,
            "fcitx5-rime",
        ) {
            Some(Frontend::Fcitx5)
        } else if str_eq(s, "rime/ibus-rime") || str_eq(s, "ibus-rime") {
            Some(Frontend::Ibus)
        } else if str_eq(s, "rime/squirrel") || str_eq(s, "squirrel") {
            Some(Frontend::Squirrel)
        } else if str_eq(s, "rime/weasel") || str_eq(s, "weasel") {
            Some(Frontend::Weasel)
        } else {
            None
        }
    }

    /// The user directory of the frontend, relative to the home directory;
    /// none for an unknown frontend.
    pub fn rime_subdir(&self) -> (r: Option<String>)
        ensures
            *self is Fcitx ==> (r matches Some(d) && d@ == ".config/fcitx/rime"@),
            *self is Fcitx5 ==> (r matches Some(d) && d@ == ".local/share/fcitx5/rime"@),
            *self is Ibus ==> (r matches Some(d) && d@ == ".config/ibus/rime"@),
            *self is Squirrel ==> (r matches Some(d) && d@ == "Library/Rime"@),
            *self is Weasel ==> (r matches Some(d) && d@ == "AppData/Roaming/Rime"@),
            *self is Unknown ==> r is None,
    {
        match self {
            Frontend::Fcitx => Some(String::from_str(".config/fcitx/rime")),
            Frontend::Fcitx5 => Some(String::from_str(".local/share/fcitx5/rime")),
            Frontend::Ibus => Some(String::from_str(".config/ibus/rime")),
            Frontend::Squirrel => Some(String::from_str("Library/Rime")),
            Frontend::Weasel => Some(String::from_str("AppData/Roaming/Rime")),
            Frontend::Unknown => None,
        }
    }
}

/// The options of one run. The surrounding program fills this in from the
/// command line.
#[derive(Debug)]
pub struct Options {
    /// Pick the packages to install interactively.
    pub select: bool,
    /// List the fetched packages and their recipes instead of installing.
    pub list: bool,
    /// The frontend whose conventional directory receives the install.
    pub frontend: Frontend,
    /// An explicit destination directory, overriding the frontend's.
    pub dir: Option<String>,
    /// The targets to install.
    pub targets: Vec<String>,
}

} // verus!
