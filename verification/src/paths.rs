//! Paths, built by joining names onto a directory.
use vstd::prelude::*;

use std::path::PathBuf;

verus! {

#[verifier::external_type_specification]
#[verifier::external_body]
pub struct ExPathBuf(std::path::PathBuf);

/// What `Path::join` returns for a directory and a file name: the directory with the name
/// appended after the platform's separator. It is computed from the two arguments alone (the
/// separator is fixed when the program is built); `PathBuf` has no view here, so the result is
/// named rather than spelled out.
pub uninterp spec fn path_joined(dir: PathBuf, name: Seq<char>) -> PathBuf;

/// `Path::join` with a file name.
#[verifier::external_body]
pub(crate) fn join_name(dir: &PathBuf, name: &str) -> (r: PathBuf)
    ensures
        r == path_joined(*dir, name@),
{
    dir.join(name)
}

/// What `PathBuf::from` makes of a text: the path that text spells. It depends on the text
/// alone; the result is named, as `PathBuf` has no view here.
pub uninterp spec fn path_from(text: Seq<char>) -> PathBuf;

/// `PathBuf::from` a text.
#[verifier::external_body]
pub(crate) fn path_of(text: &str) -> (r: PathBuf)
    ensures
        r == path_from(text@),
{
    PathBuf::from(text)
}

/// The kind of system heq runs on, as far as where it keeps files goes.
#[derive(Clone, Copy, Debug, PartialEq, Eq)]
pub enum Os {
    Windows,
    MacOs,
    Other,
}

/// The user's configuration directory on a system that follows the XDG layout:
/// `$XDG_CONFIG_HOME` when set, else `.config` in the home directory (an unset home is the empty
/// path).
pub open spec fn config_home_spec(home: Option<Seq<char>>, xdg: Option<Seq<char>>) -> PathBuf {
    match xdg {
        Some(x) => path_from(x),
        None => path_joined(
            path_from(
                match home {
                    Some(h) => h,
                    None => ""@,
                },
            ),
            ".config"@,
        ),
    }
}

pub fn config_home(home: Option<&str>, xdg: Option<&str>) -> (r: PathBuf)
    ensures
        r == config_home_spec(opt_view(home), opt_view(xdg)),
{
    match xdg {
        Some(x) => path_of(x),
        None => {
            let h = match home {
                Some(h) => path_of(h),
                None => path_of(""),
            };
            join_name(&h, ".config")
        },
    }
}

pub open spec fn opt_view(s: Option<&str>) -> Option<Seq<char>> {
    match s {
        Some(t) => Some(t@),
        None => None,
    }
}

/// heq's own directory, from the environment's values: `$HEQ_HOME` when set; on Windows
/// `%APPDATA%\\heq` when that is set; on macOS `Library/Application Support/heq` in the home
/// directory; elsewhere `heq` in the configuration directory.
pub open spec fn root_spec(
    heq_home: Option<Seq<char>>,
    appdata: Option<Seq<char>>,
    home: Option<Seq<char>>,
    xdg: Option<Seq<char>>,
    os: Os,
) -> PathBuf {
    match heq_home {
        Some(d) => path_from(d),
        None => if os == Os::Windows && appdata is Some {
            path_joined(path_from(appdata->0), "heq"@)
        } else if os == Os::MacOs {
            path_joined(
                path_from(
                    match home {
                        Some(h) => h,
                        None => ""@,
                    },
                ),
                "Library/Application Support/heq"@,
            )
        } else {
            path_joined(config_home_spec(home, xdg), "heq"@)
        },
    }
}

pub fn root_dir_from(
    heq_home: Option<&str>,
    appdata: Option<&str>,
    home: Option<&str>,
    xdg: Option<&str>,
    os: Os,
) -> (r: PathBuf)
    ensures
        r == root_spec(opt_view(heq_home), opt_view(appdata), opt_view(home), opt_view(xdg), os),
{
    if let Some(d) = heq_home {
        return path_of(d);
    }
    if let (Os::Windows, Some(a)) = (os, appdata) {
        let base = path_of(a);
        return join_name(&base, "heq");
    }
    if let Os::MacOs = os {
        let h = match home {
            Some(h) => path_of(h),
            None => path_of(""),
        };
        return join_name(&h, "Library/Application Support/heq");
    }
    let base = config_home(home, xdg);
    join_name(&base, "heq")
}

} // verus!
