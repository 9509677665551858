//! Paths: joining them, the directories searched for proverb files, and the
//! installation prefix.

use crate::parser::{push_char, views};
use directories::BaseDirs;
use vstd::prelude::*;

verus! {

/// The user's base directories, as the `directories` crate finds them.
#[verifier::external_type_specification]
#[verifier::external_body]
pub struct ExBaseDirs(BaseDirs);

/// Relies on `directories::BaseDirs::new`: the user's base directories, or
/// `None` where no home directory is found. They come from the environment,
/// so nothing is stated of them.
#[verifier::external_body]
fn base_dirs() -> (r: Option<BaseDirs>) {
    BaseDirs::new()
}

/// Relies on `directories::BaseDirs::home_dir`: the user's home directory,
/// or `None` where it is not valid UTF-8.
#[verifier::external_body]
fn home_dir_of(dirs: &BaseDirs) -> (r: Option<String>) {
    dirs.home_dir().to_str().map(String::from)
}

/// Relies on `directories::BaseDirs::data_dir`: the user's data directory,
/// or `None` where it is not valid UTF-8.
#[verifier::external_body]
fn data_dir_of(dirs: &BaseDirs) -> (r: Option<String>) {
    dirs.data_dir().to_str().map(String::from)
}

/// `part` appended to `base` as a path: an absolute `part` replaces `base`;
/// otherwise a `/` goes between the two unless `base` is empty or already
/// ends with one.
pub open spec fn path_join(base: Seq<char>, part: Seq<char>) -> Seq<char> {
    if part.len() > 0 && part[0] == '/' {
        part
    } else if base.len() == 0 || base.last() == '/' {
        base + part
    } else {
        base.push('/') + part
    }
}

/// The view of an optional string.
pub open spec fn opt_view(o: Option<String>) -> Option<Seq<char>> {
    match o {
        Some(s) => Some(s@),
        None => None,
    }
}

/// `part` appended to `base` as a path (see `path_join`).
pub fn join_path(base: &str, part: &str) -> (r: String)
    ensures
        r@ == path_join(base@, part@),
{
    let part_len = part.unicode_len();
    if part_len > 0 && part.get_char(0) == '/' {
        return part.to_owned();
    }
    let base_len = base.unicode_len();
    let mut r = base.to_owned();
    if base_len > 0 && base.get_char(base_len - 1) != '/' {
        push_char(&mut r, '/');
    }
    r.append(part);
    r
}

/// Where the installation prefix may be set, each `None` where unset.
pub struct PrefixVars {
    /// An explicit prefix.
    pub prefix: Option<String>,
    /// The package manager's install root.
    pub install_root: Option<String>,
    /// The package manager's home.
    pub cargo_home: Option<String>,
}

/// The installation prefix: the first of `vars` that is set, else `.cargo`
/// under the home directory, else none.
pub open spec fn prefix_choice(vars: PrefixVars, home: Option<Seq<char>>) -> Option<Seq<char>> {
    if vars.prefix is Some {
        opt_view(vars.prefix)
    } else if vars.install_root is Some {
        opt_view(vars.install_root)
    } else if vars.cargo_home is Some {
        opt_view(vars.cargo_home)
    } else {
        match home {
            Some(h) => Some(path_join(h, ".cargo"@)),
            None => None,
        }
    }
}

fn clone_opt(o: &Option<String>) -> (r: Option<String>)
    ensures
        opt_view(r) == opt_view(*o),
{
    match o {
        Some(s) => Some(s.clone()),
        None => None,
    }
}

/// The installation prefix chosen from `vars` and the home directory `home`.
pub fn prefix_from(vars: &PrefixVars, home: Option<String>) -> (r: Option<String>)
    ensures
        opt_view(r) == prefix_choice(*vars, opt_view(home)),
{
    if vars.prefix.is_some() {
        clone_opt(&vars.prefix)
    } else if vars.install_root.is_some() {
        clone_opt(&vars.install_root)
    } else if vars.cargo_home.is_some() {
        clone_opt(&vars.cargo_home)
    } else {
        match home {
            Some(h) => Some(join_path(h.as_str(), ".cargo")),
            None => None,
        }
    }
}

/// The installation prefix: the first of `vars` that is set, else `.cargo`
/// under the user's home directory, else `None` where no home directory is
/// found.
pub fn install_prefix(vars: &PrefixVars) -> (r: Option<String>)
    ensures
        exists|home: Option<Seq<char>>| opt_view(r) == prefix_choice(*vars, home),
{
    let mut home: Option<String> = None;
    if vars.prefix.is_none() && vars.install_root.is_none() && vars.cargo_home.is_none() {
        if let Some(dirs) = base_dirs() {
            home = home_dir_of(&dirs);
        }
    }
    let r = prefix_from(vars, home);
    assert(opt_view(r) == prefix_choice(*vars, opt_view(home)));
    r
}

/// The directories searched for proverb files, in order: on Unix-like
/// systems the system-wide and the local system-wide directory; the
/// application's directory under the user's data directory `data`; `share`
/// under the installation prefix `prefix`; in development builds the
/// application's directory under the working directory.
pub open spec fn search_dirs(
    unix: bool,
    data: Option<Seq<char>>,
    prefix: Option<Seq<char>>,
    debug: bool,
) -> Seq<Seq<char>> {
    (if unix {
        seq!["/usr/share/proverb"@, "/usr/local/share/proverb"@]
    } else {
        Seq::empty()
    }) + (match data {
        Some(d) => seq![path_join(d, "proverb"@)],
        None => Seq::empty(),
    }) + (match prefix {
        Some(p) => seq![path_join(path_join(p, "share"@), "proverb"@)],
        None => Seq::empty(),
    }) + (if debug {
        seq!["./proverb"@]
    } else {
        Seq::empty()
    })
}

/// The search directories for the given data directory and prefix (see
/// `search_dirs`).
pub fn search_directories(
    unix: bool,
    data: Option<String>,
    prefix: Option<String>,
    debug: bool,
) -> (r: Vec<String>)
    ensures
        views(r@) == search_dirs(unix, opt_view(data), opt_view(prefix), debug),
{
    let mut r: Vec<String> = Vec::new();
    if unix {
        r.push("/usr/share/proverb".to_owned());
        r.push("/usr/local/share/proverb".to_owned());
    }
    if let Some(d) = data {
        r.push(join_path(d.as_str(), "proverb"));
    }
    if let Some(p) = prefix {
        let share = join_path(p.as_str(), "share");
        r.push(join_path(share.as_str(), "proverb"));
    }
    if debug {
        r.push("./proverb".to_owned());
    }
    assert(views(r@) =~= search_dirs(unix, opt_view(data), opt_view(prefix), debug));
    r
}

/// The directories searched for proverb files (see `search_dirs`), with the
/// user's data directory and home directory as the environment gives them.
/// No directory is checked for existence here.
pub fn source_directories(vars: &PrefixVars, unix: bool, debug: bool) -> (r: Vec<String>)
    ensures
        exists|data: Option<Seq<char>>, home: Option<Seq<char>>|
            views(r@) == search_dirs(unix, data, prefix_choice(*vars, home), debug),
{
    let mut data: Option<String> = None;
    if let Some(dirs) = base_dirs() {
        data = data_dir_of(&dirs);
    }
    let prefix = install_prefix(vars);
    let ghost home = choose|home: Option<Seq<char>>| opt_view(prefix) == prefix_choice(*vars, home);
    let r = search_directories(unix, data, prefix, debug);
    assert(views(r@) == search_dirs(unix, opt_view(data), prefix_choice(*vars, home), debug));
    r
}

} // verus!
