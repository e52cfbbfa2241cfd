//! File system paths as text: joining a directory and a name, and the
//! per-user directories of the platform.

use vstd::prelude::*;

use crate::util::text::{chars_of, string_of};

verus! {

/// What `Path::join` gives on Unix: a name starting with `/` replaces the
/// directory; otherwise a `/` is put between them unless the directory is
/// empty or already ends with one.
pub open spec fn join_path(dir: Seq<char>, name: Seq<char>) -> Seq<char> {
    if name.len() > 0 && name[0] == '/' {
        name
    } else if dir.len() == 0 || dir.last() == '/' {
        dir + name
    } else {
        dir + "/"@ + name
    }
}

/// Joins a directory and a file name as `Path::join` does on Unix.
pub fn join(dir: &str, name: &str) -> (r: String)
    ensures
        r@ == join_path(dir@, name@),
{
    let d = chars_of(dir);
    let n = chars_of(name);
    if n.len() > 0 && n[0] == '/' {
        return string_of(n.as_slice());
    }
    let mut v = d;
    proof {
        reveal_strlit("/");
    }
    if !(v.len() == 0 || v[v.len() - 1] == '/') {
        v.push('/');
        assert(v@ =~= dir@ + "/"@);
    }
    let ghost base = v@;
    let mut i: usize = 0;
    while i < n.len()
        invariant
            i <= n@.len(),
            v@ == base + n@.take(i as int),
        decreases n@.len() - i,
    {
        v.push(n[i]);
        i = i + 1;
        assert(n@.take(i as int) =~= n@.take(i - 1).push(n@[i - 1]));
    }
    assert(n@.take(i as int) =~= n@);
    assert(v@ =~= join_path(dir@, name@));
    string_of(v.as_slice())
}

#[verifier::external_type_specification]
#[verifier::external_body]
pub struct ExProjectDirs(directories::ProjectDirs);

#[verifier::external_type_specification]
#[verifier::external_body]
pub struct ExUserDirs(directories::UserDirs);

/// `directories::ProjectDirs::from("", "", "edl")`: the program's per-user
/// directories, where the platform and the environment give a home
/// directory. What comes back depends on the environment; nothing is
/// promised of it.
#[verifier::external_body]
fn edl_project_dirs() -> (r: Option<directories::ProjectDirs>) {
    directories::ProjectDirs::from("", "", "edl")
}

/// `ProjectDirs::config_dir`, as text (bytes that are not UTF-8 are
/// replaced). Nothing is promised of the text.
#[verifier::external_body]
fn project_config_dir(dirs: &directories::ProjectDirs) -> (r: String) {
    dirs.config_dir().to_string_lossy().into_owned()
}

/// `directories::UserDirs::new()`: the user's standard directories, where
/// the environment gives a home directory. Nothing is promised of it.
#[verifier::external_body]
fn user_dirs() -> (r: Option<directories::UserDirs>) {
    directories::UserDirs::new()
}

/// `UserDirs::download_dir`, as text (bytes that are not UTF-8 are
/// replaced). Nothing is promised of it.
#[verifier::external_body]
fn user_download_dir_of(dirs: &directories::UserDirs) -> (r: Option<String>) {
    match dirs.download_dir() {
        Some(p) => Some(p.to_string_lossy().into_owned()),
        None => None,
    }
}

/// The program's configuration directory (`~/.config/edl` on Linux), if
/// the platform has one for this user.
pub fn edl_config_dir() -> (r: Option<String>) {
    match edl_project_dirs() {
        Some(d) => Some(project_config_dir(&d)),
        None => None,
    }
}

/// The user's download directory, if the platform knows one.
pub fn user_download_dir() -> (r: Option<String>) {
    match user_dirs() {
        Some(d) => user_download_dir_of(&d),
        None => None,
    }
}

} // verus!
