//! The program to start once the display is up: where it is looked for, and whether it may
//! run.

use vstd::prelude::*;

use crate::utils::text;

verus! {

/// A path below a directory: the directory, a slash unless it ends in one, and the rest.
pub open spec fn joined(directory: Seq<char>, rest: Seq<char>) -> Seq<char> {
    if directory.len() == 0 {
        rest
    } else if directory.last() == '/' {
        directory + rest
    } else {
        directory + seq!['/'] + rest
    }
}

/// A path below a directory, for a `rest` that does not begin with a slash.
fn join(directory: &str, rest: &str) -> (r: String)
    ensures
        r@ == joined(directory@, rest@),
{
    let n: usize = directory.unicode_len();
    let mut path = String::from_str(directory);
    if n > 0 && directory.get_char(n - 1) != '/' {
        proof {
            reveal_strlit("/");
            assert("/"@ =~= seq!['/']);
        }
        path.append("/");
    }
    path.append(rest);
    assert(path@ =~= joined(directory@, rest@));
    path
}

/// Where the startup program is looked for, by the two directories that the environment
/// names.
pub open spec fn candidate_paths(xdg_config: Option<Seq<char>>, home: Option<Seq<char>>) -> Seq<
    Seq<char>,
> {
    let first = match xdg_config {
        Some(directory) => seq![joined(directory, "swl/run"@)],
        None => Seq::<Seq<char>>::empty(),
    };
    match home {
        Some(directory) => first.push(joined(directory, ".config/swl/run"@)),
        None => first,
    }
}

/// Where the startup program is looked for: in the configuration directory, then below the
/// home directory.
pub fn config_candidates(xdg_config: Option<&str>, home: Option<&str>) -> (r: Vec<String>)
    ensures
        text::string_views(r@) == candidate_paths(text::text_of(xdg_config), text::text_of(home)),
{
    let mut paths: Vec<String> = Vec::new();
    match xdg_config {
        Some(directory) => {
            paths.push(join(directory, "swl/run"));
        },
        None => {},
    }
    match home {
        Some(directory) => {
            paths.push(join(directory, ".config/swl/run"));
        },
        None => {},
    }
    assert(text::string_views(paths@) =~= candidate_paths(
        text::text_of(xdg_config),
        text::text_of(home),
    ));
    paths
}

/// The first candidate that exists.
pub fn find_config_program(present: &Vec<bool>) -> (r: Option<usize>)
    ensures
        match r {
            Some(i) => i < present@.len() && present@[i as int] && forall|j: int|
                0 <= j < i ==> !present@[j],
            None => forall|j: int| 0 <= j < present@.len() ==> !present@[j],
        },
{
    let mut i: usize = 0;
    while i < present.len()
        invariant
            i <= present@.len(),
            forall|j: int| 0 <= j < i ==> !present@[j],
        decreases present@.len() - i,
    {
        if present[i] {
            return Some(i);
        }
        i = i + 1;
    }
    None
}

/// Which program to start.
pub enum Startup {
    /// The one that `SWL_RUN` names.
    Named,
    /// The candidate at this place.
    Found(usize),
    /// None.
    Nothing,
}

/// Which program to start: the one that `SWL_RUN` names, whatever else is there, or the
/// first candidate that exists.
pub fn run_startup_program(named: bool, present: &Vec<bool>) -> (r: Startup)
    ensures
        match r {
            Startup::Named => named,
            Startup::Found(i) => !named && i < present@.len() && present@[i as int] && forall|j: int|
                0 <= j < i ==> !present@[j],
            Startup::Nothing => !named && forall|j: int| 0 <= j < present@.len() ==> !present@[j],
        },
{
    if named {
        return Startup::Named;
    }
    match find_config_program(present) {
        Some(i) => Startup::Found(i),
        None => Startup::Nothing,
    }
}

/// Whether any of the three execute bits is set: for the owner, the group or the others.
pub open spec fn has_execute_bit(mode: u32) -> bool {
    mode & 64 != 0 || mode & 8 != 0 || mode & 1 != 0
}

/// Whether a file with these permission bits may be executed. `None` stands for a file whose
/// permissions cannot be read.
pub fn is_executable(mode: Option<u32>) -> (r: bool)
    ensures
        r == (mode matches Some(bits) && has_execute_bit(bits)),
{
    match mode {
        Some(bits) => {
            assert((bits & 0o111 != 0) == (bits & 64 != 0 || bits & 8 != 0 || bits & 1 != 0))
                by (bit_vector);
            bits & 0o111 != 0
        },
        None => false,
    }
}

/// Whether to execute a program: not if it exists and is not executable. A program that does
/// not exist as a path may still be found by its name.
pub fn execute_program(present: bool, mode: Option<u32>) -> (r: bool)
    ensures
        r == (present ==> (mode matches Some(bits) && has_execute_bit(bits))),
{
    !present || is_executable(mode)
}

/// The startup program is looked for in the configuration directory first, as `swl/run`, and then
/// below the home directory, as `.config/swl/run`; a directory that is not known is left out.
pub proof fn law_candidate_paths(xdg_config: Option<Seq<char>>, home: Option<Seq<char>>)
    ensures
        ({
            let paths = candidate_paths(xdg_config, home);
            &&& xdg_config is Some && home is Some ==> paths.len() == 2 && paths[0] == joined(
                xdg_config.unwrap(),
                "swl/run"@,
            ) && paths[1] == joined(home.unwrap(), ".config/swl/run"@)
            &&& xdg_config is Some && home is None ==> paths == seq![
                joined(xdg_config.unwrap(), "swl/run"@),
            ]
            &&& xdg_config is None && home is Some ==> paths == seq![
                joined(home.unwrap(), ".config/swl/run"@),
            ]
            &&& xdg_config is None && home is None ==> paths.len() == 0
        }),
{
}

/// A path below a directory is the directory, one slash, and the rest; below no directory, it is
/// the rest.
pub proof fn law_joined(directory: Seq<char>, rest: Seq<char>)
    ensures
        directory.len() > 0 && directory.last() != '/' ==> joined(directory, rest) == directory.push(
            '/',
        ) + rest,
        joined(directory.push('/'), rest) == directory.push('/') + rest,
        joined(Seq::empty(), rest) == rest,
{
    assert(directory + seq!['/'] =~= directory.push('/'));
}

} // verus!
