//! Locating an executable: the directories searched, in order, and the choice
//! among candidates once each has been checked for being an executable file.
use vstd::prelude::*;

use crate::text::{chars_of, string_of, concat};

verus! {

/// `name` resolved against `dir`, as `Path::join` does for a relative `name`.
pub open spec fn join_path(dir: Seq<char>, name: Seq<char>) -> Seq<char> {
    if name.len() > 0 && name[0] == '/' {
        name
    } else if dir.len() == 0 || dir.last() == '/' {
        dir + name
    } else {
        dir + "/"@ + name
    }
}

pub fn join_path_exec(dir: &str, name: &str) -> (r: String)
    ensures
        r@ == join_path(dir@, name@),
{
    let d = chars_of(dir);
    let n = chars_of(name);
    if n.len() > 0 && n[0] == '/' {
        name.to_string()
    } else if d.len() == 0 || d[d.len() - 1] == '/' {
        string_of(&concat(&d, &n))
    } else {
        let a = concat(&d, &chars_of("/"));
        string_of(&concat(&a, &n))
    }
}

/// Install locations probed after `PATH`: Homebrew, `/usr/local/bin`,
/// `/usr/bin`, then the Android SDK's `platform-tools` under the home directory
/// and under `ANDROID_HOME` and `ANDROID_SDK_ROOT`, where those are set.
pub open spec fn standard_dirs_spec(
    home: Option<Seq<char>>,
    android_home: Option<Seq<char>>,
    sdk_root: Option<Seq<char>>,
) -> Seq<Seq<char>> {
    let base = seq!["/opt/homebrew/bin"@, "/usr/local/bin"@, "/usr/bin"@];
    let a = match home {
        Some(h) => base.push(join_path(h, "Library/Android/sdk/platform-tools"@)),
        None => base,
    };
    let b = match android_home {
        Some(h) => a.push(join_path(h, "platform-tools"@)),
        None => a,
    };
    match sdk_root {
        Some(h) => b.push(join_path(h, "platform-tools"@)),
        None => b,
    }
}

pub open spec fn opt_str(o: Option<&str>) -> Option<Seq<char>> {
    match o {
        Some(s) => Some(s@),
        None => None,
    }
}

pub open spec fn strings(v: Seq<String>) -> Seq<Seq<char>> {
    v.map_values(|s: String| s@)
}

pub proof fn lemma_strings_push(v: Seq<String>, s: String)
    ensures
        strings(v.push(s)) == strings(v).push(s@),
{
    assert(strings(v.push(s)) =~= strings(v).push(s@));
}

pub fn standard_dirs(home: Option<&str>, android_home: Option<&str>, sdk_root: Option<&str>) -> (r:
    Vec<String>)
    ensures
        strings(r@) == standard_dirs_spec(opt_str(home), opt_str(android_home), opt_str(sdk_root)),
{
    let mut dirs: Vec<String> = Vec::new();
    let a = "/opt/homebrew/bin".to_string();
    let b = "/usr/local/bin".to_string();
    let c = "/usr/bin".to_string();
    proof {
        lemma_strings_push(dirs@, a);
    }
    dirs.push(a);
    proof {
        lemma_strings_push(dirs@, b);
    }
    dirs.push(b);
    proof {
        lemma_strings_push(dirs@, c);
    }
    dirs.push(c);
    proof {
        assert(strings(dirs@) =~= seq!["/opt/homebrew/bin"@, "/usr/local/bin"@, "/usr/bin"@]);
    }
    if let Some(h) = home {
        let d = join_path_exec(h, "Library/Android/sdk/platform-tools");
        proof {
            lemma_strings_push(dirs@, d);
        }
        dirs.push(d);
    }
    if let Some(h) = android_home {
        let d = join_path_exec(h, "platform-tools");
        proof {
            lemma_strings_push(dirs@, d);
        }
        dirs.push(d);
    }
    if let Some(h) = sdk_root {
        let d = join_path_exec(h, "platform-tools");
        proof {
            lemma_strings_push(dirs@, d);
        }
        dirs.push(d);
    }
    dirs
}

/// The paths probed for `name`, one per directory, in the directories' order.
pub fn program_candidates(name: &str, dirs: &[String]) -> (r: Vec<String>)
    ensures
        r@.len() == dirs@.len(),
        forall|i: int| 0 <= i < dirs@.len() ==> #[trigger] r@[i]@ == join_path(dirs@[i]@, name@),
{
    let mut out: Vec<String> = Vec::new();
    let mut i: usize = 0;
    while i < dirs.len()
        invariant
            i <= dirs@.len(),
            out@.len() == i,
            forall|k: int| 0 <= k < i ==> #[trigger] out@[k]@ == join_path(dirs@[k]@, name@),
        decreases dirs.len() - i,
    {
        out.push(join_path_exec(dirs[i].as_str(), name));
        i += 1;
    }
    out
}

/// Why a program could not be resolved.
#[derive(Debug, Clone, PartialEq, Eq)]
pub enum ProgramError {
    /// The path given for it is missing or not an executable file.
    NotExecutable { name: String, path: String },
    /// No directory searched holds an executable of that name.
    NotFound { name: String },
}

pub open spec fn program_error_message(e: ProgramError) -> Seq<char> {
    match e {
        ProgramError::NotExecutable { name, path } => name@
            + " was not found or is not executable at "@ + path@,
        ProgramError::NotFound { name } => name@
            + " was not found. Install it and make sure it is available on PATH."@,
    }
}

impl ProgramError {
    pub fn message(&self) -> (r: String)
        ensures
            r@ == program_error_message(*self),
    {
        match self {
            ProgramError::NotExecutable { name, path } => {
                let a = concat(
                    &chars_of(name.as_str()),
                    &chars_of(" was not found or is not executable at "),
                );
                string_of(&concat(&a, &chars_of(path.as_str())))
            },
            ProgramError::NotFound { name } => string_of(
                &concat(
                    &chars_of(name.as_str()),
                    &chars_of(" was not found. Install it and make sure it is available on PATH."),
                ),
            ),
        }
    }
}

/// The first candidate that is an executable file.
pub open spec fn first_executable(c: Seq<(Seq<char>, bool)>) -> Option<Seq<char>>
    decreases c.len(),
{
    if c.len() == 0 {
        None
    } else if c[0].1 {
        Some(c[0].0)
    } else {
        first_executable(c.skip(1))
    }
}

pub open spec fn checked_views(c: Seq<(String, bool)>) -> Seq<(Seq<char>, bool)> {
    c.map_values(|p: (String, bool)| (p.0@, p.1))
}

/// What resolving `name` must give: the override path when it is executable and
/// an error naming it when it is not; without one, the first executable
/// candidate, or an error when there is none.
pub open spec fn resolves(
    name: Seq<char>,
    override_path: Option<(String, bool)>,
    candidates: Seq<(String, bool)>,
    r: Result<Seq<char>, ProgramError>,
) -> bool {
    match override_path {
        Some((p, true)) => r == Ok::<Seq<char>, ProgramError>(p@),
        Some((p, false)) => (r matches Err(ProgramError::NotExecutable { name: n, path: q })
            && n@ == name && q@ == p@),
        None => match first_executable(checked_views(candidates)) {
            Some(p) => r == Ok::<Seq<char>, ProgramError>(p),
            None => (r matches Err(ProgramError::NotFound { name: n }) && n@ == name),
        },
    }
}

pub open spec fn path_result(r: Result<String, ProgramError>) -> Result<Seq<char>, ProgramError> {
    match r {
        Ok(p) => Ok(p@),
        Err(e) => Err(e),
    }
}

/// Resolves `name` from an override path or else from the candidate paths,
/// each given with whether it is an executable file.
pub fn resolve_program(
    name: &str,
    override_path: Option<(String, bool)>,
    candidates: &[(String, bool)],
) -> (r: Result<String, ProgramError>)
    ensures
        resolves(name@, override_path, candidates@, path_result(r)),
{
    if let Some((path, executable)) = override_path {
        if executable {
            return Ok(path);
        }
        return Err(ProgramError::NotExecutable { name: name.to_string(), path });
    }
    let ghost cv = checked_views(candidates@);
    let mut i: usize = 0;
    proof {
        assert(cv.skip(0) =~= cv);
    }
    while i < candidates.len()
        invariant
            i <= candidates@.len(),
            override_path is None,
            cv == checked_views(candidates@),
            first_executable(cv) == first_executable(cv.skip(i as int)),
        decreases candidates.len() - i,
    {
        proof {
            assert(cv.skip(i as int)[0] == (candidates@[i as int].0@, candidates@[i as int].1));
            assert(cv.skip(i as int).skip(1) =~= cv.skip(i + 1));
        }
        if candidates[i].1 {
            return Ok(candidates[i].0.clone());
        }
        i += 1;
    }
    Err(ProgramError::NotFound { name: name.to_string() })
}

} // verus!
