//! The Android `emulator` executable: listing virtual devices and the
//! arguments that start one.
use vstd::prelude::*;

use crate::text::{trim, trimmed, chars_of, string_of, concat, lines, split_lines, seqs};
use crate::adb_client::CommandResult;
use crate::command_path::{ProgramError, resolves, resolve_program, strings, lemma_strings_push};

verus! {

/// The `emulator` executable to run.
#[derive(Debug, Clone, PartialEq, Eq)]
pub struct Emulator {
    pub path: String,
}

/// The trimmed non-blank lines, in order.
pub open spec fn avd_names(ls: Seq<Seq<char>>) -> Seq<Seq<char>>
    decreases ls.len(),
{
    if ls.len() == 0 {
        seq![]
    } else if trim(ls.last()).len() > 0 {
        avd_names(ls.drop_last()).push(trim(ls.last()))
    } else {
        avd_names(ls.drop_last())
    }
}

/// The AVD names that `emulator -list-avds` printed.
pub fn parse_avds(output: &str) -> (r: Vec<String>)
    ensures
        strings(r@) == avd_names(lines(output@)),
{
    let ls = split_lines(&chars_of(output));
    let ghost all = seqs(ls@);
    let mut out: Vec<String> = Vec::new();
    let mut i: usize = 0;
    proof {
        assert(all.take(0) =~= Seq::<Seq<char>>::empty());
        assert(strings(out@) =~= Seq::<Seq<char>>::empty());
    }
    while i < ls.len()
        invariant
            i <= ls@.len(),
            all == seqs(ls@),
            all == lines(output@),
            strings(out@) == avd_names(all.take(i as int)),
        decreases ls.len() - i,
    {
        proof {
            let p = all.take(i + 1);
            assert(p.drop_last() =~= all.take(i as int));
            assert(p.last() == ls@[i as int]@);
        }
        let t = trimmed(ls[i].as_slice());
        if t.len() > 0 {
            let s = string_of(&t);
            proof {
                lemma_strings_push(out@, s);
            }
            out.push(s);
        }
        i += 1;
    }
    proof {
        assert(all.take(ls@.len() as int) =~= all);
    }
    out
}

impl Emulator {
    /// The emulator at the override path, or the first executable candidate.
    pub fn resolve(override_path: Option<(String, bool)>, candidates: &[(String, bool)]) -> (r:
        Result<Emulator, ProgramError>)
        ensures
            resolves(
                "emulator"@,
                override_path,
                candidates@,
                match r {
                    Ok(e) => Ok(e.path@),
                    Err(e) => Err(e),
                },
            ),
    {
        match resolve_program("emulator", override_path, candidates) {
            Ok(path) => Ok(Emulator { path }),
            Err(e) => Err(e),
        }
    }

    pub fn path(&self) -> (r: &str)
        ensures
            r@ == self.path@,
    {
        self.path.as_str()
    }

    /// The AVDs that `emulator -list-avds` listed; its trimmed stderr when it failed.
    pub fn list_avds(output: &CommandResult) -> (r: Result<Vec<String>, String>)
        ensures
            output.success ==> r is Ok && strings(r->Ok_0@) == avd_names(lines(output.stdout@)),
            !output.success ==> r is Err && r->Err_0@ == "emulator -list-avds failed: "@ + trim(
                output.stderr@,
            ),
    {
        if !output.success {
            return Err(
                string_of(
                    &concat(
                        &chars_of("emulator -list-avds failed: "),
                        &trimmed(&chars_of(output.stderr.as_str())),
                    ),
                ),
            );
        }
        Ok(parse_avds(output.stdout.as_str()))
    }

    /// The arguments that start the AVD `name`.
    pub fn launch_args(name: &str) -> (r: Vec<String>)
        ensures
            strings(r@) == seq!["-avd"@, name@],
    {
        let mut v: Vec<String> = Vec::new();
        let a = "-avd".to_string();
        let b = name.to_string();
        proof {
            lemma_strings_push(v@, a);
        }
        v.push(a);
        proof {
            lemma_strings_push(v@, b);
        }
        v.push(b);
        proof {
            assert(strings(v@) =~= seq!["-avd"@, name@]);
        }
        v
    }
}

} // verus!
