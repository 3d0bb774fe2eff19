//! Resolution of external command names on a search path.
//!
//! The filesystem is read outside the library; it hands in, for each search
//! directory in listed order, whether that directory's entry for the command
//! is an executable file. The selection logic here is verified: the first
//! executable candidate wins.

use vstd::prelude::*;

verus! {

/// Whether a file permission mode has any execute bit set.
pub fn is_executable_mode(mode: u32) -> (r: bool)
    ensures
        r == ((mode & 0o111) != 0),
{
    mode & 0o111 != 0
}

/// One search directory together with the filesystem's answer for the
/// command being resolved: whether `<dir>/<command>` exists and is
/// executable. An entry that exists without execute permission is not
/// executable and is skipped like a missing one.
pub struct PathCandidate {
    pub dir: String,
    pub executable: bool,
}

/// The full path a directory entry would resolve to.
pub fn candidate_path(dir: &str, cmd: &str) -> (r: String)
    ensures
        r@ == dir@ + "/"@ + cmd@,
{
    let mut r = String::new();
    r.append(dir);
    r.append("/");
    r.append(cmd);
    r
}

/// The resolution of `cmd` over the candidates in listed order: the joined
/// path of the first executable one.
pub open spec fn spec_resolve(cands: Seq<PathCandidate>, cmd: Seq<char>) -> Option<Seq<char>>
    decreases cands.len(),
{
    if cands.len() == 0 {
        None
    } else if cands[0].executable {
        Some(cands[0].dir@ + "/"@ + cmd)
    } else {
        spec_resolve(cands.drop_first(), cmd)
    }
}

/// Searches the candidates in listed order and returns the full path of the
/// first executable match, or nothing when no directory has one.
pub fn find_first_executable(cands: &Vec<PathCandidate>, cmd: &str) -> (r: Option<String>)
    ensures
        match r {
            Some(p) => spec_resolve(cands@, cmd@) == Some(p@),
            None => spec_resolve(cands@, cmd@) is None,
        },
{
    let mut i: usize = 0;
    proof {
        assert(cands@.skip(0) =~= cands@);
    }
    while i < cands.len()
        invariant
            i <= cands.len(),
            spec_resolve(cands@, cmd@) == spec_resolve(cands@.skip(i as int), cmd@),
        decreases cands.len() - i,
    {
        let ghost rest = cands@.skip(i as int);
        proof {
            assert(rest[0] == cands@[i as int]);
            assert(rest.drop_first() =~= cands@.skip(i + 1));
        }
        if cands[i].executable {
            let p = candidate_path(cands[i].dir.as_str(), cmd);
            return Some(p);
        }
        i = i + 1;
    }
    proof {
        assert(cands@.skip(cands@.len() as int) =~= Seq::<PathCandidate>::empty());
    }
    None
}

} // verus!
