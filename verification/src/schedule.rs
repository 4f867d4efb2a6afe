//! The run's decisions: the cache gate, the address of a build's page, the
//! progress monitor's stop test, and the purge rule for stale cache entries.

use vstd::prelude::*;
use vstd::string::StrSliceExecFns;
use vstd::string::StringExecFns;
use crate::text::{
    append_u64, dec_digits, ends_with_seq, parse_u64, str_ends_with, token_u64,
};

verus! {

/// What the run does with one requested evaluation.
#[derive(Clone, Copy, Debug, PartialEq, Eq, Structural)]
pub enum EvalAction {
    /// The evaluation's output already exists: nothing is read or fetched.
    Skip,
    /// The evaluation's builds are read, fetched and published.
    Process,
}

/// The cache gate: an evaluation whose output file already exists is skipped
/// entirely, and only then.
pub fn eval_action(cache_exists: bool) -> (r: EvalAction)
    ensures
        (r is Skip) <==> cache_exists,
{
    if cache_exists {
        EvalAction::Skip
    } else {
        EvalAction::Process
    }
}

/// True when the monitor loop may stop: all spawned workers have finished.
pub fn monitor_done(remaining: u64) -> (r: bool)
    ensures
        r <==> remaining == 0,
{
    remaining == 0
}

/// The address of a build's status page.
pub fn build_url(id: u64) -> (r: String)
    ensures
        r@ == "https://hydra.nixos.org/build/"@ + dec_digits(id as nat),
{
    let mut out = String::new();
    out.append("https://hydra.nixos.org/build/");
    append_u64(&mut out, id);
    out
}

/// A cache directory entry is purged when its name is `<n>.cache` for a
/// decimal `n` outside the requested set. Other entries are left alone.
pub open spec fn purge_decision(name: Seq<char>, requested: Seq<u64>) -> bool {
    if !ends_with_seq(name, ".cache"@) {
        false
    } else {
        match token_u64(name.subrange(0, name.len() - ".cache"@.len())) {
            Some(v) => !requested.contains(v),
            None => false,
        }
    }
}

fn contains_u64(v: &Vec<u64>, x: u64) -> (r: bool)
    ensures
        r == v@.contains(x),
{
    let mut i: usize = 0;
    while i < v.len()
        invariant
            i <= v@.len(),
            forall|k: int| 0 <= k < i ==> v@[k] != x,
        decreases v@.len() - i,
    {
        if v[i] == x {
            proof {
                assert(v@[i as int] == x);
            }
            return true;
        }
        i += 1;
    }
    false
}

/// The purge rule, applied to one directory entry name.
pub fn purge_should_delete(name: &str, requested: &Vec<u64>) -> (r: bool)
    ensures
        r == purge_decision(name@, requested@),
{
    proof {
        reveal_strlit(".cache");
    }
    let nlen = name.unicode_len();
    if !str_ends_with(name, ".cache") {
        return false;
    }
    let stem = name.substring_char(0, nlen - 6);
    match parse_u64(stem) {
        None => false,
        Some(v) => !contains_u64(requested, v),
    }
}

} // verus!
