//! The input reader: selecting candidate builds from an evaluation's cache
//! file. A line holds at most five whitespace-separated fields; the second is a
//! build identifier and the fifth-and-rest is a status text. Only lines whose
//! status is exactly "Dependency failed" contribute a build.

use vstd::prelude::*;
use vstd::string::StrSliceExecFns;
use crate::text::{
    all_digits, digits_val, find_from, find_space_in, first_at, first_space_in, lemma_first_at,
    parse_u64, str_eq,
};

verus! {

/// Failures of the input reader that abort the whole run.
#[derive(Clone, Copy, Debug, PartialEq, Eq, Structural)]
pub enum InputError {
    /// A contributing line's second field is not an unsigned integer.
    MalformedBuildId,
}

/// Start of whitespace-separated field `k` of the line window `[from, to)`,
/// if the line has that many fields.
pub open spec fn part_start(s: Seq<char>, from: int, to: int, k: nat) -> Option<int>
    decreases k,
{
    if k == 0 {
        Some(from)
    } else {
        match part_start(s, from, to, (k - 1) as nat) {
            Some(st) => match first_space_in(s, st, to) {
                Some(sp) => Some(sp + 1),
                None => None,
            },
            None => None,
        }
    }
}

/// Window of field `k` of the line `[from, to)`. Splitting stops after four
/// separators, so field 4 runs to the end of the line.
pub open spec fn part_window(s: Seq<char>, from: int, to: int, k: nat) -> Option<(int, int)> {
    match part_start(s, from, to, k) {
        Some(st) => if k == 4 {
            Some((st, to))
        } else {
            match first_space_in(s, st, to) {
                Some(sp) => Some((st, sp)),
                None => Some((st, to)),
            }
        },
        None => None,
    }
}

/// The line has five fields and its status field reads "Dependency failed".
pub open spec fn line_candidate(s: Seq<char>, from: int, to: int) -> bool {
    match part_window(s, from, to, 4) {
        Some((st, en)) => s.subrange(st, en) == "Dependency failed"@,
        None => false,
    }
}

/// The build identifier named by the line's second field, if it is a plain
/// decimal number in range.
pub open spec fn line_build_id(s: Seq<char>, from: int, to: int) -> Option<u64> {
    match part_window(s, from, to, 1) {
        Some((st, en)) => {
            let w = s.subrange(st, en);
            if w.len() > 0 && all_digits(w) && digits_val(w) <= u64::MAX {
                Some(digits_val(w) as u64)
            } else {
                None
            }
        },
        None => None,
    }
}

/// End of the line that starts at `from`: the next newline, or the end of
/// `s`. Out-of-window search results are clamped.
pub open spec fn line_end_of(s: Seq<char>, from: int) -> int {
    let e = match first_at(s, '\n', from) {
        Some(i) => i,
        None => s.len() as int,
    };
    if e < from {
        from
    } else if e > s.len() {
        s.len() as int
    } else {
        e
    }
}

/// The builds contributed by the lines of `s` from position `from` on, in
/// line order, or the first malformed contributing line's error.
pub open spec fn builds_of(s: Seq<char>, from: int) -> Result<Seq<u64>, InputError>
    decreases s.len() - from,
{
    if from < 0 || from >= s.len() {
        Ok(Seq::empty())
    } else {
        let to = line_end_of(s, from);
        let rest = if to + 1 < s.len() {
            builds_of(s, to + 1)
        } else {
            Ok(Seq::empty())
        };
        if to == from {
            rest
        } else if !line_candidate(s, from, to) {
            rest
        } else {
            match line_build_id(s, from, to) {
                None => Err(InputError::MalformedBuildId),
                Some(b) => match rest {
                    Ok(t) => Ok(seq![b] + t),
                    Err(er) => Err(er),
                },
            }
        }
    }
}

enum LineOutcome {
    NotCandidate,
    Bad,
    Build(u64),
}

fn line_build(content: &str, from: usize, to: usize) -> (r: LineOutcome)
    requires
        from <= to <= content@.len(),
    ensures
        (r is NotCandidate) == !line_candidate(content@, from as int, to as int),
        r is Bad ==> line_build_id(content@, from as int, to as int) is None,
        r matches LineOutcome::Build(b) ==> line_build_id(content@, from as int, to as int)
            == Some(b),
{
    let ghost cv = content@;
    let ghost f = from as int;
    let ghost t = to as int;
    proof {
        assert(part_start(cv, f, t, 0) == Some(f));
    }
    let s0 = match find_space_in(content, from, to) {
        Some(i) => i,
        None => {
            proof {
                assert(part_start(cv, f, t, 1) is None);
                assert(part_start(cv, f, t, 2) is None);
                assert(part_start(cv, f, t, 3) is None);
                assert(part_start(cv, f, t, 4) is None);
            }
            return LineOutcome::NotCandidate;
        },
    };
    proof {
        assert(part_start(cv, f, t, 1) == Some(s0 + 1 as int));
    }
    let s1 = match find_space_in(content, s0 + 1, to) {
        Some(i) => i,
        None => {
            proof {
                assert(part_start(cv, f, t, 2) is None);
                assert(part_start(cv, f, t, 3) is None);
                assert(part_start(cv, f, t, 4) is None);
            }
            return LineOutcome::NotCandidate;
        },
    };
    proof {
        assert(part_start(cv, f, t, 2) == Some(s1 + 1 as int));
    }
    let s2 = match find_space_in(content, s1 + 1, to) {
        Some(i) => i,
        None => {
            proof {
                assert(part_start(cv, f, t, 3) is None);
                assert(part_start(cv, f, t, 4) is None);
            }
            return LineOutcome::NotCandidate;
        },
    };
    proof {
        assert(part_start(cv, f, t, 3) == Some(s2 + 1 as int));
    }
    let s3 = match find_space_in(content, s2 + 1, to) {
        Some(i) => i,
        None => {
            proof {
                assert(part_start(cv, f, t, 4) is None);
            }
            return LineOutcome::NotCandidate;
        },
    };
    proof {
        assert(part_start(cv, f, t, 4) == Some(s3 + 1 as int));
        assert(part_window(cv, f, t, 4) == Some((s3 + 1 as int, t)));
    }
    let status = content.substring_char(s3 + 1, to);
    if !str_eq(status, "Dependency failed") {
        return LineOutcome::NotCandidate;
    }
    proof {
        assert(line_candidate(cv, f, t));
        assert(part_window(cv, f, t, 1) == Some((s0 + 1 as int, s1 as int)));
    }
    let id_field = content.substring_char(s0 + 1, s1);
    match parse_u64(id_field) {
        None => LineOutcome::Bad,
        Some(b) => LineOutcome::Build(b),
    }
}

pub open spec fn builds_res_view(r: Result<Vec<u64>, InputError>) -> Result<
    Seq<u64>,
    InputError,
> {
    match r {
        Ok(v) => Ok(v@),
        Err(e) => Err(e),
    }
}

fn parse_rec(content: &str, from: usize) -> (r: Result<Vec<u64>, InputError>)
    ensures
        builds_res_view(r) == builds_of(content@, from as int),
    decreases content@.len() - from,
{
    let len = content.unicode_len();
    if from >= len {
        return Ok(Vec::new());
    }
    proof {
        lemma_first_at(content@, '\n', from as int);
    }
    let to = match find_from(content, '\n', from) {
        Some(i) => i,
        None => len,
    };
    let rest = if to < len - 1 {
        parse_rec(content, to + 1)
    } else {
        Ok(Vec::new())
    };
    if to == from {
        return rest;
    }
    match line_build(content, from, to) {
        LineOutcome::NotCandidate => rest,
        LineOutcome::Bad => Err(InputError::MalformedBuildId),
        LineOutcome::Build(b) => match rest {
            Ok(t) => {
                let mut v: Vec<u64> = Vec::new();
                v.push(b);
                let mut t = t;
                let mut i: usize = 0;
                let ghost tail = t@;
                while i < t.len()
                    invariant
                        i <= tail.len(),
                        t@ == tail,
                        v@ == seq![b] + tail.take(i as int),
                    decreases tail.len() - i,
                {
                    let x = t[i];
                    v.push(x);
                    proof {
                        assert(seq![b] + tail.take(i + 1) =~= (seq![b] + tail.take(i as int)).push(
                            tail[i as int],
                        ));
                    }
                    i += 1;
                }
                proof {
                    assert(tail.take(tail.len() as int) =~= tail);
                }
                Ok(v)
            },
            Err(er) => Err(er),
        },
    }
}

/// Input filter: every build that the reader emits comes from a line whose
/// fifth-and-rest field reads exactly "Dependency failed", so no other line
/// leads to a fetch.
pub proof fn lemma_input_filter(s: Seq<char>, from: int, ids: Seq<u64>)
    requires
        0 <= from,
        builds_of(s, from) == Ok::<Seq<u64>, InputError>(ids),
    ensures
        forall|k: int|
            #![trigger ids[k]]
            0 <= k < ids.len() ==> exists|a: int|
                from <= a && #[trigger] line_candidate(s, a, line_end_of(s, a)) && line_build_id(
                    s,
                    a,
                    line_end_of(s, a),
                ) == Some(ids[k]),
    decreases s.len() - from,
{
    if from >= s.len() {
    } else {
        let to = line_end_of(s, from);
        let rest = if to + 1 < s.len() {
            builds_of(s, to + 1)
        } else {
            Ok(Seq::<u64>::empty())
        };
        if to == from || !line_candidate(s, from, to) {
            if to + 1 < s.len() {
                lemma_input_filter(s, to + 1, ids);
                assert forall|k: int| #![trigger ids[k]] 0 <= k < ids.len() implies exists|a: int|
                    from <= a && #[trigger] line_candidate(s, a, line_end_of(s, a))
                        && line_build_id(s, a, line_end_of(s, a)) == Some(ids[k]) by {
                    let a = choose|a: int|
                        to + 1 <= a && #[trigger] line_candidate(s, a, line_end_of(s, a))
                            && line_build_id(s, a, line_end_of(s, a)) == Some(ids[k]);
                    assert(from <= a);
                }
            } else {
                assert(ids =~= Seq::<u64>::empty());
            }
        } else {
            match line_build_id(s, from, to) {
                None => {},
                Some(b) => {
                    match rest {
                        Ok(t) => {
                            if to + 1 < s.len() {
                                lemma_input_filter(s, to + 1, t);
                            }
                            assert(ids == seq![b] + t);
                            assert forall|k: int| #![trigger ids[k]] 0 <= k < ids.len()
                                implies exists|a: int|
                                from <= a && #[trigger] line_candidate(s, a, line_end_of(s, a))
                                    && line_build_id(s, a, line_end_of(s, a)) == Some(ids[k]) by {
                                if k == 0 {
                                    assert(ids[0] == b);
                                    assert(line_candidate(s, from, line_end_of(s, from))
                                        && line_build_id(s, from, line_end_of(s, from)) == Some(
                                        ids[0],
                                    ));
                                } else {
                                    assert(ids[k] == t[k - 1]);
                                    let a = choose|a: int|
                                        to + 1 <= a && #[trigger] line_candidate(
                                            s,
                                            a,
                                            line_end_of(s, a),
                                        ) && line_build_id(s, a, line_end_of(s, a)) == Some(
                                            t[k - 1],
                                        );
                                    assert(line_candidate(s, a, line_end_of(s, a))
                                        && line_build_id(s, a, line_end_of(s, a)) == Some(ids[k]));
                                }
                            }
                        },
                        Err(_) => {},
                    }
                },
            }
        }
    }
}

/// Reads an evaluation's cache text and returns the builds whose terminal
/// status is "Dependency failed", in line order. Empty lines and lines with
/// fewer than five fields or another status contribute nothing; a
/// contributing line whose second field is not a decimal number in range is
/// an error.
pub fn parse_eval_cache(content: &str) -> (r: Result<Vec<u64>, InputError>)
    ensures
        builds_res_view(r) == builds_of(content@, 0),
{
    parse_rec(content, 0)
}

} // verus!
