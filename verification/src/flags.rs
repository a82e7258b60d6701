//! Extraction of the canonical flag set of one invocation.
//!
//! The flag set is the token sequence of the command string, with a leading
//! `cd <dir> &&` working-directory prefix removed and with repeated tokens
//! dropped (the first occurrence keeps its position).

use vstd::prelude::*;

use crate::strutil::str_eq;
use crate::tokenize::{spec_tokenize, tokenize};

verus! {

/// The tokens with a leading `cd <dir> &&` prefix removed.
pub open spec fn spec_strip_cd(toks: Seq<Seq<char>>) -> Seq<Seq<char>> {
    if toks.len() >= 3 && toks[0] == "cd"@ && toks[2] == "&&"@ {
        toks.skip(3)
    } else {
        toks
    }
}

/// The sequence with later repetitions of a token dropped.
pub open spec fn spec_dedup(toks: Seq<Seq<char>>) -> Seq<Seq<char>>
    decreases toks.len(),
{
    if toks.len() == 0 {
        Seq::empty()
    } else if toks.drop_last().contains(toks.last()) {
        spec_dedup(toks.drop_last())
    } else {
        spec_dedup(toks.drop_last()).push(toks.last())
    }
}

/// The canonical flag set of the command string `cmd`; meaningful when
/// `cmd` tokenizes.
pub open spec fn spec_flags_of(cmd: Seq<char>) -> Seq<Seq<char>> {
    match spec_tokenize(cmd) {
        Some(toks) => spec_dedup(spec_strip_cd(toks)),
        None => Seq::empty(),
    }
}

/// A token kept by [`spec_dedup`] is one of the input tokens, and every
/// input token is kept once.
pub proof fn lemma_dedup_membership(toks: Seq<Seq<char>>, t: Seq<char>)
    ensures
        spec_dedup(toks).contains(t) <==> toks.contains(t),
    decreases toks.len(),
{
    if toks.len() > 0 {
        let pre = toks.drop_last();
        let dpre = spec_dedup(pre);
        lemma_dedup_membership(pre, t);
        if !pre.contains(toks.last()) {
            crate::strutil::lemma_contains_push(dpre, toks.last(), t);
        }
        assert(pre.contains(t) ==> toks.contains(t)) by {
            if pre.contains(t) {
                let k = choose|k: int| 0 <= k < pre.len() && pre[k] == t;
                assert(toks[k] == t);
            }
        }
        if toks.contains(t) {
            let k = choose|k: int| 0 <= k < toks.len() && toks[k] == t;
            if k < toks.len() - 1 {
                assert(pre[k] == t);
                assert(pre.contains(t));
            } else {
                assert(t == toks.last());
                if pre.contains(toks.last()) {
                    assert(dpre.contains(t));
                } else {
                    assert(spec_dedup(toks)[dpre.len() as int] == t);
                    assert(spec_dedup(toks).contains(t));
                }
            }
        }
        if spec_dedup(toks).contains(t) {
            if pre.contains(toks.last()) {
                assert(dpre.contains(t));
            } else {
                let k = choose|k: int|
                    0 <= k < spec_dedup(toks).len() && spec_dedup(toks)[k] == t;
                if k < dpre.len() {
                    assert(dpre[k] == t);
                    assert(dpre.contains(t));
                } else {
                    assert(t == toks.last());
                    assert(toks.contains(t));
                }
            }
        }
    }
}

/// Tokenizing a quote-free command line and re-joining its tokens with
/// single spaces yields a functionally equivalent flag set: the flags of
/// the re-joined line are the flags of the original line, with order and
/// membership preserved.
pub proof fn lemma_round_trip_flag_set(line: Seq<char>)
    requires
        crate::tokenize::spec_quote_free(line),
    ensures
        spec_tokenize(line) is Some,
        (match spec_tokenize(line) {
            Some(toks) => spec_flags_of(crate::strutil::spec_join_spaces(toks)) == spec_flags_of(
                line,
            ),
            None => false,
        }),
{
    crate::tokenize::lemma_tokenize_join_round_trip(line);
}

/// Failure of flag extraction: the command string has malformed quoting.
#[derive(Debug, Clone, Copy, PartialEq, Eq, Structural)]
pub enum FlagExtractError {
    Tokenize,
}

/// The ordered, deduplicated flag set of one invocation, shared by every
/// file that the invocation compiles.
#[derive(Debug)]
pub struct CompileFlags {
    /// The flag tokens, in first-occurrence order.
    pub flags: Vec<String>,
}

impl View for CompileFlags {
    type V = Seq<Seq<char>>;

    open spec fn view(&self) -> Seq<Seq<char>> {
        self.flags.deep_view()
    }
}

impl Clone for CompileFlags {
    /// Cloning keeps the flag tokens.
    fn clone(&self) -> (r: Self)
        ensures
            r@ == self@,
    {
        let r = CompileFlags { flags: self.flags.clone() };
        proof {
            assert(r.flags.deep_view() =~= self.flags.deep_view());
        }
        r
    }
}

/// True when `v` holds a string whose characters are `t`.
pub fn contains_token(v: &Vec<String>, t: &str) -> (r: bool)
    ensures
        r == v.deep_view().contains(t@),
{
    let mut j: usize = 0;
    while j < v.len()
        invariant
            j <= v.len(),
            forall|k: int| 0 <= k < j ==> v.deep_view()[k] != t@,
        decreases v.len() - j,
    {
        if str_eq(v[j].as_str(), t) {
            proof {
                assert(v.deep_view()[j as int] == t@);
            }
            return true;
        }
        j = j + 1;
    }
    false
}

impl CompileFlags {
    /// Derives the canonical flag set from the full invocation text.
    pub fn from_command(command: &str) -> (r: Result<CompileFlags, FlagExtractError>)
        ensures
            match r {
                Ok(f) => spec_tokenize(command@) is Some && f@ == spec_flags_of(command@),
                Err(_) => spec_tokenize(command@) is None,
            },
    {
        let toks = match tokenize(command) {
            Ok(t) => t,
            Err(_) => {
                return Err(FlagExtractError::Tokenize);
            },
        };
        let start: usize = if toks.len() >= 3 && str_eq(toks[0].as_str(), "cd") && str_eq(
            toks[2].as_str(),
            "&&",
        ) {
            3
        } else {
            0
        };
        let ghost body = spec_strip_cd(toks.deep_view());
        proof {
            assert(body =~= toks.deep_view().subrange(start as int, toks.len() as int));
        }
        let mut out: Vec<String> = Vec::new();
        let mut i: usize = start;
        proof {
            assert(out.deep_view() =~= Seq::<Seq<char>>::empty());
            assert(body.subrange(0, 0) =~= Seq::<Seq<char>>::empty());
        }
        while i < toks.len()
            invariant
                start <= i <= toks.len(),
                body == toks.deep_view().subrange(start as int, toks.len() as int),
                out.deep_view() == spec_dedup(body.subrange(0, i - start)),
            decreases toks.len() - i,
        {
            let ghost out0 = out.deep_view();
            let ghost done = body.subrange(0, i - start);
            let ghost next = body.subrange(0, i + 1 - start);
            proof {
                assert(next.drop_last() =~= done);
                assert(next.last() == toks.deep_view()[i as int]);
                lemma_dedup_membership(done, toks.deep_view()[i as int]);
            }
            if !contains_token(&out, toks[i].as_str()) {
                let copy = toks[i].clone();
                out.push(copy);
                proof {
                    assert(out.deep_view() =~= out0.push(toks.deep_view()[i as int]));
                }
            }
            i = i + 1;
        }
        proof {
            assert(body.subrange(0, body.len() as int) =~= body);
        }
        Ok(CompileFlags { flags: out })
    }
}

} // verus!
