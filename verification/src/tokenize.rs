//! Shell-style tokenization of one invocation line.
//!
//! A line is split on unquoted spaces and tabs.  Single quotes make every
//! character up to the closing quote literal; double quotes do the same but
//! allow a backslash to escape the next character; outside quotes a
//! backslash escapes the next character.  Tokenization fails when a quote
//! is left unterminated or the line ends in a dangling backslash.

use vstd::prelude::*;

use crate::strutil::spec_join_spaces;

verus! {

/// State of the lexer between two characters.
pub enum LexState {
    /// Outside quotes.
    Normal,
    /// Outside quotes, right after a backslash.
    NormalEsc,
    /// Inside single quotes.
    Single,
    /// Inside double quotes.
    InDouble,
    /// Inside double quotes, right after a backslash.
    DoubleEsc,
}

/// True for the characters that separate tokens.
pub open spec fn spec_is_space(c: char) -> bool {
    c == ' ' || c == '\t'
}

/// One step short of the whole tokenizer: consumes `s` starting in state
/// `st` with the partial token `cur` (`started` says whether a token is
/// open, so that quotes can produce empty tokens), with `acc` already
/// produced.  `None` means malformed quoting.
pub open spec fn spec_lex(
    s: Seq<char>,
    st: LexState,
    cur: Seq<char>,
    started: bool,
    acc: Seq<Seq<char>>,
) -> Option<Seq<Seq<char>>>
    decreases s.len(),
{
    if s.len() == 0 {
        match st {
            LexState::Normal => Some(
                if started {
                    acc.push(cur)
                } else {
                    acc
                },
            ),
            _ => None,
        }
    } else {
        let c = s[0];
        let rest = s.drop_first();
        match st {
            LexState::Normal => {
                if spec_is_space(c) {
                    if started {
                        spec_lex(rest, LexState::Normal, Seq::empty(), false, acc.push(cur))
                    } else {
                        spec_lex(rest, LexState::Normal, cur, false, acc)
                    }
                } else if c == '\\' {
                    spec_lex(rest, LexState::NormalEsc, cur, started, acc)
                } else if c == '\'' {
                    spec_lex(rest, LexState::Single, cur, true, acc)
                } else if c == '"' {
                    spec_lex(rest, LexState::InDouble, cur, true, acc)
                } else {
                    spec_lex(rest, LexState::Normal, cur.push(c), true, acc)
                }
            },
            LexState::NormalEsc => spec_lex(rest, LexState::Normal, cur.push(c), true, acc),
            LexState::Single => {
                if c == '\'' {
                    spec_lex(rest, LexState::Normal, cur, true, acc)
                } else {
                    spec_lex(rest, LexState::Single, cur.push(c), true, acc)
                }
            },
            LexState::InDouble => {
                if c == '"' {
                    spec_lex(rest, LexState::Normal, cur, true, acc)
                } else if c == '\\' {
                    spec_lex(rest, LexState::DoubleEsc, cur, true, acc)
                } else {
                    spec_lex(rest, LexState::InDouble, cur.push(c), true, acc)
                }
            },
            LexState::DoubleEsc => spec_lex(rest, LexState::InDouble, cur.push(c), true, acc),
        }
    }
}

/// The token sequence of `line`, or `None` when its quoting is malformed.
pub open spec fn spec_tokenize(line: Seq<char>) -> Option<Seq<Seq<char>>> {
    spec_lex(line, LexState::Normal, Seq::empty(), false, Seq::empty())
}

/// True for a character that neither separates tokens nor starts quoting
/// or escaping.
pub open spec fn spec_plain_char(c: char) -> bool {
    !spec_is_space(c) && c != '\\' && c != '\'' && c != '"'
}

/// True when `s` uses no quoting and no escaping at all.
pub open spec fn spec_quote_free(s: Seq<char>) -> bool {
    forall|i: int| 0 <= i < s.len() ==> s[i] != '\\' && s[i] != '\'' && s[i] != '"'
}

/// A non-empty token all of whose characters are plain.
pub open spec fn spec_plain_token(t: Seq<char>) -> bool {
    t.len() > 0 && forall|i: int| 0 <= i < t.len() ==> spec_plain_char(t[i])
}

/// Consuming a run of plain characters just extends the open token.
proof fn lemma_lex_plain_run(
    t: Seq<char>,
    rest: Seq<char>,
    cur: Seq<char>,
    started: bool,
    acc: Seq<Seq<char>>,
)
    requires
        forall|i: int| 0 <= i < t.len() ==> spec_plain_char(t[i]),
    ensures
        spec_lex(t + rest, LexState::Normal, cur, started, acc) == spec_lex(
            rest,
            LexState::Normal,
            cur + t,
            started || t.len() > 0,
            acc,
        ),
    decreases t.len(),
{
    if t.len() == 0 {
        assert(t + rest =~= rest);
        assert(cur + t =~= cur);
    } else {
        let c = t[0];
        assert((t + rest)[0] == c);
        assert((t + rest).drop_first() =~= t.drop_first() + rest);
        assert(forall|i: int|
            0 <= i < t.drop_first().len() ==> spec_plain_char(#[trigger] t.drop_first()[i]));
        lemma_lex_plain_run(t.drop_first(), rest, cur.push(c), true, acc);
        assert(cur.push(c) + t.drop_first() =~= cur + t);
    }
}

/// `spec_join_spaces` peeled off at the front instead of the back.
proof fn lemma_join_front(toks: Seq<Seq<char>>)
    requires
        toks.len() >= 2,
    ensures
        spec_join_spaces(toks) == toks.first() + (seq![' '] + spec_join_spaces(toks.drop_first())),
    decreases toks.len(),
{
    if toks.len() == 2 {
        assert(toks.drop_last()[0] == toks[0]);
        assert(toks.drop_first()[0] == toks[1]);
        assert(spec_join_spaces(toks) =~= toks.first() + (seq![' '] + spec_join_spaces(
            toks.drop_first(),
        )));
    } else {
        lemma_join_front(toks.drop_last());
        assert(toks.drop_last().first() == toks.first());
        assert(toks.drop_last().drop_first() =~= toks.drop_first().drop_last());
        assert(toks.drop_first().last() == toks.last());
        assert(spec_join_spaces(toks) == spec_join_spaces(toks.drop_last()) + seq![' ']
            + toks.last());
        assert(toks.first() + (seq![' '] + spec_join_spaces(toks.drop_first())) =~= toks.first()
            + (seq![' '] + spec_join_spaces(toks.drop_first().drop_last())) + seq![' ']
            + toks.last());
        assert(spec_join_spaces(toks) =~= toks.first() + (seq![' '] + spec_join_spaces(
            toks.drop_first(),
        )));
    }
}

/// Tokenizing the single-space join of non-empty plain tokens gives the
/// tokens back.
proof fn lemma_lex_join(toks: Seq<Seq<char>>, acc: Seq<Seq<char>>)
    requires
        forall|k: int| 0 <= k < toks.len() ==> spec_plain_token(#[trigger] toks[k]),
    ensures
        spec_lex(spec_join_spaces(toks), LexState::Normal, Seq::empty(), false, acc) == Some(
            acc + toks,
        ),
    decreases toks.len(),
{
    if toks.len() == 0 {
        assert(acc + toks =~= acc);
    } else if toks.len() == 1 {
        let t = toks[0];
        assert(spec_plain_token(t));
        assert(spec_join_spaces(toks) =~= t + Seq::<char>::empty());
        lemma_lex_plain_run(t, Seq::empty(), Seq::empty(), false, acc);
        assert(Seq::<char>::empty() + t =~= t);
        assert(spec_lex(Seq::empty(), LexState::Normal, t, true, acc) == Some(acc.push(t)));
        assert(acc.push(t) =~= acc + toks);
    } else {
        let t = toks.first();
        let rest = toks.drop_first();
        lemma_join_front(toks);
        let tail = seq![' '] + spec_join_spaces(rest);
        lemma_lex_plain_run(t, tail, Seq::empty(), false, acc);
        assert(Seq::<char>::empty() + t =~= t);
        assert(tail[0] == ' ');
        assert(tail.drop_first() =~= spec_join_spaces(rest));
        assert(spec_lex(tail, LexState::Normal, t, true, acc) == spec_lex(
            spec_join_spaces(rest),
            LexState::Normal,
            Seq::empty(),
            false,
            acc.push(t),
        ));
        assert(forall|k: int| 0 <= k < rest.len() ==> spec_plain_token(#[trigger] rest[k]));
        lemma_lex_join(rest, acc.push(t));
        assert(acc.push(t) + rest =~= acc + toks);
    }
}

/// On a quote-free line the lexer always succeeds, and every token it
/// produces past `acc` is non-empty and plain.
proof fn lemma_quote_free_lex(s: Seq<char>, cur: Seq<char>, started: bool, acc: Seq<Seq<char>>)
    requires
        spec_quote_free(s),
        forall|i: int| 0 <= i < cur.len() ==> spec_plain_char(cur[i]),
        started ==> cur.len() > 0,
    ensures
        spec_lex(s, LexState::Normal, cur, started, acc) is Some,
        (match spec_lex(s, LexState::Normal, cur, started, acc) {
            Some(res) => res.len() >= acc.len() && res.subrange(0, acc.len() as int) == acc
                && forall|k: int|
                acc.len() <= k < res.len() ==> spec_plain_token(#[trigger] res[k]),
            None => false,
        }),
    decreases s.len(),
{
    if s.len() == 0 {
        if started {
            assert(acc.push(cur).subrange(0, acc.len() as int) =~= acc);
            assert(spec_plain_token(cur));
        } else {
            assert(acc.subrange(0, acc.len() as int) =~= acc);
        }
    } else {
        let c = s[0];
        let rest = s.drop_first();
        assert(spec_quote_free(rest)) by {
            assert forall|i: int|
                0 <= i < rest.len() implies rest[i] != '\\' && rest[i] != '\'' && rest[i]
                != '"' by {
                assert(rest[i] == s[i + 1]);
            }
        }
        if spec_is_space(c) {
            if started {
                lemma_quote_free_lex(rest, Seq::empty(), false, acc.push(cur));
                assert(spec_plain_token(cur));
                let res = spec_lex(s, LexState::Normal, cur, started, acc)->0;
                assert(res.subrange(0, acc.len() as int + 1) == acc.push(cur));
                assert(res.subrange(0, acc.len() as int) =~= acc.push(cur).subrange(
                    0,
                    acc.len() as int,
                ));
                assert(acc.push(cur).subrange(0, acc.len() as int) =~= acc);
                assert(res[acc.len() as int] == acc.push(cur)[acc.len() as int]);
            } else {
                lemma_quote_free_lex(rest, cur, false, acc);
            }
        } else {
            assert(spec_plain_char(c));
            lemma_quote_free_lex(rest, cur.push(c), true, acc);
        }
    }
}

/// Tokenizing a quote-free line succeeds, and tokenizing the single-space
/// re-join of its tokens gives the same tokens back.
pub proof fn lemma_tokenize_join_round_trip(line: Seq<char>)
    requires
        spec_quote_free(line),
    ensures
        spec_tokenize(line) is Some,
        (match spec_tokenize(line) {
            Some(toks) => spec_tokenize(spec_join_spaces(toks)) == Some(toks),
            None => false,
        }),
{
    lemma_quote_free_lex(line, Seq::empty(), false, Seq::empty());
    let toks = spec_tokenize(line)->0;
    assert(Seq::<Seq<char>>::empty().subrange(0, 0) =~= Seq::<Seq<char>>::empty());
    assert(forall|k: int| 0 <= k < toks.len() ==> spec_plain_token(#[trigger] toks[k]));
    lemma_lex_join(toks, Seq::empty());
    assert(Seq::<Seq<char>>::empty() + toks =~= toks);
}

/// Failure of [`tokenize`]: a quote was never closed, or the line ended in
/// a dangling backslash.
#[derive(Debug, Clone, Copy, PartialEq, Eq, Structural)]
pub enum TokenizeError {
    Unterminated,
}

/// Splits one shell-style command line into its argument tokens.
pub fn tokenize(line: &str) -> (r: Result<Vec<String>, TokenizeError>)
    ensures
        match r {
            Ok(toks) => spec_tokenize(line@) == Some(toks.deep_view()),
            Err(_) => spec_tokenize(line@) is None,
        },
{
    let n = line.unicode_len();
    let mut i: usize = 0;
    let mut st = LexState::Normal;
    let mut cur = String::new();
    let mut started = false;
    let mut acc: Vec<String> = Vec::new();
    proof {
        assert(line@.subrange(0, n as int) =~= line@);
        assert(acc.deep_view() =~= Seq::<Seq<char>>::empty());
    }
    while i < n
        invariant
            i <= n,
            n == line@.len(),
            spec_lex(
                line@.subrange(i as int, n as int),
                st,
                cur@,
                started,
                acc.deep_view(),
            ) == spec_tokenize(line@),
        decreases n - i,
    {
        let ghost pre = line@.subrange(i as int, n as int);
        let ghost cur0 = cur@;
        let ghost acc0 = acc.deep_view();
        let c = line.get_char(i);
        let piece = line.substring_char(i, i + 1);
        proof {
            assert(pre[0] == line@[i as int]);
            assert(pre.drop_first() =~= line@.subrange(i as int + 1, n as int));
            assert(piece@ =~= seq![line@[i as int]]);
        }
        match st {
            LexState::Normal => {
                if c == ' ' || c == '\t' {
                    if started {
                        acc.push(cur);
                        cur = String::new();
                        started = false;
                        proof {
                            assert(acc.deep_view() =~= acc0.push(cur0));
                        }
                    }
                } else if c == '\\' {
                    st = LexState::NormalEsc;
                } else if c == '\'' {
                    st = LexState::Single;
                    started = true;
                } else if c == '"' {
                    st = LexState::InDouble;
                    started = true;
                } else {
                    cur.append(piece);
                    started = true;
                    proof {
                        assert(cur@ =~= cur0.push(line@[i as int]));
                    }
                }
            },
            LexState::NormalEsc => {
                cur.append(piece);
                st = LexState::Normal;
                started = true;
                proof {
                    assert(cur@ =~= cur0.push(line@[i as int]));
                }
            },
            LexState::Single => {
                if c == '\'' {
                    st = LexState::Normal;
                    started = true;
                } else {
                    cur.append(piece);
                    started = true;
                    proof {
                        assert(cur@ =~= cur0.push(line@[i as int]));
                    }
                }
            },
            LexState::InDouble => {
                if c == '"' {
                    st = LexState::Normal;
                    started = true;
                } else if c == '\\' {
                    st = LexState::DoubleEsc;
                    started = true;
                } else {
                    cur.append(piece);
                    started = true;
                    proof {
                        assert(cur@ =~= cur0.push(line@[i as int]));
                    }
                }
            },
            LexState::DoubleEsc => {
                cur.append(piece);
                st = LexState::InDouble;
                started = true;
                proof {
                    assert(cur@ =~= cur0.push(line@[i as int]));
                }
            },
        }
        i = i + 1;
    }
    proof {
        assert(line@.subrange(n as int, n as int) =~= Seq::<char>::empty());
    }
    match st {
        LexState::Normal => {
            let ghost accv = acc.deep_view();
            let ghost curv = cur@;
            if started {
                acc.push(cur);
                proof {
                    assert(acc.deep_view() =~= accv.push(curv));
                }
            }
            Ok(acc)
        },
        _ => Err(TokenizeError::Unterminated),
    }
}

} // verus!
