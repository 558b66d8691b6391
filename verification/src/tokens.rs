//! Tokenizing one input line.
//!
//! A line is split on runs of blank characters into an ordered sequence of
//! non-empty tokens. No quoting, escaping or special-character handling is
//! performed: a blank inside what a user intends as one argument cannot be
//! expressed. That is a deliberate limitation of the interpreter.

use vstd::prelude::*;

verus! {

/// A blank byte as the tokenizer understands it: the ASCII whitespace
/// characters (space, tab, line feed, vertical tab, form feed, carriage
/// return).
pub open spec fn is_space(b: u8) -> bool {
    b == 32 || b == 9 || b == 10 || b == 11 || b == 12 || b == 13
}

/// Runtime test for [`is_space`].
pub fn space(b: u8) -> (r: bool)
    ensures
        r == is_space(b),
{
    b == 32 || b == 9 || b == 10 || b == 11 || b == 12 || b == 13
}

/// The tokens of a line: maximal runs of non-blank bytes, in order.
///
/// Outside a token, a blank byte is skipped; a non-blank byte opens a token,
/// which [`in_token`] then extends.
pub open spec fn tokens_of(s: Seq<u8>) -> Seq<Seq<u8>>
    decreases s.len(),
{
    if s.len() == 0 {
        Seq::empty()
    } else if is_space(s[0]) {
        tokens_of(s.drop_first())
    } else {
        in_token(s.drop_first(), seq![s[0]])
    }
}

/// The tokens of a line while a token `cur` is open: a blank byte (or the
/// end of the line) closes `cur`, a non-blank byte extends it.
pub open spec fn in_token(s: Seq<u8>, cur: Seq<u8>) -> Seq<Seq<u8>>
    decreases s.len(),
{
    if s.len() == 0 {
        seq![cur]
    } else if is_space(s[0]) {
        seq![cur] + tokens_of(s.drop_first())
    } else {
        in_token(s.drop_first(), cur.push(s[0]))
    }
}

/// Every byte of `s` is blank.
pub open spec fn all_space(s: Seq<u8>) -> bool {
    forall|i: int| 0 <= i < s.len() ==> is_space(#[trigger] s[i])
}

/// No byte of `s` is blank.
pub open spec fn no_space(s: Seq<u8>) -> bool {
    forall|i: int| 0 <= i < s.len() ==> !is_space(#[trigger] s[i])
}

/// While a token is open, at least that token comes out.
proof fn lemma_in_token_len(s: Seq<u8>, cur: Seq<u8>)
    ensures
        in_token(s, cur).len() >= 1,
    decreases s.len(),
{
    if s.len() == 0 {
    } else if is_space(s[0]) {
    } else {
        lemma_in_token_len(s.drop_first(), cur.push(s[0]));
    }
}

/// Tokens opened on a non-blank byte stay non-empty and free of blanks.
proof fn lemma_in_token_wellformed(s: Seq<u8>, cur: Seq<u8>)
    requires
        cur.len() > 0,
        no_space(cur),
    ensures
        forall|k: int| 0 <= k < in_token(s, cur).len()
            ==> (#[trigger] in_token(s, cur)[k]).len() > 0 && no_space(in_token(s, cur)[k]),
    decreases s.len(),
{
    if s.len() == 0 {
        assert(in_token(s, cur) == seq![cur]);
        assert(in_token(s, cur)[0] == cur);
    } else if is_space(s[0]) {
        lemma_tokens_wellformed(s.drop_first());
        let rest = tokens_of(s.drop_first());
        assert(in_token(s, cur) == seq![cur] + rest);
        assert forall|k: int| 0 <= k < in_token(s, cur).len()
            implies (#[trigger] in_token(s, cur)[k]).len() > 0 && no_space(in_token(s, cur)[k]) by {
            if k == 0 {
                assert(in_token(s, cur)[k] == cur);
            } else {
                assert(in_token(s, cur)[k] == rest[k - 1]);
            }
        }
    } else {
        assert(no_space(cur.push(s[0]))) by {
            assert(forall|i: int| 0 <= i < cur.len() ==> #[trigger] cur.push(s[0])[i] == cur[i]);
            assert(cur.push(s[0])[cur.len() as int] == s[0]);
        }
        lemma_in_token_wellformed(s.drop_first(), cur.push(s[0]));
        assert forall|k: int| 0 <= k < in_token(s, cur).len()
            implies (#[trigger] in_token(s, cur)[k]).len() > 0 && no_space(in_token(s, cur)[k]) by {
            assert(in_token(s, cur)[k] == in_token(s.drop_first(), cur.push(s[0]))[k]);
        }
    }
}

/// Every token of a line is non-empty and holds no blank byte.
pub proof fn lemma_tokens_wellformed(s: Seq<u8>)
    ensures
        forall|k: int| 0 <= k < tokens_of(s).len()
            ==> (#[trigger] tokens_of(s)[k]).len() > 0 && no_space(tokens_of(s)[k]),
    decreases s.len(),
{
    if s.len() == 0 {
    } else if is_space(s[0]) {
        lemma_tokens_wellformed(s.drop_first());
        assert forall|k: int| 0 <= k < tokens_of(s).len()
            implies (#[trigger] tokens_of(s)[k]).len() > 0 && no_space(tokens_of(s)[k]) by {
            assert(tokens_of(s)[k] == tokens_of(s.drop_first())[k]);
        }
    } else {
        assert(seq![s[0]][0] == s[0]);
        lemma_in_token_wellformed(s.drop_first(), seq![s[0]]);
        assert forall|k: int| 0 <= k < tokens_of(s).len()
            implies (#[trigger] tokens_of(s)[k]).len() > 0 && no_space(tokens_of(s)[k]) by {
            assert(tokens_of(s)[k] == in_token(s.drop_first(), seq![s[0]])[k]);
        }
    }
}

/// An empty or all-blank line yields no tokens, and only such a line does:
/// the loop prompts again on exactly the blank lines.
pub proof fn lemma_no_tokens_iff_blank(s: Seq<u8>)
    ensures
        tokens_of(s).len() == 0 <==> all_space(s),
    decreases s.len(),
{
    if s.len() == 0 {
    } else if is_space(s[0]) {
        lemma_no_tokens_iff_blank(s.drop_first());
        assert(all_space(s.drop_first()) ==> all_space(s)) by {
            if all_space(s.drop_first()) {
                assert(forall|i: int| 1 <= i < s.len() ==> is_space(#[trigger] s[i])) by {
                    assert(forall|i: int| 1 <= i < s.len()
                        ==> #[trigger] s[i] == s.drop_first()[i - 1]);
                }
            }
        }
        assert(all_space(s) ==> all_space(s.drop_first()));
    } else {
        lemma_in_token_len(s.drop_first(), seq![s[0]]);
        assert(!all_space(s));
    }
}

/// Skipping an all-blank prefix does not change the tokens.
proof fn lemma_space_prefix(p: Seq<u8>, s: Seq<u8>)
    requires
        all_space(p),
    ensures
        tokens_of(p + s) == tokens_of(s),
    decreases p.len(),
{
    if p.len() == 0 {
        assert(p + s =~= s);
    } else {
        assert((p + s)[0] == p[0]);
        assert((p + s).drop_first() =~= p.drop_first() + s);
        assert(all_space(p.drop_first()));
        lemma_space_prefix(p.drop_first(), s);
    }
}

/// Scanning a blank-free run extends the open token by exactly that run.
proof fn lemma_in_token_run(t: Seq<u8>, s: Seq<u8>, cur: Seq<u8>)
    requires
        no_space(t),
        s.len() == 0 || is_space(s[0]),
    ensures
        in_token(t + s, cur) == seq![cur + t] + tokens_of(s),
    decreases t.len(),
{
    if t.len() == 0 {
        assert(t + s =~= s);
        assert(cur + t =~= cur);
        if s.len() == 0 {
            assert(in_token(s, cur) =~= seq![cur + t] + tokens_of(s));
        } else {
            assert(in_token(s, cur) =~= seq![cur + t] + tokens_of(s));
        }
    } else {
        assert((t + s)[0] == t[0]);
        assert((t + s).drop_first() =~= t.drop_first() + s);
        assert(no_space(t.drop_first()));
        lemma_in_token_run(t.drop_first(), s, cur.push(t[0]));
        assert(cur.push(t[0]) + t.drop_first() =~= cur + t);
    }
}

/// A leading blank-free token, closed by a blank byte or the end of the
/// line, comes out first, followed by the tokens of the rest.
proof fn lemma_token_prefix(t: Seq<u8>, s: Seq<u8>)
    requires
        t.len() > 0,
        no_space(t),
        s.len() == 0 || is_space(s[0]),
    ensures
        tokens_of(t + s) == seq![t] + tokens_of(s),
{
    assert((t + s)[0] == t[0]);
    assert((t + s).drop_first() =~= t.drop_first() + s);
    assert(no_space(t.drop_first()));
    lemma_in_token_run(t.drop_first(), s, seq![t[0]]);
    assert(seq![t[0]] + t.drop_first() =~= t);
}

/// The interleaving of tokens and separators:
/// `seps[0] + ts[0] + seps[1] + ts[1] + ... + seps[ts.len()]`.
pub open spec fn joined(ts: Seq<Seq<u8>>, seps: Seq<Seq<u8>>) -> Seq<u8>
    decreases ts.len(),
{
    if ts.len() == 0 {
        if seps.len() > 0 {
            seps[0]
        } else {
            Seq::empty()
        }
    } else {
        seps[0] + ts[0] + joined(ts.drop_first(), seps.drop_first())
    }
}

/// Whitespace parsing is exact: a line made of non-empty, blank-free tokens
/// separated by runs of one or more blank bytes — with arbitrary, possibly
/// empty, leading and trailing blank runs — parses to exactly those tokens,
/// in order.
pub proof fn lemma_whitespace_round_trip(ts: Seq<Seq<u8>>, seps: Seq<Seq<u8>>)
    requires
        seps.len() == ts.len() + 1,
        forall|i: int| 0 <= i < ts.len()
            ==> (#[trigger] ts[i]).len() > 0 && no_space(ts[i]),
        forall|i: int| 0 <= i < seps.len() ==> all_space(#[trigger] seps[i]),
        forall|i: int| 1 <= i < ts.len() ==> (#[trigger] seps[i]).len() > 0,
    ensures
        tokens_of(joined(ts, seps)) == ts,
    decreases ts.len(),
{
    if ts.len() == 0 {
        lemma_no_tokens_iff_blank(seps[0]);
        assert(tokens_of(joined(ts, seps)) =~= ts);
    } else {
        let rest = joined(ts.drop_first(), seps.drop_first());
        assert(seps[0] + ts[0] + rest =~= seps[0] + (ts[0] + rest));
        lemma_space_prefix(seps[0], ts[0] + rest);
        assert(rest.len() == 0 || is_space(rest[0])) by {
            if ts.len() == 1 {
                if seps.drop_first()[0].len() > 0 {
                    assert(rest == seps[1]);
                    assert(is_space(rest[0]));
                }
            } else {
                assert(seps.drop_first()[0] == seps[1]);
                assert(seps[1].len() > 0);
                assert(rest == seps[1] + ts.drop_first()[0]
                    + joined(ts.drop_first().drop_first(), seps.drop_first().drop_first()));
                assert(rest[0] == seps[1][0]);
                assert(is_space(rest[0]));
            }
        }
        lemma_token_prefix(ts[0], rest);
        assert(forall|i: int| 0 <= i < ts.drop_first().len()
            ==> #[trigger] ts.drop_first()[i] == ts[i + 1]);
        assert(forall|i: int| 0 <= i < seps.drop_first().len()
            ==> #[trigger] seps.drop_first()[i] == seps[i + 1]);
        lemma_whitespace_round_trip(ts.drop_first(), seps.drop_first());
        assert(tokens_of(joined(ts, seps)) =~= seq![ts[0]] + ts.drop_first());
        assert(seq![ts[0]] + ts.drop_first() =~= ts);
    }
}

/// What the interpreter's loop must do for one input line.
pub enum Action {
    /// Run the command named by the first token with the whole token
    /// sequence as its argument vector. The vector is never empty.
    SimpleCommand(Vec<Vec<u8>>),
}

/// Splits `line` into its tokens.
pub fn tokenize(line: &[u8]) -> (r: Vec<Vec<u8>>)
    ensures
        r@.map_values(|t: Vec<u8>| t@) == tokens_of(line@),
{
    let mut toks: Vec<Vec<u8>> = Vec::new();
    let mut cur: Vec<u8> = Vec::new();
    let mut i: usize = 0;
    proof {
        assert(line@.skip(0) =~= line@);
        assert(toks@.map_values(|t: Vec<u8>| t@) + tokens_of(line@) =~= tokens_of(line@));
    }
    while i < line.len()
        invariant
            i <= line.len(),
            cur.len() == 0 ==> tokens_of(line@) == toks@.map_values(|t: Vec<u8>| t@)
                + tokens_of(line@.skip(i as int)),
            cur.len() > 0 ==> tokens_of(line@) == toks@.map_values(|t: Vec<u8>| t@)
                + in_token(line@.skip(i as int), cur@),
        decreases line.len() - i,
    {
        let b = line[i];
        proof {
            assert(line@.skip(i as int)[0] == line@[i as int]);
            assert(line@.skip(i as int).drop_first() =~= line@.skip(i as int + 1));
        }
        if space(b) {
            if cur.len() > 0 {
                let ghost old_toks = toks@;
                let ghost old_cur = cur@;
                toks.push(cur);
                cur = Vec::new();
                proof {
                    assert(toks@.map_values(|t: Vec<u8>| t@)
                        =~= old_toks.map_values(|t: Vec<u8>| t@) + seq![old_cur]);
                }
            }
        } else {
            if cur.len() == 0 {
                let ghost before = cur@;
                cur.push(b);
                proof {
                    assert(cur@ =~= seq![b]);
                }
            } else {
                cur.push(b);
            }
        }
        i = i + 1;
    }
    proof {
        assert(line@.skip(line.len() as int) =~= Seq::<u8>::empty());
    }
    if cur.len() > 0 {
        let ghost old_toks = toks@;
        let ghost old_cur = cur@;
        toks.push(cur);
        proof {
            assert(toks@.map_values(|t: Vec<u8>| t@)
                =~= old_toks.map_values(|t: Vec<u8>| t@) + seq![old_cur]);
        }
    }
    proof {
        assert(toks@.map_values(|t: Vec<u8>| t@) =~= tokens_of(line@));
    }
    toks
}

/// Parses one input line: a line without tokens asks for nothing, any other
/// line asks for the simple command made of its tokens.
pub fn parse_line(line: &[u8]) -> (r: Option<Action>)
    ensures
        match r {
            None => tokens_of(line@).len() == 0,
            Some(Action::SimpleCommand(argv)) => {
                &&& argv@.len() > 0
                &&& argv@.map_values(|t: Vec<u8>| t@) == tokens_of(line@)
            },
        },
{
    let toks = tokenize(line);
    if toks.len() == 0 {
        None
    } else {
        Some(Action::SimpleCommand(toks))
    }
}

} // verus!
