use vstd::prelude::*;
use vstd::string::StrSliceExecFns;

use crate::strutil::push_char;

verus! {

/// The Unicode `White_Space` code points; token boundaries follow these.
pub open spec fn is_whitespace(c: char) -> bool {
    let u = c as u32;
    u == 0x09 || u == 0x0A || u == 0x0B || u == 0x0C || u == 0x0D || u == 0x20 || u == 0x85
        || u == 0xA0 || u == 0x1680 || (0x2000 <= u && u <= 0x200A) || u == 0x2028 || u == 0x2029
        || u == 0x202F || u == 0x205F || u == 0x3000
}

/// Executable whitespace test, equal to the spec-level one.
pub fn whitespace_char(c: char) -> (r: bool)
    ensures
        r == is_whitespace(c),
{
    let u = c as u32;
    u == 0x09 || u == 0x0A || u == 0x0B || u == 0x0C || u == 0x0D || u == 0x20 || u == 0x85
        || u == 0xA0 || u == 0x1680 || (0x2000 <= u && u <= 0x200A) || u == 0x2028 || u == 0x2029
        || u == 0x202F || u == 0x205F || u == 0x3000
}

/// The whitespace-delimited tokens of `s`, in order: maximal runs of
/// non-whitespace characters.
pub open spec fn tokens_of(s: Seq<char>) -> Seq<Seq<char>>
    decreases s.len(),
{
    if s.len() == 0 {
        Seq::empty()
    } else if is_whitespace(s[0]) {
        tokens_of(s.drop_first())
    } else {
        let rest = tokens_of(s.drop_first());
        if s.len() == 1 || is_whitespace(s[1]) {
            seq![seq![s[0]]] + rest
        } else {
            seq![seq![s[0]] + rest[0]] + rest.drop_first()
        }
    }
}

/// The tokens rejoined with single spaces.
pub open spec fn join_tokens(ts: Seq<Seq<char>>) -> Seq<char>
    decreases ts.len(),
{
    if ts.len() == 0 {
        Seq::empty()
    } else if ts.len() == 1 {
        ts[0]
    } else {
        ts[0] + seq![' '] + join_tokens(ts.drop_first())
    }
}

/// What truncation returns: the first `limit` tokens, rejoined with single
/// spaces.
pub open spec fn spec_truncate(s: Seq<char>, limit: nat) -> Seq<char> {
    let ts = tokens_of(s);
    if ts.len() <= limit {
        join_tokens(ts)
    } else {
        join_tokens(ts.take(limit as int))
    }
}

/// A well-formed token: non-empty and free of whitespace.
pub open spec fn wf_token(t: Seq<char>) -> bool {
    t.len() > 0 && (forall|i: int| 0 <= i < t.len() ==> !is_whitespace(t[i]))
}

/// All tokens in the sequence are well-formed.
pub open spec fn wf_tokens(ts: Seq<Seq<char>>) -> bool {
    forall|i: int| 0 <= i < ts.len() ==> wf_token(#[trigger] ts[i])
}

/// Every token that `tokens_of` yields is non-empty and whitespace-free.
pub proof fn lemma_tokens_wf(s: Seq<char>)
    ensures
        wf_tokens(tokens_of(s)),
    decreases s.len(),
{
    if s.len() == 0 {
    } else if is_whitespace(s[0]) {
        lemma_tokens_wf(s.drop_first());
    } else {
        lemma_tokens_wf(s.drop_first());
        let rest = tokens_of(s.drop_first());
        let r = tokens_of(s);
        if s.len() == 1 || is_whitespace(s[1]) {
            assert(r == seq![seq![s[0]]] + rest);
            assert(wf_token(seq![s[0]]));
            assert forall|i: int| 0 <= i < r.len() implies wf_token(#[trigger] r[i]) by {
                if i > 0 {
                    assert(r[i] == rest[i - 1]);
                }
            }
        } else {
            assert(s.drop_first()[0] == s[1]);
            assert(rest.len() > 0);
            assert(wf_token(rest[0]));
            assert(wf_token(seq![s[0]] + rest[0]));
            assert forall|i: int| 0 <= i < r.len() implies wf_token(#[trigger] r[i]) by {
                if i > 0 {
                    assert(r[i] == rest.drop_first()[i - 1]);
                    assert(rest.drop_first()[i - 1] == rest[i]);
                }
            }
        }
    }
}

/// The empty text has no tokens.
proof fn lemma_tokens_empty()
    ensures
        tokens_of(Seq::<char>::empty()) == Seq::<Seq<char>>::empty(),
{
}

/// The tokens of a one-character text.
proof fn lemma_tokens_single(c: char)
    ensures
        tokens_of(seq![c]) == if is_whitespace(c) {
            Seq::<Seq<char>>::empty()
        } else {
            seq![seq![c]]
        },
{
    let s = seq![c];
    assert(s.drop_first() =~= Seq::<char>::empty());
    lemma_tokens_empty();
    if !is_whitespace(c) {
        assert(tokens_of(s) == seq![seq![s[0]]] + tokens_of(s.drop_first()));
        assert(seq![seq![c]] + Seq::<Seq<char>>::empty() =~= seq![seq![c]]);
    }
}

/// Appending a whitespace character adds no token.
proof fn lemma_tokens_snoc_ws(p: Seq<char>, c: char)
    requires
        is_whitespace(c),
    ensures
        tokens_of(p.push(c)) == tokens_of(p),
    decreases p.len(),
{
    let s = p.push(c);
    if p.len() == 0 {
        assert(p =~= Seq::<char>::empty());
        assert(s =~= seq![c]);
        lemma_tokens_empty();
        lemma_tokens_single(c);
    } else {
        lemma_tokens_snoc_ws(p.drop_first(), c);
        assert(s.drop_first() =~= p.drop_first().push(c));
        if is_whitespace(p[0]) {
        } else {
            if p.len() == 1 {
                assert(s[1] == c);
                assert(p.drop_first() =~= Seq::<char>::empty());
                assert(s.drop_first() =~= seq![c]);
                lemma_tokens_empty();
                lemma_tokens_single(c);
                assert(tokens_of(s) == seq![seq![s[0]]] + tokens_of(s.drop_first()));
                assert(tokens_of(p) == seq![seq![p[0]]] + tokens_of(p.drop_first()));
            } else {
                assert(s[1] == p[1]);
            }
        }
    }
}

/// Appending a non-whitespace character after whitespace (or to an empty
/// text) starts a new, final token.
proof fn lemma_tokens_snoc_start(p: Seq<char>, c: char)
    requires
        !is_whitespace(c),
        p.len() == 0 || is_whitespace(p.last()),
    ensures
        tokens_of(p.push(c)) == tokens_of(p).push(seq![c]),
    decreases p.len(),
{
    let s = p.push(c);
    if p.len() == 0 {
        assert(p =~= Seq::<char>::empty());
        assert(s =~= seq![c]);
        lemma_tokens_empty();
        lemma_tokens_single(c);
        assert(tokens_of(p).push(seq![c]) =~= seq![seq![c]]);
    } else {
        lemma_tokens_snoc_start(p.drop_first(), c);
        assert(s.drop_first() =~= p.drop_first().push(c));
        if is_whitespace(p[0]) {
        } else {
            assert(p.len() >= 2);
            assert(s[1] == p[1]);
            let rest = tokens_of(p.drop_first());
            let rest2 = tokens_of(s.drop_first());
            assert(rest2 == rest.push(seq![c]));
            if is_whitespace(p[1]) {
                assert(tokens_of(s) == seq![seq![s[0]]] + rest2);
                assert(seq![seq![p[0]]] + rest.push(seq![c]) =~= (seq![seq![p[0]]]
                    + rest).push(seq![c]));
            } else {
                assert(p.drop_first()[0] == p[1]);
                assert(rest.len() > 0);
                assert(rest2[0] == rest[0]);
                assert(rest2.drop_first() =~= rest.drop_first().push(seq![c]));
                assert(tokens_of(s) == seq![seq![s[0]] + rest2[0]] + rest2.drop_first());
                assert(seq![seq![p[0]] + rest[0]] + rest.drop_first().push(seq![c]) =~= (seq![
                    seq![p[0]] + rest[0],
                ] + rest.drop_first()).push(seq![c]));
            }
        }
    }
}

/// Appending a non-whitespace character to a text that ends in one extends
/// the final token.
proof fn lemma_tokens_snoc_extend(p: Seq<char>, c: char)
    requires
        !is_whitespace(c),
        p.len() > 0,
        !is_whitespace(p.last()),
    ensures
        tokens_of(p).len() > 0,
        tokens_of(p.push(c)) == tokens_of(p).update(
            tokens_of(p).len() - 1,
            tokens_of(p).last().push(c),
        ),
    decreases p.len(),
{
    let s = p.push(c);
    let ts = tokens_of(p);
    if p.len() == 1 {
        assert(p =~= seq![p[0]]);
        lemma_tokens_single(p[0]);
        assert(ts == seq![seq![p[0]]]);
        assert(s.drop_first() =~= seq![c]);
        lemma_tokens_single(c);
        let rest2 = tokens_of(s.drop_first());
        assert(rest2 == seq![seq![c]]);
        assert(s[1] == c);
        assert(tokens_of(s) == seq![seq![s[0]] + rest2[0]] + rest2.drop_first());
        assert(rest2.drop_first() =~= Seq::<Seq<char>>::empty());
        assert(seq![s[0]] + rest2[0] =~= seq![p[0], c]);
        assert(seq![seq![s[0]] + rest2[0]] + rest2.drop_first() =~= seq![seq![p[0], c]]);
        assert(seq![p[0]].push(c) =~= seq![p[0], c]);
        assert(ts.update(0, ts.last().push(c)) =~= seq![seq![p[0], c]]);
    } else {
        lemma_tokens_snoc_extend(p.drop_first(), c);
        assert(p.drop_first().last() == p.last());
        assert(s.drop_first() =~= p.drop_first().push(c));
        let rest = tokens_of(p.drop_first());
        let rest2 = tokens_of(s.drop_first());
        assert(rest2 == rest.update(rest.len() - 1, rest.last().push(c)));
        if is_whitespace(p[0]) {
        } else {
            assert(s[1] == p[1]);
            if is_whitespace(p[1]) {
                assert(tokens_of(p) == seq![seq![p[0]]] + rest);
                assert(tokens_of(s) == seq![seq![s[0]]] + rest2);
                assert(seq![seq![p[0]]] + rest.update(rest.len() - 1, rest.last().push(c)) =~= (
                seq![seq![p[0]]] + rest).update(rest.len() as int, rest.last().push(c)));
                assert((seq![seq![p[0]]] + rest).last() == rest.last());
            } else {
                assert(p.drop_first()[0] == p[1]);
                assert(rest.len() > 0);
                assert(tokens_of(p) == seq![seq![p[0]] + rest[0]] + rest.drop_first());
                assert(tokens_of(s) == seq![seq![s[0]] + rest2[0]] + rest2.drop_first());
                if rest.len() == 1 {
                    assert(rest2[0] == rest[0].push(c));
                    assert(rest2.drop_first() =~= rest.drop_first());
                    assert(rest.drop_first() =~= Seq::<Seq<char>>::empty());
                    assert(ts =~= seq![seq![p[0]] + rest[0]]);
                    assert(seq![p[0]] + rest[0].push(c) =~= (seq![p[0]] + rest[0]).push(c));
                    assert(tokens_of(s) =~= ts.update(0, ts.last().push(c)));
                } else {
                    assert(rest2[0] == rest[0]);
                    assert(rest2.drop_first() =~= rest.drop_first().update(
                        rest.len() - 2,
                        rest.last().push(c),
                    ));
                    assert(rest.drop_first().last() == rest.last());
                    assert(seq![seq![p[0]] + rest[0]] + rest.drop_first().update(
                        rest.len() - 2,
                        rest.last().push(c),
                    ) =~= (seq![seq![p[0]] + rest[0]] + rest.drop_first()).update(
                        rest.len() - 1,
                        rest.last().push(c),
                    ));
                    assert(ts.last() == rest.last());
                }
            }
        }
    }
}

/// Joining after a push appends a separating space (except onto emptiness).
proof fn lemma_join_push(ts: Seq<Seq<char>>, t: Seq<char>)
    ensures
        join_tokens(ts.push(t)) == if ts.len() == 0 {
            t
        } else {
            join_tokens(ts) + seq![' '] + t
        },
    decreases ts.len(),
{
    if ts.len() == 0 {
        assert(ts.push(t).len() == 1);
        assert(join_tokens(ts.push(t)) == ts.push(t)[0]);
    } else if ts.len() == 1 {
        assert(ts.push(t).drop_first() =~= seq![t]);
        assert(join_tokens(seq![t]) == t);
    } else {
        lemma_join_push(ts.drop_first(), t);
        assert(ts.push(t).drop_first() =~= ts.drop_first().push(t));
        assert(ts[0] + seq![' '] + (join_tokens(ts.drop_first()) + seq![' '] + t) =~= (ts[0]
            + seq![' '] + join_tokens(ts.drop_first())) + seq![' '] + t);
    }
}

/// Extending the final token extends the joined text by that character.
proof fn lemma_join_update_last(ts: Seq<Seq<char>>, c: char)
    requires
        ts.len() > 0,
    ensures
        join_tokens(ts.update(ts.len() - 1, ts.last().push(c))) == join_tokens(ts).push(c),
    decreases ts.len(),
{
    let ts2 = ts.update(ts.len() - 1, ts.last().push(c));
    if ts.len() == 1 {
        assert(ts2.len() == 1);
        assert(join_tokens(ts2) == ts2[0]);
        assert(ts2[0] == ts[0].push(c));
    } else {
        lemma_join_update_last(ts.drop_first(), c);
        assert(ts2.drop_first() =~= ts.drop_first().update(ts.len() - 2, ts.last().push(c)));
        assert(ts.drop_first().last() == ts.last());
        assert(ts2[0] == ts[0]);
        assert(ts[0] + seq![' '] + join_tokens(ts.drop_first()).push(c) =~= (ts[0] + seq![' ']
            + join_tokens(ts.drop_first())).push(c));
    }
}

/// A well-formed token followed by whitespace (or by nothing) is read back as
/// that one token before the tokens of the remainder.
proof fn lemma_tokens_of_token_prefix(t: Seq<char>, s: Seq<char>)
    requires
        wf_token(t),
        s.len() == 0 || is_whitespace(s[0]),
    ensures
        tokens_of(t + s) == seq![t] + tokens_of(s),
    decreases t.len(),
{
    let full = t + s;
    assert(full[0] == t[0]);
    if t.len() == 1 {
        assert(full.drop_first() =~= s);
        assert(t =~= seq![t[0]]);
        if s.len() == 0 {
            assert(full =~= seq![t[0]]);
            lemma_tokens_single(t[0]);
            lemma_tokens_empty();
            assert(s =~= Seq::<char>::empty());
            assert(seq![t] + tokens_of(s) =~= seq![seq![t[0]]]);
        } else {
            assert(full[1] == s[0]);
            assert(tokens_of(full) == seq![seq![full[0]]] + tokens_of(full.drop_first()));
            assert(seq![seq![t[0]]] + tokens_of(s) =~= seq![t] + tokens_of(s));
        }
    } else {
        assert(!is_whitespace(t[1]));
        assert(t.drop_first().len() > 0);
        assert forall|i: int| 0 <= i < t.drop_first().len() implies !is_whitespace(
            t.drop_first()[i],
        ) by {
            assert(t.drop_first()[i] == t[i + 1]);
        }
        lemma_tokens_of_token_prefix(t.drop_first(), s);
        assert(full[1] == t[1]);
        assert(full.drop_first() =~= t.drop_first() + s);
        let rest = tokens_of(full.drop_first());
        assert(rest == seq![t.drop_first()] + tokens_of(s));
        assert(rest[0] == t.drop_first());
        assert(tokens_of(full) == seq![seq![full[0]] + rest[0]] + rest.drop_first());
        assert(seq![t[0]] + t.drop_first() =~= t);
        assert(rest.drop_first() =~= tokens_of(s));
        assert(seq![seq![full[0]] + rest[0]] + rest.drop_first() =~= seq![t] + tokens_of(s));
    }
}

/// Splitting a joined sequence of well-formed tokens gives those tokens back.
pub proof fn lemma_tokens_join(ts: Seq<Seq<char>>)
    requires
        wf_tokens(ts),
    ensures
        tokens_of(join_tokens(ts)) == ts,
    decreases ts.len(),
{
    if ts.len() == 0 {
        lemma_tokens_empty();
        assert(join_tokens(ts) == Seq::<char>::empty());
    } else if ts.len() == 1 {
        lemma_tokens_of_token_prefix(ts[0], Seq::<char>::empty());
        assert(ts[0] + Seq::<char>::empty() =~= ts[0]);
        lemma_tokens_empty();
        assert(seq![ts[0]] + Seq::<Seq<char>>::empty() =~= ts);
    } else {
        assert forall|i: int| 0 <= i < ts.drop_first().len() implies wf_token(
            #[trigger] ts.drop_first()[i],
        ) by {
            assert(ts.drop_first()[i] == ts[i + 1]);
        }
        lemma_tokens_join(ts.drop_first());
        let s = seq![' '] + join_tokens(ts.drop_first());
        assert(is_whitespace(s[0]));
        lemma_tokens_of_token_prefix(ts[0], s);
        assert(ts[0] + s =~= join_tokens(ts));
        assert(s.drop_first() =~= join_tokens(ts.drop_first()));
        assert(tokens_of(s) == tokens_of(join_tokens(ts.drop_first())));
        assert(seq![ts[0]] + ts.drop_first() =~= ts);
    }
}

/// The tokens of a truncation are exactly the first tokens of the input:
/// all of them when there are at most `limit`, the first `limit` otherwise.
pub proof fn lemma_truncate_tokens(s: Seq<char>, limit: nat)
    ensures
        tokens_of(spec_truncate(s, limit)) == if tokens_of(s).len() <= limit {
            tokens_of(s)
        } else {
            tokens_of(s).take(limit as int)
        },
{
    lemma_tokens_wf(s);
    let ts = tokens_of(s);
    if ts.len() <= limit {
        lemma_tokens_join(ts);
    } else {
        assert forall|i: int| 0 <= i < ts.take(limit as int).len() implies wf_token(
            #[trigger] ts.take(limit as int)[i],
        ) by {
            assert(ts.take(limit as int)[i] == ts[i]);
        }
        lemma_tokens_join(ts.take(limit as int));
    }
}

/// A truncation holds at most `limit` tokens, and when the input already has
/// no more than `limit` tokens its token sequence is kept whole.
pub proof fn lemma_truncate_token_count(s: Seq<char>, limit: nat)
    ensures
        tokens_of(spec_truncate(s, limit)).len() <= limit,
        tokens_of(s).len() <= limit ==> tokens_of(spec_truncate(s, limit)) == tokens_of(s),
{
    lemma_truncate_tokens(s, limit);
}

/// Tokens are never split: each token of a truncation is byte-identical to
/// the token at the same position in the input.
pub proof fn lemma_truncate_no_token_split(s: Seq<char>, limit: nat)
    ensures
        forall|i: int|
            0 <= i < tokens_of(spec_truncate(s, limit)).len() ==> tokens_of(
                spec_truncate(s, limit),
            )[i] == tokens_of(s)[i],
{
    lemma_truncate_tokens(s, limit);
}

/// Truncation is stable under re-application with the same limit.
pub proof fn lemma_truncate_idempotent(s: Seq<char>, limit: nat)
    ensures
        spec_truncate(spec_truncate(s, limit), limit) == spec_truncate(s, limit),
{
    lemma_truncate_stable(s, limit, limit);
}

/// Truncation is stable under re-application with the same or a larger
/// limit.
pub proof fn lemma_truncate_stable(s: Seq<char>, limit: nat, limit2: nat)
    requires
        limit <= limit2,
    ensures
        spec_truncate(spec_truncate(s, limit), limit2) == spec_truncate(s, limit),
{
    lemma_truncate_tokens(s, limit);
    let ts = tokens_of(s);
    let t1 = spec_truncate(s, limit);
    if ts.len() <= limit {
        assert(tokens_of(t1) == ts);
    } else {
        assert(tokens_of(t1) == ts.take(limit as int));
        assert(tokens_of(t1).len() <= limit2);
        assert(spec_truncate(t1, limit2) == join_tokens(tokens_of(t1)));
    }
}

/// A limit of zero yields the empty text.
pub proof fn lemma_truncate_zero(s: Seq<char>)
    ensures
        spec_truncate(s, 0) == Seq::<char>::empty(),
{
    let ts = tokens_of(s);
    if ts.len() == 0 {
        assert(join_tokens(ts) == Seq::<char>::empty());
    } else {
        assert(ts.take(0) =~= Seq::<Seq<char>>::empty());
        assert(join_tokens(ts.take(0)) == Seq::<char>::empty());
    }
}

/// Empty input yields empty output, whatever the limit.
pub proof fn lemma_truncate_empty(limit: nat)
    ensures
        spec_truncate(Seq::<char>::empty(), limit) == Seq::<char>::empty(),
{
    lemma_tokens_empty();
}

/// Truncates `text` to its first `limit` whitespace-delimited tokens,
/// rejoined with single spaces. Tokens are never split: the result is exactly
/// the first `limit` tokens of the input (all of them, re-normalized, when
/// the input has no more than `limit`).
pub fn truncate_to_n_tokens(text: &str, limit: usize) -> (r: String)
    ensures
        r@ == spec_truncate(text@, limit as nat),
{
    let n = text.unicode_len();
    let mut out = String::new();
    let mut count: usize = 0;
    let mut in_token = false;
    let mut i: usize = 0;
    while i < n
        invariant
            i <= n,
            n == text@.len(),
            count == tokens_of(text@.take(i as int)).len(),
            count <= i,
            in_token == (i > 0 && !is_whitespace(text@[i as int - 1])),
            out@ == join_tokens(
                tokens_of(text@.take(i as int)).take(
                    if (limit as int) <= (count as int) {
                        limit as int
                    } else {
                        count as int
                    },
                ),
            ),
        decreases n - i,
    {
        let ghost prefix = text@.take(i as int);
        let ghost toks = tokens_of(prefix);
        let c = text.get_char(i);
        proof {
            assert(text@.take(i as int + 1) =~= prefix.push(c));
        }
        if whitespace_char(c) {
            proof {
                lemma_tokens_snoc_ws(prefix, c);
            }
            in_token = false;
        } else if !in_token {
            proof {
                if i > 0 {
                    assert(prefix.last() == text@[i as int - 1]);
                }
                lemma_tokens_snoc_start(prefix, c);
            }
            if count < limit {
                proof {
                    assert(toks.take(count as int) =~= toks);
                    assert(toks.push(seq![c]).take(count as int + 1) =~= toks.push(seq![c]));
                    lemma_join_push(toks, seq![c]);
                }
                if count > 0 {
                    push_char(&mut out, ' ');
                    push_char(&mut out, c);
                    proof {
                        assert(out@ =~= join_tokens(toks) + seq![' '] + seq![c]);
                    }
                } else {
                    push_char(&mut out, c);
                    proof {
                        assert(out@ =~= seq![c]);
                    }
                }
            } else {
                proof {
                    assert(toks.push(seq![c]).take(limit as int) =~= toks.take(limit as int));
                }
            }
            count = count + 1;
            in_token = true;
        } else {
            proof {
                assert(prefix.last() == text@[i as int - 1]);
                lemma_tokens_snoc_extend(prefix, c);
            }
            let ghost toks2 = toks.update(toks.len() - 1, toks.last().push(c));
            if count <= limit {
                push_char(&mut out, c);
                proof {
                    assert(toks.take(count as int) =~= toks);
                    assert(toks2.take(count as int) =~= toks2);
                    lemma_join_update_last(toks, c);
                }
            } else {
                proof {
                    assert(toks2.take(limit as int) =~= toks.take(limit as int));
                }
            }
        }
        i = i + 1;
    }
    proof {
        assert(text@.take(n as int) =~= text@);
        if tokens_of(text@).len() <= limit as int {
            assert(tokens_of(text@).take(count as int) =~= tokens_of(text@));
        }
    }
    out
}

} // verus!
