//! Completion of a partial input: the trailing token of the input is the
//! prefix to complete; the engine proposes candidates in its relevance
//! order, and the library keeps the first six that really carry the prefix.

use vstd::prelude::*;

verus! {

use crate::engine::completion_candidates;

/// A character that ends a token: whitespace, or one of the fixed operator
/// and punctuation characters.
pub open spec fn is_boundary(c: char) -> bool {
    c == ' ' || c == '\t' || c == '\n' || c == '\r' || c == '+' || c == '-' || c == '*' || c == '/'
        || c == '^' || c == '(' || c == ')' || c == '=' || c == '<' || c == '>' || c == ','
        || c == '.' || c == ';' || c == ':'
}

/// Decide whether a character ends a token.
pub fn is_boundary_exec(c: char) -> (r: bool)
    ensures
        r == is_boundary(c),
{
    c == ' ' || c == '\t' || c == '\n' || c == '\r' || c == '+' || c == '-' || c == '*' || c == '/'
        || c == '^' || c == '(' || c == ')' || c == '=' || c == '<' || c == '>' || c == ','
        || c == '.' || c == ';' || c == ':'
}

/// The trailing token of a text: the suffix after the last boundary
/// character; empty when the text ends in a boundary or is empty.
pub open spec fn trailing_token(s: Seq<char>) -> Seq<char>
    decreases s.len(),
{
    if s.len() == 0 {
        Seq::empty()
    } else if is_boundary(s.last()) {
        Seq::empty()
    } else {
        trailing_token(s.drop_last()).push(s.last())
    }
}

/// An input that ends in a boundary character — whitespace or a trailing
/// operator — has an empty trailing token, so it proposes no completions.
pub proof fn lemma_boundary_ends_token(s: Seq<char>)
    requires
        s.len() > 0,
        is_boundary(s.last()),
    ensures
        trailing_token(s).len() == 0,
{
}

/// The first position of the trailing token.
fn token_start(s: &str) -> (start: usize)
    ensures
        start <= s@.len(),
        forall|j: int| start <= j < s@.len() ==> !is_boundary(#[trigger] s@[j]),
        start > 0 ==> is_boundary(s@[start - 1]),
{
    let len = s.unicode_len();
    let mut start: usize = len;
    while start > 0
        invariant
            start <= len,
            len == s@.len(),
            forall|j: int| start <= j < len ==> !is_boundary(#[trigger] s@[j]),
        decreases start,
    {
        if is_boundary_exec(s.get_char(start - 1)) {
            return start;
        }
        start = start - 1;
    }
    start
}

/// The trailing token is the suffix that begins after the last boundary.
proof fn lemma_trailing_token(s: Seq<char>, start: int)
    requires
        0 <= start <= s.len(),
        forall|j: int| start <= j < s.len() ==> !is_boundary(#[trigger] s[j]),
        start > 0 ==> is_boundary(s[start - 1]),
    ensures
        trailing_token(s) == s.skip(start),
    decreases s.len(),
{
    if s.len() == 0 {
        assert(trailing_token(s) =~= s.skip(start));
    } else if start == s.len() {
        assert(is_boundary(s.last()));
        assert(trailing_token(s) =~= s.skip(start));
    } else {
        assert(!is_boundary(s.last()));
        lemma_trailing_token(s.drop_last(), start);
        assert(trailing_token(s) == s.drop_last().skip(start).push(s.last()));
        assert(s.drop_last().skip(start).push(s.last()) =~= s.skip(start));
    }
}

/// The trailing token of a text, on concrete values.
pub fn trailing_token_exec(s: &str) -> (r: String)
    ensures
        r@ == trailing_token(s@),
{
    let len = s.unicode_len();
    let start = token_start(s);
    proof {
        lemma_trailing_token(s@, start as int);
        assert(s@.subrange(start as int, len as int) =~= s@.skip(start as int));
    }
    s.substring_char(start, len).to_owned()
}

/// One text literally begins with another.
pub open spec fn is_prefix(p: Seq<char>, s: Seq<char>) -> bool {
    p.len() <= s.len() && s.subrange(0, p.len() as int) == p
}

/// Decide whether `s` begins with `p`.
pub fn has_prefix(s: &str, p: &str) -> (r: bool)
    ensures
        r == is_prefix(p@, s@),
{
    let p_len = p.unicode_len();
    let s_len = s.unicode_len();
    if p_len > s_len {
        return false;
    }
    let mut i: usize = 0;
    while i < p_len
        invariant
            i <= p_len,
            p_len == p@.len(),
            s_len == s@.len(),
            p_len <= s_len,
            forall|j: int| 0 <= j < i ==> s@[j] == p@[j],
        decreases p_len - i,
    {
        if s.get_char(i) != p.get_char(i) {
            proof {
                if is_prefix(p@, s@) {
                    assert(s@.subrange(0, p@.len() as int)[i as int] == p@[i as int]);
                }
            }
            return false;
        }
        i = i + 1;
    }
    proof {
        assert(s@.subrange(0, p@.len() as int) =~= p@);
    }
    true
}

/// The candidates that carry the prefix, in their given order, up to a
/// bounded count.
pub open spec fn spec_filter_limit(cands: Seq<Seq<char>>, p: Seq<char>, n: nat) -> Seq<Seq<char>>
    decreases cands.len(),
{
    if cands.len() == 0 || n == 0 {
        Seq::empty()
    } else if is_prefix(p, cands[0]) {
        seq![cands[0]] + spec_filter_limit(cands.skip(1), p, (n - 1) as nat)
    } else {
        spec_filter_limit(cands.skip(1), p, n)
    }
}

/// What filtering guarantees: never more than the bound, and every survivor
/// carries the prefix.
pub proof fn lemma_filter_limit_props(cands: Seq<Seq<char>>, p: Seq<char>, n: nat)
    ensures
        spec_filter_limit(cands, p, n).len() <= n,
        forall|i: int|
            0 <= i < spec_filter_limit(cands, p, n).len() ==> is_prefix(
                p,
                #[trigger] spec_filter_limit(cands, p, n)[i],
            ),
    decreases cands.len(),
{
    if cands.len() == 0 || n == 0 {
    } else if is_prefix(p, cands[0]) {
        lemma_filter_limit_props(cands.skip(1), p, (n - 1) as nat);
    } else {
        lemma_filter_limit_props(cands.skip(1), p, n);
    }
}

/// Keep, in order, the candidates that begin with the prefix, up to `limit`
/// of them.
pub fn prefix_filter(cands: Vec<String>, prefix: &str, limit: usize) -> (r: Vec<String>)
    ensures
        r.deep_view() == spec_filter_limit(cands.deep_view(), prefix@, limit as nat),
{
    let ghost all = cands.deep_view();
    let mut out: Vec<String> = Vec::new();
    let mut i: usize = 0;
    proof {
        assert(all.skip(0) =~= all);
        assert(out.deep_view() + spec_filter_limit(all, prefix@, limit as nat) =~= spec_filter_limit(
            all,
            prefix@,
            limit as nat,
        ));
    }
    while i < cands.len() && out.len() < limit
        invariant
            all == cands.deep_view(),
            i <= cands@.len(),
            out@.len() <= limit,
            spec_filter_limit(all, prefix@, limit as nat) == out.deep_view() + spec_filter_limit(
                all.skip(i as int),
                prefix@,
                (limit - out@.len()) as nat,
            ),
        decreases cands@.len() - i,
    {
        proof {
            assert(all.skip(i as int)[0] == all[i as int]);
            assert(all.skip(i as int).skip(1) =~= all.skip(i as int + 1));
            assert(all[i as int] == cands@[i as int]@);
        }
        if has_prefix(&cands[i], prefix) {
            let ghost out_old = out.deep_view();
            out.push(cands[i].clone());
            proof {
                assert(out.deep_view() =~= out_old.push(all[i as int]));
                assert(out_old + (seq![all[i as int]] + spec_filter_limit(
                    all.skip(i as int + 1),
                    prefix@,
                    (limit - out@.len()) as nat,
                )) =~= out.deep_view() + spec_filter_limit(
                    all.skip(i as int + 1),
                    prefix@,
                    (limit - out@.len()) as nat,
                ));
            }
        }
        i = i + 1;
    }
    proof {
        if i == cands@.len() {
            assert(all.skip(i as int) =~= Seq::<Seq<char>>::empty());
        }
        assert(spec_filter_limit(all, prefix@, limit as nat) =~= out.deep_view());
    }
    out
}

/// Candidate completions for a partial input: its trailing token is the
/// prefix; an empty prefix proposes nothing; otherwise at most six
/// candidates, each literally carrying the prefix, in the engine's
/// relevance order.
pub fn get_completions(ctx: &numbat::Context, partial_input: &str) -> (r: Vec<String>)
    ensures
        r@.len() <= 6,
        trailing_token(partial_input@).len() == 0 ==> r@.len() == 0,
        forall|i: int|
            0 <= i < r@.len() ==> is_prefix(trailing_token(partial_input@), #[trigger] r@[i]@),
{
    let token = trailing_token_exec(partial_input);
    if token.as_str().unicode_len() == 0 {
        return Vec::new();
    }
    let cands = completion_candidates(ctx, token.as_str());
    let ghost cands_dv = cands.deep_view();
    let r = prefix_filter(cands, token.as_str(), 6);
    proof {
        lemma_filter_limit_props(cands_dv, token@, 6);
        assert(r.deep_view().len() == r@.len());
        assert forall|i: int| 0 <= i < r@.len() implies is_prefix(
            trailing_token(partial_input@),
            #[trigger] r@[i]@,
        ) by {
            assert(r.deep_view()[i] == r@[i]@);
        }
    }
    r
}

} // verus!
