//! The mathematical model of multi-pattern matching over a byte stream.
//!
//! A pattern table is modelled as a sequence of byte-string patterns. The
//! scan of an input is the token sequence produced by walking the input left
//! to right: at each position, if any pattern starts there, the
//! earliest-starting occurrence wins, ties at the same position go to the
//! shortest pattern and then to the earliest-declared one, and the cursor
//! jumps past the matched bytes; otherwise one literal byte is emitted.
//! Everything the library promises about scanning is stated in terms of
//! [`tokens`] and proved from it.

use vstd::prelude::*;

verus! {

/// One atomic unit of a scan: a single literal byte, or a whole occurrence
/// of the pattern with the given index.
pub enum Token {
    Lit(u8),
    Mat(int),
}

/// Every pattern is non-empty, so a match always consumes at least one byte.
pub open spec fn wf_pats(pats: Seq<Seq<u8>>) -> bool {
    forall|p: int| 0 <= p < pats.len() ==> pats[p].len() >= 1
}

pub open spec fn is_prefix_of(p: Seq<u8>, s: Seq<u8>) -> bool {
    p.len() <= s.len() && s.subrange(0, p.len() as int) == p
}

/// Pattern `p` occurs at the very start of the suffix `s`.
pub open spec fn matches_at(pats: Seq<Seq<u8>>, s: Seq<u8>, p: int) -> bool {
    0 <= p < pats.len() && is_prefix_of(pats[p], s)
}

pub open spec fn has_match(pats: Seq<Seq<u8>>, s: Seq<u8>) -> bool {
    exists|p: int| matches_at(pats, s, p)
}

/// The winning pattern at the start of `s`, considering only patterns with
/// index below `n`: the shortest match, earliest-declared among equals.
pub open spec fn best_upto(pats: Seq<Seq<u8>>, s: Seq<u8>, n: nat) -> Option<int>
    decreases n,
{
    if n == 0 {
        None
    } else {
        let prev = best_upto(pats, s, (n - 1) as nat);
        let q = n - 1;
        if matches_at(pats, s, q as int) {
            match prev {
                None => Some(q as int),
                Some(p) => if pats[q as int].len() < pats[p].len() {
                    Some(q as int)
                } else {
                    Some(p)
                },
            }
        } else {
            prev
        }
    }
}

/// The winning pattern at the start of `s`, or `None` when no pattern
/// starts there.
pub open spec fn best_match(pats: Seq<Seq<u8>>, s: Seq<u8>) -> Option<int> {
    best_upto(pats, s, pats.len())
}

/// The canonical scan of `s`: the ordered token sequence described in the
/// module documentation. This is the reference every executable scan is
/// held to.
pub open spec fn tokens(pats: Seq<Seq<u8>>, s: Seq<u8>) -> Seq<Token>
    decreases s.len(),
{
    if s.len() == 0 {
        Seq::empty()
    } else {
        match best_match(pats, s) {
            Some(p) => if 1 <= pats[p].len() <= s.len() {
                seq![Token::Mat(p)] + tokens(pats, s.skip(pats[p].len() as int))
            } else {
                // Unreachable for a well-formed table; kept total regardless.
                seq![Token::Lit(s[0])] + tokens(pats, s.skip(1))
            },
            None => seq![Token::Lit(s[0])] + tokens(pats, s.skip(1)),
        }
    }
}

/// The original input bytes a token stands for.
pub open spec fn token_src(pats: Seq<Seq<u8>>, t: Token) -> Seq<u8> {
    match t {
        Token::Lit(b) => seq![b],
        Token::Mat(p) => if 0 <= p < pats.len() {
            pats[p]
        } else {
            Seq::empty()
        },
    }
}

/// The concatenated original bytes of a token sequence.
pub open spec fn tokens_src(pats: Seq<Seq<u8>>, ts: Seq<Token>) -> Seq<u8>
    decreases ts.len(),
{
    if ts.len() == 0 {
        Seq::empty()
    } else {
        token_src(pats, ts[0]) + tokens_src(pats, ts.skip(1))
    }
}

/// The output bytes a token stands for: literal bytes unchanged, a match
/// replaced by the replacement at its pattern index.
pub open spec fn token_out(reps: Seq<Seq<u8>>, t: Token) -> Seq<u8> {
    match t {
        Token::Lit(b) => seq![b],
        Token::Mat(p) => if 0 <= p < reps.len() {
            reps[p]
        } else {
            Seq::empty()
        },
    }
}

/// The concatenated output bytes of a token sequence.
pub open spec fn tokens_out(reps: Seq<Seq<u8>>, ts: Seq<Token>) -> Seq<u8>
    decreases ts.len(),
{
    if ts.len() == 0 {
        Seq::empty()
    } else {
        token_out(reps, ts[0]) + tokens_out(reps, ts.skip(1))
    }
}

/// The converted form of `s`: every pattern occurrence replaced by its
/// replacement, all other bytes unchanged.
pub open spec fn converted(pats: Seq<Seq<u8>>, reps: Seq<Seq<u8>>, s: Seq<u8>) -> Seq<u8> {
    tokens_out(reps, tokens(pats, s))
}

/// The suffix `c` could still grow into a match of some pattern: it is a
/// proper prefix of one, so its bytes cannot be classified yet.
pub open spec fn live_prefix(pats: Seq<Seq<u8>>, c: Seq<u8>) -> bool {
    exists|q: int|
        0 <= q < pats.len() && c.len() < pats[q].len() && pats[q].subrange(0, c.len() as int) == c
}

/// No pattern occurs anywhere in `s`, not even at its very end.
pub open spec fn no_occurrence(pats: Seq<Seq<u8>>, s: Seq<u8>) -> bool {
    forall|i: int| 0 <= i <= s.len() ==> !has_match(pats, s.skip(i))
}

/// The bytes fed to a scanner so far decompose into the tokens already
/// emitted plus a carry of still-unclassified trailing bytes: whatever
/// bytes follow, the scan of the whole is the emitted tokens followed by
/// the scan of the carry and those bytes.
pub open spec fn scan_decomposes(
    pats: Seq<Seq<u8>>,
    fed: Seq<u8>,
    emitted: Seq<Token>,
    carry: Seq<u8>,
) -> bool {
    forall|f: Seq<u8>| #[trigger] tokens(pats, fed + f) == emitted + tokens(pats, carry + f)
}

/// What `best_upto` returns: `None` exactly when no pattern below `n`
/// matches, and otherwise the shortest, earliest-declared matching index.
pub proof fn lemma_best_upto(pats: Seq<Seq<u8>>, s: Seq<u8>, n: nat)
    requires
        n <= pats.len(),
    ensures
        best_upto(pats, s, n) is None ==> forall|q: int| 0 <= q < n ==> !matches_at(pats, s, q),
        best_upto(pats, s, n) matches Some(p) ==> 0 <= p < n && matches_at(pats, s, p),
        best_upto(pats, s, n) matches Some(p) ==> forall|q: int|
            0 <= q < n && matches_at(pats, s, q) ==> (pats[p].len() < pats[q].len() || (
            pats[p].len() == pats[q].len() && p <= q)),
    decreases n,
{
    if n > 0 {
        lemma_best_upto(pats, s, (n - 1) as nat);
    }
}

/// A match of `c` is a match of any extension of `c`.
pub proof fn lemma_match_extend(pats: Seq<Seq<u8>>, c: Seq<u8>, f: Seq<u8>, q: int)
    requires
        matches_at(pats, c, q),
    ensures
        matches_at(pats, c + f, q),
{
    assert((c + f).subrange(0, pats[q].len() as int) =~= c.subrange(0, pats[q].len() as int));
}

/// A match of an extension of `c` that fits inside `c` is a match of `c`.
pub proof fn lemma_match_restrict(pats: Seq<Seq<u8>>, c: Seq<u8>, f: Seq<u8>, q: int)
    requires
        matches_at(pats, c + f, q),
        pats[q].len() <= c.len(),
    ensures
        matches_at(pats, c, q),
{
    assert(c.subrange(0, pats[q].len() as int) =~= (c + f).subrange(0, pats[q].len() as int));
}

/// A winner at the start of `c` stays the winner however `c` is extended:
/// every pattern decided against was either seen whole inside `c`, or is
/// longer than the winner and so loses the tie-break anyway.
pub proof fn lemma_match_stable(pats: Seq<Seq<u8>>, c: Seq<u8>, f: Seq<u8>)
    requires
        best_match(pats, c) is Some,
    ensures
        best_match(pats, c + f) == best_match(pats, c),
{
    let p = best_match(pats, c)->Some_0;
    lemma_best_upto(pats, c, pats.len());
    lemma_best_upto(pats, c + f, pats.len());
    lemma_match_extend(pats, c, f, p);
    match best_match(pats, c + f) {
        None => {
            assert(matches_at(pats, c + f, p));
            assert(false);
        },
        Some(r) => {
            if pats[r].len() <= c.len() {
                lemma_match_restrict(pats, c, f, r);
                assert(pats[p].len() == pats[r].len() && p == r);
            } else {
                assert(pats[p].len() <= c.len());
                assert(false);
            }
        },
    }
}

/// When no pattern is complete at the start of `c` and `c` cannot grow into
/// one, no extension of `c` has a match at its start either.
pub proof fn lemma_lit_stable(pats: Seq<Seq<u8>>, c: Seq<u8>, f: Seq<u8>)
    requires
        best_match(pats, c) is None,
        !live_prefix(pats, c),
    ensures
        best_match(pats, c + f) is None,
{
    lemma_best_upto(pats, c, pats.len());
    lemma_best_upto(pats, c + f, pats.len());
    match best_match(pats, c + f) {
        None => {},
        Some(r) => {
            if pats[r].len() <= c.len() {
                lemma_match_restrict(pats, c, f, r);
            } else {
                assert(pats[r].subrange(0, c.len() as int) =~= c);
                assert(live_prefix(pats, c));
            }
            assert(false);
        },
    }
}

/// Scanning a stream that starts with a completed winning match emits that
/// match first, wherever the stream ends.
pub proof fn lemma_step_match(pats: Seq<Seq<u8>>, c: Seq<u8>, f: Seq<u8>, p: int)
    requires
        wf_pats(pats),
        best_match(pats, c) == Some(p),
    ensures
        0 <= p < pats.len() && 1 <= pats[p].len() <= c.len(),
        tokens(pats, c + f) == seq![Token::Mat(p)] + tokens(
            pats,
            c.skip(pats[p].len() as int) + f,
        ),
{
    lemma_best_upto(pats, c, pats.len());
    lemma_match_stable(pats, c, f);
    let n = pats[p].len() as int;
    assert((c + f).skip(n) =~= c.skip(n) + f);
}

/// Scanning a stream whose head byte can neither complete nor still grow
/// into a match emits that byte as a literal, wherever the stream ends.
pub proof fn lemma_step_lit(pats: Seq<Seq<u8>>, c: Seq<u8>, f: Seq<u8>)
    requires
        c.len() >= 1,
        best_match(pats, c) is None,
        !live_prefix(pats, c),
    ensures
        tokens(pats, c + f) == seq![Token::Lit(c[0])] + tokens(pats, c.skip(1) + f),
{
    lemma_lit_stable(pats, c, f);
    assert((c + f)[0] == c[0]);
    assert((c + f).skip(1) =~= c.skip(1) + f);
}

/// The original bytes of a concatenation of token sequences, in order.
pub proof fn lemma_src_concat(pats: Seq<Seq<u8>>, a: Seq<Token>, b: Seq<Token>)
    ensures
        tokens_src(pats, a + b) == tokens_src(pats, a) + tokens_src(pats, b),
    decreases a.len(),
{
    if a.len() == 0 {
        assert(a + b =~= b);
        assert(tokens_src(pats, a) + tokens_src(pats, b) =~= tokens_src(pats, b));
    } else {
        lemma_src_concat(pats, a.skip(1), b);
        assert((a + b).skip(1) =~= a.skip(1) + b);
        assert((a + b)[0] == a[0]);
        assert(token_src(pats, a[0]) + (tokens_src(pats, a.skip(1)) + tokens_src(pats, b)) =~= (
        token_src(pats, a[0]) + tokens_src(pats, a.skip(1))) + tokens_src(pats, b));
    }
}

/// The output bytes of a concatenation of token sequences, in order.
pub proof fn lemma_out_concat(reps: Seq<Seq<u8>>, a: Seq<Token>, b: Seq<Token>)
    ensures
        tokens_out(reps, a + b) == tokens_out(reps, a) + tokens_out(reps, b),
    decreases a.len(),
{
    if a.len() == 0 {
        assert(a + b =~= b);
        assert(tokens_out(reps, a) + tokens_out(reps, b) =~= tokens_out(reps, b));
    } else {
        lemma_out_concat(reps, a.skip(1), b);
        assert((a + b).skip(1) =~= a.skip(1) + b);
        assert((a + b)[0] == a[0]);
        assert(token_out(reps, a[0]) + (tokens_out(reps, a.skip(1)) + tokens_out(reps, b)) =~= (
        token_out(reps, a[0]) + tokens_out(reps, a.skip(1))) + tokens_out(reps, b));
    }
}

/// The original bytes of a single token.
pub proof fn lemma_src_single(pats: Seq<Seq<u8>>, t: Token)
    ensures
        tokens_src(pats, seq![t]) == token_src(pats, t),
{
    assert(seq![t].skip(1) =~= Seq::<Token>::empty());
    assert(tokens_src(pats, seq![t].skip(1)) == Seq::<u8>::empty());
    assert(token_src(pats, t) + Seq::<u8>::empty() =~= token_src(pats, t));
}

/// The output bytes of a single token.
pub proof fn lemma_out_single(reps: Seq<Seq<u8>>, t: Token)
    ensures
        tokens_out(reps, seq![t]) == token_out(reps, t),
{
    assert(seq![t].skip(1) =~= Seq::<Token>::empty());
    assert(tokens_out(reps, seq![t].skip(1)) == Seq::<u8>::empty());
    assert(token_out(reps, t) + Seq::<u8>::empty() =~= token_out(reps, t));
}

/// Lossless partition: concatenating the literal bytes and the original
/// bytes of each match, in emission order, reconstructs the input exactly.
pub proof fn lemma_lossless(pats: Seq<Seq<u8>>, s: Seq<u8>)
    requires
        wf_pats(pats),
    ensures
        tokens_src(pats, tokens(pats, s)) == s,
    decreases s.len(),
{
    if s.len() == 0 {
        assert(tokens_src(pats, tokens(pats, s)) =~= s);
    } else {
        lemma_best_upto(pats, s, pats.len());
        match best_match(pats, s) {
            Some(p) => {
                let n = pats[p].len() as int;
                lemma_lossless(pats, s.skip(n));
                lemma_src_concat(pats, seq![Token::Mat(p)], tokens(pats, s.skip(n)));
                lemma_src_single(pats, Token::Mat(p));
                assert(pats[p] + s.skip(n) =~= s);
            },
            None => {
                lemma_lossless(pats, s.skip(1));
                lemma_src_concat(pats, seq![Token::Lit(s[0])], tokens(pats, s.skip(1)));
                lemma_src_single(pats, Token::Lit(s[0]));
                assert(seq![s[0]] + s.skip(1) =~= s);
            },
        }
    }
}

/// The token form of a run of literal bytes.
pub open spec fn atoms_of_lits(bs: Seq<u8>) -> Seq<Token> {
    bs.map_values(|b: u8| Token::Lit(b))
}

/// Literal tokens contribute their bytes unchanged to the original form.
pub proof fn lemma_atoms_lits_src(pats: Seq<Seq<u8>>, bs: Seq<u8>)
    ensures
        tokens_src(pats, atoms_of_lits(bs)) == bs,
    decreases bs.len(),
{
    if bs.len() == 0 {
        assert(tokens_src(pats, atoms_of_lits(bs)) =~= bs);
    } else {
        lemma_atoms_lits_src(pats, bs.skip(1));
        assert(atoms_of_lits(bs).skip(1) =~= atoms_of_lits(bs.skip(1)));
        assert(atoms_of_lits(bs)[0] == Token::Lit(bs[0]));
        assert(seq![bs[0]] + bs.skip(1) =~= bs);
    }
}

/// Literal tokens contribute their bytes unchanged to the output form.
pub proof fn lemma_atoms_lits_out(reps: Seq<Seq<u8>>, bs: Seq<u8>)
    ensures
        tokens_out(reps, atoms_of_lits(bs)) == bs,
    decreases bs.len(),
{
    if bs.len() == 0 {
        assert(tokens_out(reps, atoms_of_lits(bs)) =~= bs);
    } else {
        lemma_atoms_lits_out(reps, bs.skip(1));
        assert(atoms_of_lits(bs).skip(1) =~= atoms_of_lits(bs.skip(1)));
        assert(atoms_of_lits(bs)[0] == Token::Lit(bs[0]));
        assert(seq![bs[0]] + bs.skip(1) =~= bs);
    }
}

/// Determinism: the converted form is a function of the patterns, the
/// replacements and the input bytes alone, so any two runs over the same
/// table and input yield byte-identical output.
pub proof fn lemma_deterministic(
    pats: Seq<Seq<u8>>,
    reps: Seq<Seq<u8>>,
    s: Seq<u8>,
    out1: Seq<u8>,
    out2: Seq<u8>,
)
    requires
        out1 == converted(pats, reps, s),
        out2 == converted(pats, reps, s),
    ensures
        out1 == out2,
{
}

/// An input in which no configured pattern occurs converts to itself.
pub proof fn lemma_noop(pats: Seq<Seq<u8>>, reps: Seq<Seq<u8>>, s: Seq<u8>)
    requires
        no_occurrence(pats, s),
    ensures
        converted(pats, reps, s) == s,
    decreases s.len(),
{
    if s.len() == 0 {
        assert(converted(pats, reps, s) =~= s);
    } else {
        lemma_best_upto(pats, s, pats.len());
        assert(!has_match(pats, s.skip(0)));
        assert(s.skip(0) =~= s);
        match best_match(pats, s) {
            Some(p) => {
                assert(matches_at(pats, s, p));
                assert(false);
            },
            None => {},
        }
        assert forall|j: int| 0 <= j <= s.skip(1).len() implies !has_match(
            pats,
            s.skip(1).skip(j),
        ) by {
            assert(!has_match(pats, s.skip(1 + j)));
            assert(s.skip(1).skip(j) =~= s.skip(1 + j));
        }
        lemma_noop(pats, reps, s.skip(1));
        lemma_out_concat(reps, seq![Token::Lit(s[0])], tokens(pats, s.skip(1)));
        lemma_out_single(reps, Token::Lit(s[0]));
        assert(seq![s[0]] + s.skip(1) =~= s);
    }
}

} // verus!
