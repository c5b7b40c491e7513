//! The chunked stream scanner and the substitution driver.
//!
//! The scanner consumes an input in bounded blocks and emits an ordered,
//! gap-free partition of the stream into literal runs and pattern matches,
//! carrying any boundary-spanning partial match forward in a bounded carry
//! buffer. The driver turns the emitted segments into output bytes, literal
//! runs unchanged and each match replaced by its configured replacement.

use vstd::prelude::*;

use crate::scan::{
    atoms_of_lits, best_match, best_upto, converted, is_prefix_of, lemma_atoms_lits_out,
    lemma_atoms_lits_src, lemma_best_upto, lemma_out_concat, lemma_out_single, lemma_src_concat,
    lemma_src_single, lemma_step_lit, lemma_step_match, live_prefix, matches_at, scan_decomposes,
    tokens, tokens_out, tokens_src, wf_pats, Token,
};
use crate::table::PatternTable;

verus! {

/// The unit a scan emits: a contiguous run of unmatched bytes passed
/// through verbatim, or one whole occurrence of the pattern with the given
/// index.
pub enum Segment {
    Literal(Vec<u8>),
    Match(usize),
}

impl Segment {
    /// The atomic tokens this segment stands for.
    pub open spec fn atoms(self) -> Seq<Token> {
        match self {
            Segment::Literal(v) => atoms_of_lits(v@),
            Segment::Match(p) => seq![Token::Mat(p as int)],
        }
    }

    /// A literal run is never empty; a match index points into the table.
    pub open spec fn valid(self, table: PatternTable) -> bool {
        match self {
            Segment::Literal(v) => v@.len() >= 1,
            Segment::Match(p) => (p as int) < table.pats().len(),
        }
    }
}

/// The atomic tokens of a whole segment sequence, in emission order.
pub open spec fn atoms(segs: Seq<Segment>) -> Seq<Token>
    decreases segs.len(),
{
    if segs.len() == 0 {
        Seq::empty()
    } else {
        segs[0].atoms() + atoms(segs.skip(1))
    }
}

/// Appending a segment appends its atoms.
pub proof fn lemma_atoms_push(segs: Seq<Segment>, s: Segment)
    ensures
        atoms(segs.push(s)) == atoms(segs) + s.atoms(),
    decreases segs.len(),
{
    if segs.len() == 0 {
        assert(segs.push(s).skip(1) =~= Seq::<Segment>::empty());
        assert(atoms(segs.push(s).skip(1)) == Seq::<Token>::empty());
        assert(s.atoms() + Seq::<Token>::empty() =~= s.atoms());
        assert(atoms(segs) + s.atoms() =~= s.atoms());
    } else {
        lemma_atoms_push(segs.skip(1), s);
        assert(segs.push(s).skip(1) =~= segs.skip(1).push(s));
        assert(segs.push(s)[0] == segs[0]);
        assert(segs[0].atoms() + (atoms(segs.skip(1)) + s.atoms()) =~= (segs[0].atoms() + atoms(
            segs.skip(1),
        )) + s.atoms());
    }
}

/// Does this pattern occur, whole, at offset `i` of the buffer?
fn match_here(pat: &Vec<u8>, buf: &Vec<u8>, i: usize) -> (r: bool)
    requires
        i <= buf@.len(),
    ensures
        r == is_prefix_of(pat@, buf@.skip(i as int)),
{
    if buf.len() - i < pat.len() {
        return false;
    }
    let m = pat.len();
    let n = buf.len();
    for j in 0..m
        invariant
            m == pat@.len(),
            n == buf@.len(),
            i + m <= n,
            forall|t: int| 0 <= t < j ==> pat@[t] == buf@[i + t],
    {
        if pat[j] != buf[i + j] {
            proof {
                if is_prefix_of(pat@, buf@.skip(i as int)) {
                    assert(buf@.skip(i as int).subrange(0, pat@.len() as int)[j as int] == buf@[i
                        + j]);
                }
            }
            return false;
        }
    }
    proof {
        assert(buf@.skip(i as int).subrange(0, pat@.len() as int) =~= pat@);
    }
    true
}

/// The winning pattern occurring whole at offset `i` of the buffer, if any:
/// the shortest, earliest-declared one.
fn best_full_match(table: &PatternTable, buf: &Vec<u8>, i: usize) -> (r: Option<usize>)
    requires
        i <= buf@.len(),
    ensures
        match r {
            Some(p) => best_match(table.pats(), buf@.skip(i as int)) == Some(p as int),
            None => best_match(table.pats(), buf@.skip(i as int)) is None,
        },
{
    let ghost s = buf@.skip(i as int);
    let n = table.len();
    let mut best: Option<usize> = None;
    for q in 0..n
        invariant
            i <= buf@.len(),
            n == table.pats().len(),
            s == buf@.skip(i as int),
            match best {
                Some(p) => best_upto(table.pats(), s, q as nat) == Some(p as int) && (p as int)
                    < table.pats().len(),
                None => best_upto(table.pats(), s, q as nat) is None,
            },
    {
        if match_here(table.pattern(q), buf, i) {
            assert(matches_at(table.pats(), s, q as int));
            best = match best {
                None => Some(q),
                Some(p) => if table.pattern(q).len() < table.pattern(p).len() {
                    Some(q)
                } else {
                    Some(p)
                },
            };
        } else {
            assert(!matches_at(table.pats(), s, q as int));
        }
    }
    best
}

/// Could the buffer's tail starting at offset `i` still grow into a match
/// of this pattern, were more input to follow?
fn live_for_pattern(pat: &Vec<u8>, buf: &Vec<u8>, i: usize) -> (r: bool)
    requires
        i <= buf@.len(),
        buf@.len() - i < pat@.len(),
    ensures
        r == (pat@.subrange(0, buf@.len() - i) == buf@.skip(i as int)),
{
    let m = buf.len() - i;
    let n = buf.len();
    for j in 0..m
        invariant
            m == buf@.len() - i,
            n == buf@.len(),
            i + m <= n,
            m < pat@.len(),
            forall|t: int| 0 <= t < j ==> pat@[t] == buf@[i + t],
    {
        if pat[j] != buf[i + j] {
            proof {
                if pat@.subrange(0, buf@.len() - i) == buf@.skip(i as int) {
                    assert(pat@.subrange(0, buf@.len() - i)[j as int] == pat@[j as int]);
                    assert(buf@.skip(i as int)[j as int] == buf@[i + j]);
                }
            }
            return false;
        }
    }
    proof {
        assert(pat@.subrange(0, buf@.len() - i) =~= buf@.skip(i as int));
    }
    true
}

/// Is the buffer's tail starting at offset `i` a proper prefix of some
/// configured pattern, so that its bytes cannot be classified yet?
fn live_prefix_here(table: &PatternTable, buf: &Vec<u8>, i: usize) -> (r: bool)
    requires
        i <= buf@.len(),
    ensures
        r == live_prefix(table.pats(), buf@.skip(i as int)),
{
    let ghost s = buf@.skip(i as int);
    let n = table.len();
    for q in 0..n
        invariant
            i <= buf@.len(),
            n == table.pats().len(),
            s == buf@.skip(i as int),
            forall|t: int|
                0 <= t < q ==> !(s.len() < table.pats()[t].len() && table.pats()[t].subrange(
                    0,
                    s.len() as int,
                ) == s),
    {
        let pat = table.pattern(q);
        if buf.len() - i < pat.len() {
            if live_for_pattern(pat, buf, i) {
                assert(live_prefix(table.pats(), s)) by {
                    assert(s.len() < table.pats()[q as int].len() && table.pats()[
                    q as int].subrange(0, s.len() as int) == s);
                }
                return true;
            }
        }
    }
    false
}

/// The chunked stream scanner: drives the matching automaton over
/// sequential input blocks, emitting segments as soon as they are decided
/// and carrying at most one unresolved pattern prefix across block
/// boundaries. Memory use is bounded by the block size plus the longest
/// pattern, never by the stream length.
pub struct Scanner {
    /// Bytes read but not yet classified: they may be the prefix of a match
    /// extending into the next block.
    carry: Vec<u8>,
    /// All bytes fed so far.
    fed: Ghost<Seq<u8>>,
    /// The atoms of all segments emitted so far.
    emitted: Ghost<Seq<Token>>,
}

impl Scanner {
    pub closed spec fn fed_bytes(self) -> Seq<u8> {
        self.fed@
    }

    pub closed spec fn emitted_tokens(self) -> Seq<Token> {
        self.emitted@
    }

    pub closed spec fn carry_bytes(self) -> Seq<u8> {
        self.carry@
    }

    /// The scanner's invariant: whatever bytes may still follow, the scan
    /// of everything fed so far is the tokens already emitted followed by
    /// the scan of the carry and those bytes; and the carry is either empty
    /// or a proper prefix of some pattern, hence shorter than the longest
    /// pattern.
    pub closed spec fn wf(self, table: PatternTable) -> bool {
        &&& scan_decomposes(table.pats(), self.fed@, self.emitted@, self.carry@)
        &&& (self.carry@.len() == 0 || live_prefix(table.pats(), self.carry@))
    }

    /// Bounded memory: the carry never reaches the length of the longest
    /// configured pattern — it is empty, or a proper prefix of some
    /// pattern.
    pub proof fn lemma_carry_bounded(self, table: PatternTable)
        requires
            self.wf(table),
        ensures
            self.carry_bytes().len() == 0 || exists|q: int|
                0 <= q < table.pats().len() && self.carry_bytes().len() < table.pats()[q].len(),
    {
    }

    /// A fresh scanner with nothing fed, nothing emitted and an empty carry.
    pub fn new(table: &PatternTable) -> (s: Scanner)
        ensures
            s.wf(*table),
            s.fed_bytes() == Seq::<u8>::empty(),
            s.emitted_tokens() == Seq::<Token>::empty(),
    {
        let s = Scanner {
            carry: Vec::new(),
            fed: Ghost(Seq::empty()),
            emitted: Ghost(Seq::empty()),
        };
        proof {
            let pats = table.pats();
            assert forall|f: Seq<u8>| #[trigger] tokens(pats, Seq::<u8>::empty() + f) == Seq::<
                Token,
            >::empty() + tokens(pats, Seq::<u8>::empty() + f) by {
                assert(Seq::<Token>::empty() + tokens(pats, Seq::<u8>::empty() + f) =~= tokens(
                    pats,
                    Seq::<u8>::empty() + f,
                ));
            }
        }
        s
    }

    /// Feeds one block of input. The returned segments are, in order,
    /// everything that became decidable; bytes that might still extend into
    /// a match stay in the carry. The atoms of all segments ever returned
    /// depend only on the bytes fed, not on how they were cut into blocks.
    pub fn feed(&mut self, table: &PatternTable, block: &Vec<u8>) -> (segs: Vec<Segment>)
        requires
            old(self).wf(*table),
            table.wf(),
        ensures
            final(self).wf(*table),
            final(self).fed_bytes() == old(self).fed_bytes() + block@,
            final(self).emitted_tokens() == old(self).emitted_tokens() + atoms(segs@),
            forall|k: int| 0 <= k < segs@.len() ==> segs@[k].valid(*table),
    {
        let ghost pats = table.pats();
        let ghost fed0 = self.fed@;
        let ghost em0 = self.emitted@;
        let ghost carry0 = self.carry@;
        proof {
            table.lemma_wf();
        }

        let mut buf: Vec<u8> = Vec::new();
        buf.append(&mut self.carry);
        let bl = block.len();
        for j in 0..bl
            invariant
                bl == block@.len(),
                buf@ == carry0 + block@.take(j as int),
        {
            proof {
                assert(carry0 + block@.take(j as int) + seq![block@[j as int]] =~= carry0
                    + block@.take(j + 1));
            }
            buf.push(block[j]);
        }
        proof {
            assert(block@.take(bl as int) =~= block@);
        }
        let ghost buf0 = carry0 + block@;

        let mut segs: Vec<Segment> = Vec::new();
        let mut lit: Vec<u8> = Vec::new();
        let mut i: usize = 0;
        let n = buf.len();
        proof {
            assert(atoms(segs@) + atoms_of_lits(lit@) =~= Seq::<Token>::empty());
            assert(buf@.skip(0) =~= buf0);
            assert forall|f: Seq<u8>| #[trigger] tokens(pats, buf0 + f) == (atoms(segs@)
                + atoms_of_lits(lit@)) + tokens(pats, buf@.skip(0) + f) by {
                assert((atoms(segs@) + atoms_of_lits(lit@)) + tokens(pats, buf@.skip(0) + f) =~=
                tokens(pats, buf0 + f));
            }
        }
        while i < n
            invariant
                n == buf@.len(),
                i <= n,
                buf@ == buf0,
                table.wf(),
                pats == table.pats(),
                wf_pats(pats),
                scan_decomposes(
                    pats,
                    buf0,
                    atoms(segs@) + atoms_of_lits(lit@),
                    buf@.skip(i as int),
                ),
                forall|k: int| 0 <= k < segs@.len() ==> segs@[k].valid(*table),
            ensures
                n == buf@.len(),
                i <= n,
                buf@ == buf0,
                scan_decomposes(
                    pats,
                    buf0,
                    atoms(segs@) + atoms_of_lits(lit@),
                    buf@.skip(i as int),
                ),
                forall|k: int| 0 <= k < segs@.len() ==> segs@[k].valid(*table),
                i == n || live_prefix(pats, buf@.skip(i as int)),
            decreases n - i,
        {
            let ghost segs_a = segs@;
            let ghost lit_a = lit@;
            let ghost c_i = buf@.skip(i as int);
            match best_full_match(table, &buf, i) {
                Some(p) => {
                    proof {
                        lemma_best_upto(pats, c_i, pats.len());
                        assert(matches_at(pats, c_i, p as int));
                    }
                    if lit.len() > 0 {
                        let run = lit;
                        lit = Vec::new();
                        proof {
                            lemma_atoms_push(segs@, Segment::Literal(run));
                        }
                        segs.push(Segment::Literal(run));
                    }
                    proof {
                        assert(atoms(segs@) + atoms_of_lits(lit@) =~= atoms(segs_a)
                            + atoms_of_lits(lit_a));
                    }
                    let ghost segs_b = segs@;
                    proof {
                        lemma_atoms_push(segs@, Segment::Match(p));
                    }
                    segs.push(Segment::Match(p));
                    let len_p = table.pattern(p).len();
                    i = i + len_p;
                    proof {
                        let em_new = atoms(segs@) + atoms_of_lits(lit@);
                        assert(em_new =~= (atoms(segs_a) + atoms_of_lits(lit_a)) + seq![
                            Token::Mat(p as int),
                        ]);
                        assert forall|f: Seq<u8>| #[trigger] tokens(pats, buf0 + f) == em_new
                            + tokens(pats, buf@.skip(i as int) + f) by {
                            assert(tokens(pats, buf0 + f) == (atoms(segs_a) + atoms_of_lits(lit_a))
                                + tokens(pats, c_i + f));
                            lemma_step_match(pats, c_i, f, p as int);
                            assert(c_i.skip(pats[p as int].len() as int) =~= buf@.skip(i as int));
                            assert((atoms(segs_a) + atoms_of_lits(lit_a)) + (seq![
                                Token::Mat(p as int),
                            ] + tokens(pats, buf@.skip(i as int) + f)) =~= em_new + tokens(
                                pats,
                                buf@.skip(i as int) + f,
                            ));
                        }
                    }
                },
                None => {
                    if live_prefix_here(table, &buf, i) {
                        break ;
                    }
                    proof {
                        assert(atoms_of_lits(lit@.push(buf@[i as int])) =~= atoms_of_lits(lit@)
                            + seq![Token::Lit(buf@[i as int])]);
                    }
                    lit.push(buf[i]);
                    i = i + 1;
                    proof {
                        let em_new = atoms(segs@) + atoms_of_lits(lit@);
                        assert(em_new =~= (atoms(segs_a) + atoms_of_lits(lit_a)) + seq![
                            Token::Lit(c_i[0]),
                        ]);
                        assert forall|f: Seq<u8>| #[trigger] tokens(pats, buf0 + f) == em_new
                            + tokens(pats, buf@.skip(i as int) + f) by {
                            assert(tokens(pats, buf0 + f) == (atoms(segs_a) + atoms_of_lits(lit_a))
                                + tokens(pats, c_i + f));
                            lemma_step_lit(pats, c_i, f);
                            assert(c_i.skip(1) =~= buf@.skip(i as int));
                            assert((atoms(segs_a) + atoms_of_lits(lit_a)) + (seq![
                                Token::Lit(c_i[0]),
                            ] + tokens(pats, buf@.skip(i as int) + f)) =~= em_new + tokens(
                                pats,
                                buf@.skip(i as int) + f,
                            ));
                        }
                    }
                },
            }
        }
        let ghost segs_c = segs@;
        let ghost lit_c = lit@;
        if lit.len() > 0 {
            let run = lit;
            proof {
                lemma_atoms_push(segs@, Segment::Literal(run));
            }
            segs.push(Segment::Literal(run));
        }
        proof {
            assert(atoms(segs@) =~= atoms(segs_c) + atoms_of_lits(lit_c));
        }
        let mut rest: Vec<u8> = Vec::new();
        let mut j = i;
        while j < n
            invariant
                i <= j <= n,
                n == buf@.len(),
                buf@ == buf0,
                rest@ == buf@.subrange(i as int, j as int),
            decreases n - j,
        {
            proof {
                assert(buf@.subrange(i as int, j as int) + seq![buf@[j as int]] =~= buf@.subrange(
                    i as int,
                    j + 1,
                ));
            }
            rest.push(buf[j]);
            j = j + 1;
        }
        proof {
            assert(buf@.subrange(i as int, n as int) =~= buf@.skip(i as int));
        }
        self.carry = rest;
        self.fed = Ghost(fed0 + block@);
        self.emitted = Ghost(em0 + atoms(segs@));
        proof {
            let carry1 = buf0.skip(i as int);
            let em_l = atoms(segs@);
            assert forall|f: Seq<u8>| #[trigger] tokens(pats, (fed0 + block@) + f) == (em0 + em_l)
                + tokens(pats, carry1 + f) by {
                assert((fed0 + block@) + f =~= fed0 + (block@ + f));
                assert(tokens(pats, fed0 + (block@ + f)) == em0 + tokens(
                    pats,
                    carry0 + (block@ + f),
                ));
                assert(carry0 + (block@ + f) =~= buf0 + f);
                assert(tokens(pats, buf0 + f) == (atoms(segs_c) + atoms_of_lits(lit_c)) + tokens(
                    pats,
                    carry1 + f,
                ));
                assert(em0 + (em_l + tokens(pats, carry1 + f)) =~= (em0 + em_l) + tokens(
                    pats,
                    carry1 + f,
                ));
            }
        }
        segs
    }

    /// Ends the stream: whatever is still in the carry can no longer grow
    /// into a match, so it is classified now and flushed. After this call
    /// the tokens of everything ever returned are exactly the scan of all
    /// bytes fed, and the scanner is reset to its initial state.
    pub fn finish(&mut self, table: &PatternTable) -> (segs: Vec<Segment>)
        requires
            old(self).wf(*table),
            table.wf(),
        ensures
            final(self).wf(*table),
            final(self).fed_bytes() == Seq::<u8>::empty(),
            final(self).emitted_tokens() == Seq::<Token>::empty(),
            old(self).emitted_tokens() + atoms(segs@) == tokens(
                table.pats(),
                old(self).fed_bytes(),
            ),
            forall|k: int| 0 <= k < segs@.len() ==> segs@[k].valid(*table),
    {
        let ghost pats = table.pats();
        let ghost fed0 = self.fed@;
        let ghost em0 = self.emitted@;
        let ghost carry0 = self.carry@;

        proof {
            table.lemma_wf();
        }
        let mut buf: Vec<u8> = Vec::new();
        buf.append(&mut self.carry);
        proof {
            assert(fed0 + Seq::<u8>::empty() =~= fed0);
            assert(tokens(pats, fed0 + Seq::<u8>::empty()) == em0 + tokens(
                pats,
                carry0 + Seq::<u8>::empty(),
            ));
            assert(carry0 + Seq::<u8>::empty() =~= carry0);
        }
        let mut segs: Vec<Segment> = Vec::new();
        let mut lit: Vec<u8> = Vec::new();
        let mut i: usize = 0;
        let n = buf.len();
        proof {
            assert(buf@ =~= carry0);
            assert(buf@.skip(0) =~= carry0);
            assert(em0 + (atoms(segs@) + atoms_of_lits(lit@)) + tokens(pats, buf@.skip(0)) =~= em0
                + tokens(pats, carry0));
        }
        while i < n
            invariant
                n == buf@.len(),
                i <= n,
                buf@ == carry0,
                table.wf(),
                pats == table.pats(),
                wf_pats(pats),
                em0 + (atoms(segs@) + atoms_of_lits(lit@)) + tokens(pats, buf@.skip(i as int))
                    == tokens(pats, fed0),
                forall|k: int| 0 <= k < segs@.len() ==> segs@[k].valid(*table),
            decreases n - i,
        {
            let ghost segs_a = segs@;
            let ghost lit_a = lit@;
            let ghost c_i = buf@.skip(i as int);
            match best_full_match(table, &buf, i) {
                Some(p) => {
                    proof {
                        lemma_best_upto(pats, c_i, pats.len());
                        assert(matches_at(pats, c_i, p as int));
                    }
                    if lit.len() > 0 {
                        let run = lit;
                        lit = Vec::new();
                        proof {
                            lemma_atoms_push(segs@, Segment::Literal(run));
                        }
                        segs.push(Segment::Literal(run));
                    }
                    proof {
                        assert(atoms(segs@) + atoms_of_lits(lit@) =~= atoms(segs_a)
                            + atoms_of_lits(lit_a));
                    }
                    proof {
                        lemma_atoms_push(segs@, Segment::Match(p));
                    }
                    segs.push(Segment::Match(p));
                    let len_p = table.pattern(p).len();
                    i = i + len_p;
                    proof {
                        assert(tokens(pats, c_i) == seq![Token::Mat(p as int)] + tokens(
                            pats,
                            c_i.skip(pats[p as int].len() as int),
                        ));
                        assert(c_i.skip(pats[p as int].len() as int) =~= buf@.skip(i as int));
                        assert(em0 + (atoms(segs@) + atoms_of_lits(lit@)) + tokens(
                            pats,
                            buf@.skip(i as int),
                        ) =~= em0 + (atoms(segs_a) + atoms_of_lits(lit_a)) + (seq![
                            Token::Mat(p as int),
                        ] + tokens(pats, buf@.skip(i as int))));
                    }
                },
                None => {
                    proof {
                        assert(atoms_of_lits(lit@.push(buf@[i as int])) =~= atoms_of_lits(lit@)
                            + seq![Token::Lit(buf@[i as int])]);
                    }
                    lit.push(buf[i]);
                    i = i + 1;
                    proof {
                        assert(tokens(pats, c_i) == seq![Token::Lit(c_i[0])] + tokens(
                            pats,
                            c_i.skip(1),
                        ));
                        assert(c_i.skip(1) =~= buf@.skip(i as int));
                        assert(em0 + (atoms(segs@) + atoms_of_lits(lit@)) + tokens(
                            pats,
                            buf@.skip(i as int),
                        ) =~= em0 + (atoms(segs_a) + atoms_of_lits(lit_a)) + (seq![
                            Token::Lit(c_i[0]),
                        ] + tokens(pats, buf@.skip(i as int))));
                    }
                },
            }
        }
        let ghost segs_c = segs@;
        let ghost lit_c = lit@;
        if lit.len() > 0 {
            let run = lit;
            proof {
                lemma_atoms_push(segs@, Segment::Literal(run));
            }
            segs.push(Segment::Literal(run));
        }
        proof {
            assert(atoms(segs@) =~= atoms(segs_c) + atoms_of_lits(lit_c));
            assert(buf@.skip(n as int) =~= Seq::<u8>::empty());
            assert(tokens(pats, Seq::<u8>::empty()) == Seq::<Token>::empty());
            assert(em0 + (atoms(segs_c) + atoms_of_lits(lit_c)) + Seq::<Token>::empty() =~= em0
                + atoms(segs@));
        }
        self.fed = Ghost(Seq::empty());
        self.emitted = Ghost(Seq::empty());
        proof {
            assert(self.carry@ =~= Seq::<u8>::empty());
            assert forall|f: Seq<u8>| #[trigger] tokens(pats, Seq::<u8>::empty() + f) == Seq::<
                Token,
            >::empty() + tokens(pats, Seq::<u8>::empty() + f) by {
                assert(Seq::<Token>::empty() + tokens(pats, Seq::<u8>::empty() + f) =~= tokens(
                    pats,
                    Seq::<u8>::empty() + f,
                ));
            }
        }
        segs
    }
}

/// Concatenating segment sequences concatenates their atoms.
pub proof fn lemma_atoms_concat(a: Seq<Segment>, b: Seq<Segment>)
    ensures
        atoms(a + b) == atoms(a) + atoms(b),
    decreases a.len(),
{
    if a.len() == 0 {
        assert(a + b =~= b);
        assert(atoms(a) + atoms(b) =~= atoms(b));
    } else {
        lemma_atoms_concat(a.skip(1), b);
        assert((a + b).skip(1) =~= a.skip(1) + b);
        assert((a + b)[0] == a[0]);
        assert(a[0].atoms() + (atoms(a.skip(1)) + atoms(b)) =~= (a[0].atoms() + atoms(a.skip(1)))
            + atoms(b));
    }
}

/// Scans a whole input in blocks of the given size and returns the full
/// segment sequence. The tokens of the result are the canonical scan of
/// the input: they do not depend on the block size.
pub fn scan_all(table: &PatternTable, input: &Vec<u8>, block_size: usize) -> (segs: Vec<Segment>)
    requires
        table.wf(),
        block_size >= 1,
    ensures
        atoms(segs@) == tokens(table.pats(), input@),
        forall|k: int| 0 <= k < segs@.len() ==> segs@[k].valid(*table),
{
    let ghost pats = table.pats();
    let mut sc = Scanner::new(table);
    let mut segs: Vec<Segment> = Vec::new();
    let mut pos: usize = 0;
    let n = input.len();
    proof {
        assert(input@.take(0) =~= Seq::<u8>::empty());
        assert(atoms(segs@) =~= Seq::<Token>::empty());
    }
    while pos < n
        invariant
            n == input@.len(),
            pos <= n,
            table.wf(),
            pats == table.pats(),
            block_size >= 1,
            sc.wf(*table),
            sc.fed_bytes() == input@.take(pos as int),
            atoms(segs@) == sc.emitted_tokens(),
            forall|k: int| 0 <= k < segs@.len() ==> segs@[k].valid(*table),
        decreases n - pos,
    {
        let step = if n - pos < block_size {
            n - pos
        } else {
            block_size
        };
        let end = pos + step;
        let mut block: Vec<u8> = Vec::new();
        let mut j = pos;
        while j < end
            invariant
                pos <= j <= end,
                end <= n,
                n == input@.len(),
                block@ == input@.subrange(pos as int, j as int),
            decreases end - j,
        {
            proof {
                assert(input@.subrange(pos as int, j as int) + seq![input@[j as int]]
                    =~= input@.subrange(pos as int, j + 1));
            }
            block.push(input[j]);
            j = j + 1;
        }
        let mut out = sc.feed(table, &block);
        proof {
            lemma_atoms_concat(segs@, out@);
            assert(input@.take(pos as int) + input@.subrange(pos as int, end as int)
                =~= input@.take(end as int));
        }
        segs.append(&mut out);
        pos = end;
    }
    let mut tail = sc.finish(table);
    proof {
        lemma_atoms_concat(segs@, tail@);
        assert(input@.take(n as int) =~= input@);
    }
    segs.append(&mut tail);
    segs
}

/// The substitution driver: writes, for every literal segment, its raw
/// bytes unchanged, and for every match segment the configured replacement,
/// in the exact emission order of the scanner.
pub fn substitute(table: &PatternTable, segs: &Vec<Segment>) -> (out: Vec<u8>)
    requires
        table.wf(),
        forall|k: int| 0 <= k < segs@.len() ==> segs@[k].valid(*table),
    ensures
        out@ == tokens_out(table.reps(), atoms(segs@)),
{
    let ghost reps = table.reps();
    let mut out: Vec<u8> = Vec::new();
    let n = segs.len();
    proof {
        table.lemma_wf();
        assert(segs@.take(0) =~= Seq::<Segment>::empty());
        assert(out@ =~= tokens_out(reps, atoms(segs@.take(0))));
    }
    for k in 0..n
        invariant
            n == segs@.len(),
            table.wf(),
            reps == table.reps(),
            forall|t: int| 0 <= t < segs@.len() ==> segs@[t].valid(*table),
            out@ == tokens_out(reps, atoms(segs@.take(k as int))),
    {
        let ghost out_a = out@;
        match &segs[k] {
            Segment::Literal(v) => {
                let m = v.len();
                for j in 0..m
                    invariant
                        m == v@.len(),
                        out@ == out_a + v@.take(j as int),
                {
                    proof {
                        assert(out_a + v@.take(j as int) + seq![v@[j as int]] =~= out_a + v@.take(
                            j + 1,
                        ));
                    }
                    out.push(v[j]);
                }
                proof {
                    assert(v@.take(m as int) =~= v@);
                    lemma_atoms_lits_out(reps, v@);
                }
            },
            Segment::Match(p) => {
                let r = table.replacement(*p);
                let m = r.len();
                for j in 0..m
                    invariant
                        m == r@.len(),
                        out@ == out_a + r@.take(j as int),
                {
                    proof {
                        assert(out_a + r@.take(j as int) + seq![r@[j as int]] =~= out_a + r@.take(
                            j + 1,
                        ));
                    }
                    out.push(r[j]);
                }
                proof {
                    assert(r@.take(m as int) =~= r@);
                    lemma_out_single(reps, Token::Mat(segs@[k as int]->Match_0 as int));
                }
            },
        }
        proof {
            table.lemma_wf();
            assert(segs@.take(k + 1) =~= segs@.take(k as int).push(segs@[k as int]));
            lemma_atoms_push(segs@.take(k as int), segs@[k as int]);
            lemma_out_concat(reps, atoms(segs@.take(k as int)), segs@[k as int].atoms());
            assert(atoms(segs@.take(k + 1)) == atoms(segs@.take(k as int)) + segs@[
            k as int].atoms());
        }
    }
    proof {
        assert(segs@.take(n as int) =~= segs@);
    }
    out
}

/// Reassembles the original input from a segment sequence: literal bytes
/// unchanged, and for every match segment the matched pattern itself.
pub fn reconstruct(table: &PatternTable, segs: &Vec<Segment>) -> (out: Vec<u8>)
    requires
        table.wf(),
        forall|k: int| 0 <= k < segs@.len() ==> segs@[k].valid(*table),
    ensures
        out@ == tokens_src(table.pats(), atoms(segs@)),
{
    let ghost pats = table.pats();
    let mut out: Vec<u8> = Vec::new();
    let n = segs.len();
    proof {
        table.lemma_wf();
        assert(segs@.take(0) =~= Seq::<Segment>::empty());
        assert(out@ =~= tokens_src(pats, atoms(segs@.take(0))));
    }
    for k in 0..n
        invariant
            n == segs@.len(),
            table.wf(),
            pats == table.pats(),
            forall|t: int| 0 <= t < segs@.len() ==> segs@[t].valid(*table),
            out@ == tokens_src(pats, atoms(segs@.take(k as int))),
    {
        let ghost out_a = out@;
        match &segs[k] {
            Segment::Literal(v) => {
                let m = v.len();
                for j in 0..m
                    invariant
                        m == v@.len(),
                        out@ == out_a + v@.take(j as int),
                {
                    proof {
                        assert(out_a + v@.take(j as int) + seq![v@[j as int]] =~= out_a + v@.take(
                            j + 1,
                        ));
                    }
                    out.push(v[j]);
                }
                proof {
                    assert(v@.take(m as int) =~= v@);
                    lemma_atoms_lits_src(pats, v@);
                }
            },
            Segment::Match(p) => {
                let r = table.pattern(*p);
                let m = r.len();
                for j in 0..m
                    invariant
                        m == r@.len(),
                        out@ == out_a + r@.take(j as int),
                {
                    proof {
                        assert(out_a + r@.take(j as int) + seq![r@[j as int]] =~= out_a + r@.take(
                            j + 1,
                        ));
                    }
                    out.push(r[j]);
                }
                proof {
                    assert(r@.take(m as int) =~= r@);
                    lemma_src_single(pats, Token::Mat(segs@[k as int]->Match_0 as int));
                }
            },
        }
        proof {
            table.lemma_wf();
            assert(segs@.take(k + 1) =~= segs@.take(k as int).push(segs@[k as int]));
            lemma_atoms_push(segs@.take(k as int), segs@[k as int]);
            lemma_src_concat(pats, atoms(segs@.take(k as int)), segs@[k as int].atoms());
            assert(atoms(segs@.take(k + 1)) == atoms(segs@.take(k as int)) + segs@[
            k as int].atoms());
        }
    }
    proof {
        assert(segs@.take(n as int) =~= segs@);
    }
    out
}

/// Lossless partition: the segments a scan emits reassemble the input
/// exactly — concatenating the literal bytes and each match's original
/// pattern bytes, in emission order, is the input.
pub proof fn lemma_scan_lossless(table: PatternTable, segs: Seq<Segment>, input: Seq<u8>)
    requires
        table.wf(),
        atoms(segs) == tokens(table.pats(), input),
    ensures
        tokens_src(table.pats(), atoms(segs)) == input,
{
    table.lemma_wf();
    crate::scan::lemma_lossless(table.pats(), input);
}

/// Performs substitution on a whole input, scanning it in blocks of the
/// given size: the output is the input with every pattern occurrence
/// replaced by its configured replacement. The result depends only on the
/// table and the input bytes — not on the block size, and not on anything
/// else — so repeated runs produce byte-identical output.
pub fn convert(table: &PatternTable, input: &Vec<u8>, block_size: usize) -> (out: Vec<u8>)
    requires
        table.wf(),
        block_size >= 1,
    ensures
        out@ == converted(table.pats(), table.reps(), input@),
{
    let segs = scan_all(table, input, block_size);
    substitute(table, &segs)
}

} // verus!
