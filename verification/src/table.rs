//! The pattern table: the validated mapping from a search pattern to its
//! replacement text, built once from configuration and immutable thereafter.
//!
//! Each configured bare token is prefixed with the escape marker to form the
//! search pattern actually looked for in the stream. No two entries may
//! collide once prefixed; a collision is a configuration-author error.

use vstd::prelude::*;
use vstd::string::StringExecFns;

use crate::error::{usage, UniError, CODE_USAGE_INVALID_CONFIG_FILE};
use crate::scan::wf_pats;

verus! {

/// The byte-string keys of a list of token/replacement entries.
pub open spec fn entry_keys(entries: Seq<(Vec<u8>, Vec<u8>)>) -> Seq<Seq<u8>> {
    entries.map_values(|e: (Vec<u8>, Vec<u8>)| e.0@)
}

/// No two of the sequences are equal.
pub open spec fn pairwise_distinct(keys: Seq<Seq<u8>>) -> bool {
    forall|i: int, j: int| 0 <= i < j < keys.len() ==> keys[i] != keys[j]
}

/// The mapping from search pattern to replacement, by a shared index:
/// pattern `p` of the table is replaced by replacement `p`.
pub struct PatternTable {
    patterns: Vec<Vec<u8>>,
    replacements: Vec<Vec<u8>>,
}

impl PatternTable {
    /// The search patterns, in declaration order.
    pub closed spec fn pats(self) -> Seq<Seq<u8>> {
        self.patterns@.map_values(|v: Vec<u8>| v@)
    }

    /// The replacements, in the same order as the patterns.
    pub closed spec fn reps(self) -> Seq<Seq<u8>> {
        self.replacements@.map_values(|v: Vec<u8>| v@)
    }

    /// Each pattern has a replacement; every pattern is non-empty; no two
    /// patterns are equal.
    pub closed spec fn wf(self) -> bool {
        &&& self.patterns@.len() == self.replacements@.len()
        &&& wf_pats(self.pats())
        &&& pairwise_distinct(self.pats())
    }

    /// The consequences of well-formedness, for callers of the scan lemmas.
    pub proof fn lemma_wf(self)
        requires
            self.wf(),
        ensures
            wf_pats(self.pats()),
            pairwise_distinct(self.pats()),
            self.pats().len() == self.reps().len(),
    {
    }

    /// The number of configured patterns.
    pub fn len(&self) -> (n: usize)
        ensures
            n == self.pats().len(),
    {
        self.patterns.len()
    }

    /// The search pattern at the given index.
    pub fn pattern(&self, p: usize) -> (r: &Vec<u8>)
        requires
            p < self.pats().len(),
        ensures
            r@ == self.pats()[p as int],
    {
        &self.patterns[p]
    }

    /// The replacement for the pattern at the given index.
    pub fn replacement(&self, p: usize) -> (r: &Vec<u8>)
        requires
            self.wf(),
            p < self.pats().len(),
        ensures
            r@ == self.reps()[p as int],
    {
        &self.replacements[p]
    }

    /// Builds the table from bare token/replacement entries: every token is
    /// prefixed with the escape marker, and entries whose tokens collide are
    /// rejected as a usage error. Order of entries is otherwise irrelevant
    /// to scanning, which resolves ties by length before declaration order.
    pub fn new(entries: &Vec<(Vec<u8>, Vec<u8>)>, marker: u8) -> (r: Result<
        PatternTable,
        UniError,
    >)
        ensures
            r is Ok <==> pairwise_distinct(entry_keys(entries@)),
            r matches Ok(t) ==> {
                &&& t.wf()
                &&& t.pats().len() == entries@.len()
                &&& t.reps().len() == entries@.len()
                &&& forall|i: int|
                    0 <= i < entries@.len() ==> t.pats()[i] == seq![marker] + entries@[i].0@
                &&& forall|i: int| 0 <= i < entries@.len() ==> t.reps()[i] == entries@[i].1@
            },
            r matches Err(e) ==> e.wf() && e.major() == 0 && e.minor()
                == CODE_USAGE_INVALID_CONFIG_FILE,
    {
        let mut patterns: Vec<Vec<u8>> = Vec::new();
        let mut replacements: Vec<Vec<u8>> = Vec::new();
        let n = entries.len();
        for k in 0..n
            invariant
                n == entries@.len(),
                patterns@.len() == k,
                replacements@.len() == k,
                forall|i: int| 0 <= i < k ==> patterns@[i]@ == seq![marker] + entries@[i].0@,
                forall|i: int| 0 <= i < k ==> replacements@[i]@ == entries@[i].1@,
        {
            let mut pat: Vec<u8> = Vec::new();
            pat.push(marker);
            let key = &entries[k].0;
            let m = key.len();
            for j in 0..m
                invariant
                    m == key@.len(),
                    pat@ == seq![marker] + key@.take(j as int),
            {
                pat.push(key[j]);
                proof {
                    assert(seq![marker] + key@.take(j as int) + seq![key@[j as int]] =~= seq![
                        marker,
                    ] + key@.take(j + 1));
                }
            }
            proof {
                assert(key@.take(m as int) =~= key@);
            }
            patterns.push(pat);
            replacements.push(entries[k].1.clone());
        }
        // Reject entries whose search patterns collide.
        let mut a: usize = 0;
        while a < n
            invariant
                n == entries@.len(),
                patterns@.len() == n,
                forall|i: int| 0 <= i < n ==> patterns@[i]@ == seq![marker] + entries@[i].0@,
                forall|i: int, j: int| 0 <= i < j < n && i < a ==> patterns@[i]@ != patterns@[j]@,
            decreases n - a,
        {
            let mut b: usize = a + 1;
            while b < n
                invariant
                    n == entries@.len(),
                    a < n,
                    a < b,
                    patterns@.len() == n,
                    forall|i: int| 0 <= i < n ==> patterns@[i]@ == seq![marker] + entries@[i].0@,
                    forall|j: int| a < j < b ==> patterns@[a as int]@ != patterns@[j]@,
                decreases n - b,
            {
                if bytes_eq(&patterns[a], &patterns[b]) {
                    proof {
                        assert(entry_keys(entries@)[a as int] == entries@[a as int].0@);
                        assert(entry_keys(entries@)[b as int] == entries@[b as int].0@);
                        assert((seq![marker] + entries@[a as int].0@).skip(1) =~= entries@[
                        a as int].0@);
                        assert((seq![marker] + entries@[b as int].0@).skip(1) =~= entries@[
                        b as int].0@);
                    }
                    return Err(
                        usage(
                            String::from_str("duplicate search pattern after escape prefixing"),
                        ).with_minor(CODE_USAGE_INVALID_CONFIG_FILE),
                    );
                }
                b = b + 1;
            }
            a = a + 1;
        }
        let t = PatternTable { patterns, replacements };
        proof {
            assert forall|i: int, j: int| 0 <= i < j < entry_keys(entries@).len() implies
                entry_keys(entries@)[i] != entry_keys(entries@)[j] by {
                assert(t.pats()[i] != t.pats()[j]);
                assert(t.pats()[i] == seq![marker] + entries@[i].0@);
                assert(t.pats()[j] == seq![marker] + entries@[j].0@);
                if entries@[i].0@ == entries@[j].0@ {
                    assert(seq![marker] + entries@[i].0@ =~= seq![marker] + entries@[j].0@);
                }
            }
            assert forall|p: int| 0 <= p < t.pats().len() implies t.pats()[p].len() >= 1 by {
                assert(t.pats()[p] == seq![marker] + entries@[p].0@);
            }
        }
        Ok(t)
    }
}

/// Byte-for-byte equality of two byte vectors.
pub fn bytes_eq(x: &Vec<u8>, y: &Vec<u8>) -> (r: bool)
    ensures
        r == (x@ == y@),
{
    if x.len() != y.len() {
        return false;
    }
    let n = x.len();
    for i in 0..n
        invariant
            n == x@.len(),
            n == y@.len(),
            forall|j: int| 0 <= j < i ==> x@[j] == y@[j],
    {
        if x[i] != y[i] {
            return false;
        }
    }
    proof {
        assert(x@ =~= y@);
    }
    true
}

} // verus!
