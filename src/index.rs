//! The learned index: a model trained on (key, position) samples predicts where a key
//! lies; lookups check a window around the prediction and always fall back to binary
//! search, so the model can never make a lookup wrong.
use vstd::prelude::*;
use crate::bytes::{bytes_lt, compare_bytes, copy_bytes, lemma_lt_irreflexive, lemma_lt_total, lemma_lt_transitive};
pub use crate::config::ModelType;
use crate::error::Error;

verus! {

/// Keys strictly ascending.
pub open spec fn ascending(keys: Seq<Vec<u8>>) -> bool {
    forall|i: int, j: int| 0 <= i < j < keys.len() ==> bytes_lt(#[trigger] keys[i]@, #[trigger] keys[j]@)
}

/// The position of the last sample whose key is at most `k`; zero when there is none.
pub open spec fn predicted(keys: Seq<Vec<u8>>, positions: Seq<u64>, k: Seq<u8>) -> u64
    decreases keys.len(),
{
    if keys.len() == 0 || positions.len() < keys.len() {
        0
    } else if !bytes_lt(k, keys.last()@) {
        positions[keys.len() - 1]
    } else {
        predicted(keys.drop_last(), positions, k)
    }
}

/// How many of the first `i` test samples the model predicts exactly.
pub open spec fn exact_hits(keys: Seq<Vec<u8>>, positions: Seq<u64>, tk: Seq<Vec<u8>>, tp: Seq<u64>, i: int) -> nat
    decreases i,
{
    if i <= 0 {
        0
    } else {
        exact_hits(keys, positions, tk, tp, i - 1) + if predicted(keys, positions, tk[i - 1]@) == tp[i - 1] {
            1nat
        } else {
            0nat
        }
    }
}

/// A position-predicting model over the keys of one table.
#[derive(Debug)]
pub struct LearnedIndex {
    model_type: ModelType,
    keys: Vec<Vec<u8>>,
    positions: Vec<u64>,
}

impl LearnedIndex {
    pub closed spec fn spec_keys(&self) -> Seq<Vec<u8>> {
        self.keys@
    }

    pub closed spec fn spec_positions(&self) -> Seq<u64> {
        self.positions@
    }

    /// An untrained model of the given family.
    pub fn new(model_type: ModelType) -> (r: LearnedIndex)
        ensures
            r.spec_keys().len() == 0,
    {
        LearnedIndex { model_type, keys: Vec::new(), positions: Vec::new() }
    }

    /// Trains the model on samples; keys must ascend strictly and match positions one
    /// for one.
    pub fn train(&mut self, keys: &[Vec<u8>], positions: &[u64]) -> (r: Result<(), Error>)
        ensures
            r is Ok <==> keys@.len() == positions@.len() && ascending(keys@),
            r is Ok ==> final(self).spec_positions() == positions@ && final(self).spec_keys().len() == keys@.len()
                && forall|i: int| 0 <= i < keys@.len() ==> (#[trigger] final(self).spec_keys()[i])@ == keys@[i]@,
            r is Err ==> r.unwrap_err() is LearnedIndex,
    {
        if keys.len() != positions.len() {
            return Err(Error::LearnedIndex(String::from_str("keys and positions differ in number")));
        }
        let mut i: usize = 1;
        while i < keys.len()
            invariant
                1 <= i <= keys@.len() || keys@.len() == 0,
                forall|a: int, b: int| 0 <= a < b < i && b < keys@.len() ==> bytes_lt(#[trigger] keys@[a]@, #[trigger] keys@[b]@),
            decreases keys@.len() - i,
        {
            match compare_bytes(keys[i - 1].as_slice(), keys[i].as_slice()) {
                core::cmp::Ordering::Less => {
                    proof {
                        assert forall|a: int, b: int| 0 <= a < b < i + 1 && b < keys@.len() implies bytes_lt(#[trigger] keys@[a]@, #[trigger] keys@[b]@) by {
                            if b == i && a < i - 1 {
                                lemma_lt_transitive(keys@[a]@, keys@[i - 1]@, keys@[b]@);
                            }
                        }
                    }
                },
                _ => {
                    return Err(Error::LearnedIndex(String::from_str("keys are not strictly ascending")));
                },
            }
            i = i + 1;
        }
        let mut ks: Vec<Vec<u8>> = Vec::new();
        let mut ps: Vec<u64> = Vec::new();
        let mut j: usize = 0;
        while j < keys.len()
            invariant
                0 <= j <= keys@.len(),
                keys@.len() == positions@.len(),
                ks@.len() == j,
                ps@ == positions@.take(j as int),
                forall|a: int| 0 <= a < j ==> (#[trigger] ks@[a])@ == keys@[a]@,
            decreases keys@.len() - j,
        {
            ks.push(copy_bytes(keys[j].as_slice()));
            ps.push(positions[j]);
            proof {
                assert(positions@.take(j + 1) =~= positions@.take(j as int).push(positions@[j as int]));
            }
            j = j + 1;
        }
        proof {
            assert(positions@.take(j as int) =~= positions@);
        }
        self.keys = ks;
        self.positions = ps;
        Ok(())
    }

    /// The predicted position of `key`: that of the last sample at most `key`, zero
    /// when there is none or the model is untrained.
    pub fn predict(&self, key: &[u8]) -> (r: Result<u64, Error>)
        ensures
            r is Ok,
            r.unwrap() == predicted(self.spec_keys(), self.spec_positions(), key@),
    {
        let n = self.keys.len();
        if self.positions.len() < n {
            proof {
                assert(predicted(self.keys@, self.positions@, key@) == 0);
            }
            return Ok(0);
        }
        let mut best: u64 = 0;
        let mut i: usize = 0;
        while i < n
            invariant
                n == self.keys@.len(),
                self.positions@.len() >= n,
                0 <= i <= n,
                best == predicted(self.keys@.take(i as int), self.positions@, key@),
            decreases n - i,
        {
            let ghost t = self.keys@.take(i + 1);
            proof {
                assert(t.drop_last() =~= self.keys@.take(i as int));
                assert(t.last() == self.keys@[i as int]);
            }
            match compare_bytes(key, self.keys[i].as_slice()) {
                core::cmp::Ordering::Less => {},
                _ => {
                    best = self.positions[i];
                },
            }
            i = i + 1;
        }
        proof {
            assert(self.keys@.take(n as int) =~= self.keys@);
        }
        Ok(best)
    }

    /// The share of test samples whose position the model predicts exactly, in
    /// thousandths; an error when keys and positions differ in number, and zero for no
    /// samples.
    pub fn validate(&self, test_keys: &[Vec<u8>], test_positions: &[u64]) -> (r: Result<u32, Error>)
        ensures
            r is Ok <==> test_keys@.len() == test_positions@.len(),
            r is Ok ==> r.unwrap() <= 1000,
            r is Ok && test_keys@.len() == 0 ==> r.unwrap() == 0,
            r is Ok && test_keys@.len() > 0 ==> r.unwrap() == exact_hits(self.spec_keys(), self.spec_positions(), test_keys@, test_positions@, test_keys@.len() as int) * 1000 / test_keys@.len(),
            r is Err ==> r.unwrap_err() is LearnedIndex,
    {
        if test_keys.len() != test_positions.len() {
            return Err(Error::LearnedIndex(String::from_str("keys and positions differ in number")));
        }
        let n = test_keys.len();
        if n == 0 {
            return Ok(0);
        }
        let mut hits: usize = 0;
        let mut i: usize = 0;
        while i < n
            invariant
                n == test_keys@.len(),
                n == test_positions@.len(),
                0 <= hits <= i <= n,
                hits == exact_hits(self.spec_keys(), self.spec_positions(), test_keys@, test_positions@, i as int),
            decreases n - i,
        {
            let p = self.predict(test_keys[i].as_slice()).unwrap();
            if p == test_positions[i] {
                hits = hits + 1;
            }
            i = i + 1;
        }
        let num: u128 = hits as u128 * 1000;
        let share: u128 = num / (n as u128);
        assert(share <= 1000) by (nonlinear_arith)
            requires
                num as int == hits as int * 1000,
                share as int == num as int / (n as int),
                hits <= n,
                n > 0,
        ;
        Ok(share as u32)
    }

    /// The model family.
    pub fn model_type(&self) -> (r: ModelType) {
        self.model_type
    }
}

/// Finds `key` among ascending keys: first in the window of `epsilon` around the
/// predicted slot, then, if it is not there, by binary search over all keys.
pub fn lookup(keys: &[Vec<u8>], key: &[u8], predicted_slot: usize, epsilon: usize) -> (r: Option<usize>)
    requires
        ascending(keys@),
    ensures
        r is Some <==> exists|i: int| 0 <= i < keys@.len() && #[trigger] keys@[i]@ == key@,
        r is Some ==> r.unwrap() < keys@.len() && keys@[r.unwrap() as int]@ == key@,
{
    let n = keys.len();
    let lo: usize = if predicted_slot > epsilon { predicted_slot - epsilon } else { 0 };
    let hi: usize = if predicted_slot >= n || n - predicted_slot <= epsilon { n } else { predicted_slot + epsilon + 1 };
    let mut i: usize = lo;
    while i < hi
        invariant
            lo <= i,
            hi <= n,
            n == keys@.len(),
        decreases hi - i,
    {
        match compare_bytes(keys[i].as_slice(), key) {
            core::cmp::Ordering::Equal => {
                return Some(i);
            },
            _ => {},
        }
        i = i + 1;
    }
    let mut a: usize = 0;
    let mut b: usize = n;
    while a < b
        invariant
            0 <= a <= b <= n,
            n == keys@.len(),
            ascending(keys@),
            forall|x: int| 0 <= x < a ==> bytes_lt(#[trigger] keys@[x]@, key@),
            forall|x: int| b <= x < n ==> bytes_lt(key@, #[trigger] keys@[x]@),
        decreases b - a,
    {
        let mid = a + (b - a) / 2;
        match compare_bytes(keys[mid].as_slice(), key) {
            core::cmp::Ordering::Less => {
                proof {
                    assert forall|x: int| 0 <= x < mid + 1 implies bytes_lt(#[trigger] keys@[x]@, key@) by {
                        if x < mid {
                            lemma_lt_transitive(keys@[x]@, keys@[mid as int]@, key@);
                        }
                    }
                }
                a = mid + 1;
            },
            core::cmp::Ordering::Equal => {
                return Some(mid);
            },
            core::cmp::Ordering::Greater => {
                proof {
                    lemma_lt_total(keys@[mid as int]@, key@);
                    assert forall|x: int| mid <= x < n implies bytes_lt(key@, #[trigger] keys@[x]@) by {
                        if x > mid {
                            lemma_lt_transitive(key@, keys@[mid as int]@, keys@[x]@);
                        }
                    }
                }
                b = mid;
            },
        }
    }
    proof {
        if exists|i: int| 0 <= i < keys@.len() && #[trigger] keys@[i]@ == key@ {
            let i = choose|i: int| 0 <= i < keys@.len() && #[trigger] keys@[i]@ == key@;
            lemma_lt_irreflexive(key@);
            if i < a {
                assert(bytes_lt(keys@[i]@, key@));
            } else {
                assert(bytes_lt(key@, keys@[i]@));
            }
        }
    }
    None
}

} // verus!
