//! Name-to-weight tables and weighted random selection over them.
use crate::error::PraedaError;
use crate::random::random_below;
use crate::keymap::{
    has_entry, keys_sorted, lemma_map_of, lemma_map_update, lemma_sorted_unique, map_of,
};
use crate::text::{lemma_lex_irreflexive, lemma_lex_transitive, lemma_str_total, str_less, str_lt};
use vstd::prelude::*;

verus! {

/// Sum of the weights of the first `n` entries.
pub open spec fn prefix_sum(s: Seq<(Seq<char>, i32)>, n: int) -> int
    decreases n,
{
    if n <= 0 {
        0
    } else {
        prefix_sum(s, n - 1) + s[n - 1].1
    }
}

/// Sum of all weights.
pub open spec fn total_weight(s: Seq<(Seq<char>, i32)>) -> int {
    prefix_sum(s, s.len() as int)
}

/// A draw of `roll` lands on entry `i`: walking the entries in order and
/// subtracting each weight from the draw, entry `i` is the first at which the
/// running value goes negative.
pub open spec fn lands_on(s: Seq<(Seq<char>, i32)>, roll: int, i: int) -> bool {
    &&& 0 <= i < s.len()
    &&& roll < prefix_sum(s, i + 1)
    &&& forall|j: int| 0 <= j < i ==> #[trigger] prefix_sum(s, j + 1) <= roll
}

proof fn lemma_prefix_bound(s: Seq<(Seq<char>, i32)>, n: int)
    requires
        0 <= n <= s.len(),
    ensures
        -2147483648 * n <= prefix_sum(s, n) <= 2147483647 * n,
    decreases n,
{
    if n > 0 {
        lemma_prefix_bound(s, n - 1);
    }
}

/// Sums of non-negative weights grow with the number of entries summed.
proof fn lemma_prefix_monotone(s: Seq<(Seq<char>, i32)>, a: int, b: int)
    requires
        forall|j: int| 0 <= j < s.len() ==> #[trigger] s[j].1 >= 0,
        0 <= a <= b <= s.len(),
    ensures
        prefix_sum(s, a) <= prefix_sum(s, b),
    decreases b - a,
{
    if a < b {
        lemma_prefix_monotone(s, a, b - 1);
    }
}

/// With non-negative weights, a draw in [0, total) lands on entry `i`
/// exactly when it lies in [prefix_sum(i), prefix_sum(i + 1)), a range of
/// `weight(i)` draws: uniform draws pick each entry in proportion to its
/// weight.
pub proof fn lemma_selection_proportional(s: Seq<(Seq<char>, i32)>, roll: int, i: int)
    requires
        forall|j: int| 0 <= j < s.len() ==> #[trigger] s[j].1 >= 0,
        0 <= i < s.len(),
        0 <= roll,
    ensures
        lands_on(s, roll, i) <==> prefix_sum(s, i) <= roll < prefix_sum(s, i + 1),
        prefix_sum(s, i + 1) - prefix_sum(s, i) == s[i].1,
{
    if prefix_sum(s, i) <= roll < prefix_sum(s, i + 1) {
        assert forall|j: int| 0 <= j < i implies #[trigger] prefix_sum(s, j + 1) <= roll by {
            lemma_prefix_monotone(s, j + 1, i);
        }
    }
    if lands_on(s, roll, i) && i > 0 {
        assert(prefix_sum(s, (i - 1) + 1) <= roll);
    }
}

/// Non-negative weights with one of them positive sum to a positive total.
pub proof fn lemma_positive_total(s: Seq<(Seq<char>, i32)>, j: int)
    requires
        forall|i: int| 0 <= i < s.len() ==> #[trigger] s[i].1 >= 0,
        0 <= j < s.len(),
        s[j].1 > 0,
    ensures
        total_weight(s) > 0,
{
    lemma_prefix_monotone(s, 0, j);
    lemma_prefix_monotone(s, j + 1, s.len() as int);
}

/// Weights that are all at most zero sum to at most zero.
pub proof fn lemma_nonpositive_total(s: Seq<(Seq<char>, i32)>, n: int)
    requires
        forall|i: int| 0 <= i < s.len() ==> #[trigger] s[i].1 <= 0,
        0 <= n <= s.len(),
    ensures
        prefix_sum(s, n) <= 0,
    decreases n,
{
    if n > 0 {
        lemma_nonpositive_total(s, n - 1);
    }
}

/// The entry a draw lands on has positive weight.
pub proof fn lemma_landed_entry_positive(s: Seq<(Seq<char>, i32)>, roll: int, i: int)
    requires
        0 <= roll,
        lands_on(s, roll, i),
    ensures
        s[i].1 > 0,
{
    assert(prefix_sum(s, i + 1) == prefix_sum(s, i) + s[i].1);
    if i > 0 {
        assert(prefix_sum(s, (i - 1) + 1) <= roll);
    } else {
        assert(prefix_sum(s, 0) == 0);
    }
}

/// A single entry of positive weight, all others weighing nothing: every draw
/// in range lands on that entry.
pub proof fn lemma_single_candidate(s: Seq<(Seq<char>, i32)>, k: int, roll: int)
    requires
        0 <= k < s.len(),
        s[k].1 > 0,
        forall|j: int| 0 <= j < s.len() && j != k ==> #[trigger] s[j].1 == 0,
        0 <= roll < total_weight(s),
    ensures
        total_weight(s) == s[k].1,
        lands_on(s, roll, k),
{
    assert forall|n: int| 0 <= n <= s.len() implies #[trigger] prefix_sum(s, n) == (if n <= k {
        0
    } else {
        s[k].1 as int
    }) by {
        lemma_prefix_steps(s, k, n);
    }
    assert(prefix_sum(s, s.len() as int) == s[k].1);
    assert forall|j: int| 0 <= j < k implies #[trigger] prefix_sum(s, j + 1) <= roll by {
        assert(prefix_sum(s, j + 1) == 0);
    }
    assert(prefix_sum(s, k + 1) == s[k].1);
}

proof fn lemma_prefix_steps(s: Seq<(Seq<char>, i32)>, k: int, n: int)
    requires
        0 <= k < s.len(),
        forall|j: int| 0 <= j < s.len() && j != k ==> #[trigger] s[j].1 == 0,
        0 <= n <= s.len(),
    ensures
        prefix_sum(s, n) == (if n <= k {
            0
        } else {
            s[k].1 as int
        }),
    decreases n,
{
    if n > 0 {
        lemma_prefix_steps(s, k, n - 1);
    }
}

/// Selection weights by name, held in lexicographic order of the names so
/// that a given draw always picks the same name.
#[derive(Debug, Clone, PartialEq)]
pub struct WeightTable {
    entries: Vec<(String, i32)>,
}

impl View for WeightTable {
    type V = Seq<(Seq<char>, i32)>;

    closed spec fn view(&self) -> Seq<(Seq<char>, i32)> {
        self.entries@.map_values(|e: (String, i32)| (e.0@, e.1))
    }
}

impl WeightTable {
    /// Entries stay in strictly increasing order of name.
    pub open spec fn wf(&self) -> bool {
        keys_sorted(self@)
    }

    /// The table as a map from name to weight.
    pub open spec fn weights(&self) -> Map<Seq<char>, i32> {
        map_of(self@)
    }

    pub fn new() -> (r: Self)
        ensures
            r.wf(),
            r@ == Seq::<(Seq<char>, i32)>::empty(),
    {
        let r = WeightTable { entries: Vec::new() };
        assert(r@ =~= Seq::<(Seq<char>, i32)>::empty());
        r
    }

    pub fn len(&self) -> (r: usize)
        ensures
            r == self@.len(),
    {
        self.entries.len()
    }

    pub fn is_empty(&self) -> (r: bool)
        ensures
            r == (self@.len() == 0),
    {
        self.entries.len() == 0
    }

    /// Name of the entry at `i`, in lexicographic order.
    pub fn name_at(&self, i: usize) -> (r: &String)
        requires
            i < self@.len(),
        ensures
            r@ == self@[i as int].0,
    {
        &self.entries[i].0
    }

    /// Weight of the entry at `i`, in lexicographic order.
    pub fn weight_at(&self, i: usize) -> (r: i32)
        requires
            i < self@.len(),
        ensures
            r == self@[i as int].1,
    {
        self.entries[i].1
    }

    /// The weight recorded for `name`, if any.
    pub fn get(&self, name: &str) -> (r: Option<i32>)
        requires
            self.wf(),
        ensures
            r == (if self.weights().contains_key(name@) {
                Some(self.weights()[name@])
            } else {
                None
            }),
    {
        proof {
            lemma_sorted_unique(self@);
            lemma_map_of(self@);
        }
        let key = name.to_string();
        let mut i: usize = 0;
        while i < self.entries.len()
            invariant
                key@ == name@,
                i <= self@.len(),
                self.wf(),
                forall|j: int| 0 <= j < i ==> #[trigger] self@[j].0 != name@,
            decreases self@.len() - i,
        {
            assert(self@[i as int] == (self.entries@[i as int].0@, self.entries@[i as int].1));
            if self.entries[i].0 == key {
                proof {
                    lemma_sorted_unique(self@);
                    lemma_map_of(self@);
                }
                assert(map_of(self@).contains_key(self@[i as int].0));
                assert(self@[i as int].0 == name@);
                assert(map_of(self@)[self@[i as int].0] == self@[i as int].1);
                assert(self@[i as int].1 == self.entries@[i as int].1);
                assert(self.weights()[name@] == self.entries@[i as int].1);
                return Some(self.entries[i].1);
            }
            i = i + 1;
        }
        proof {
            lemma_sorted_unique(self@);
            lemma_map_of(self@);
        }
        None
    }

    /// Whether `name` has an entry.
    pub fn contains(&self, name: &str) -> (r: bool)
        requires
            self.wf(),
        ensures
            r == self.weights().contains_key(name@),
    {
        self.get(name).is_some()
    }

    /// Records `weight` for `name`, replacing any weight it had.
    pub fn set(&mut self, name: &str, weight: i32)
        requires
            old(self).wf(),
        ensures
            final(self).wf(),
            final(self).weights() == old(self).weights().insert(name@, weight),
            final(self)@.len() <= old(self)@.len() + 1,
    {
        let key = name.to_string();
        let ghost s = self@;
        let mut i: usize = 0;
        while i < self.entries.len() && str_less(self.entries[i].0.as_str(), name)
            invariant
                self@ == s,
                keys_sorted(s),
                key@ == name@,
                i <= s.len(),
                forall|j: int| 0 <= j < i ==> str_lt(#[trigger] s[j].0, name@),
            decreases s.len() - i,
        {
            i = i + 1;
        }
        assert(i < s.len() ==> s[i as int] == (self.entries@[i as int].0@, self.entries@[i as int].1));
        proof {
            lemma_sorted_unique(s);
            lemma_map_of(s);
        }
        if i < self.entries.len() && self.entries[i].0 == key {
            let ghost t = s.update(i as int, (name@, weight));
            self.entries[i] = (key, weight);
            assert(self@ =~= t);
            proof {
                assert forall|a: int| 0 <= a < t.len() implies #[trigger] t[a].0 == s[a].0 by {}
                assert(keys_sorted(t));
                lemma_sorted_unique(t);
                assert forall|j: int| 0 <= j < t.len() && j != i implies has_entry(s, #[trigger] t[j]) by {
                    assert(s[j] == t[j]);
                }
                assert forall|j: int| 0 <= j < s.len() && s[j].0 != name@ implies has_entry(t, #[trigger] s[j]) by {
                    assert(s[j] == t[j]);
                }
                lemma_map_update(s, t, i as int, name@, weight);
            }
        } else {
            proof {
                if i < s.len() {
                    lemma_str_total(s[i as int].0, name@);
                }
                assert forall|j: int| i <= j < s.len() implies str_lt(name@, #[trigger] s[j].0) by {
                    if j > i {
                        lemma_lex_transitive(
                            crate::text::bytes_of(name@),
                            crate::text::bytes_of(s[i as int].0),
                            crate::text::bytes_of(s[j].0),
                        );
                    }
                }
            }
            let ghost t = s.insert(i as int, (name@, weight));
            self.entries.insert(i, (key, weight));
            assert(self@ =~= t);
            proof {
                assert forall|a: int, b: int| 0 <= a < b < t.len() implies str_lt(#[trigger] t[a].0, #[trigger] t[b].0) by {
                    if b == i {
                    } else if a == i {
                    } else if a < i && b > i {
                        lemma_lex_transitive(
                            crate::text::bytes_of(s[a].0),
                            crate::text::bytes_of(name@),
                            crate::text::bytes_of(s[b - 1].0),
                        );
                    } else if b < i {
                    } else {
                        assert(t[a].0 == s[a - 1].0);
                    }
                }
                lemma_sorted_unique(t);
                lemma_lex_irreflexive(crate::text::bytes_of(name@));
                assert forall|j: int| 0 <= j < t.len() && j != i implies has_entry(s, #[trigger] t[j]) by {
                    if j < i {
                        assert(s[j] == t[j]);
                    } else {
                        assert(s[j - 1] == t[j]);
                    }
                }
                assert forall|j: int| 0 <= j < s.len() && s[j].0 != name@ implies has_entry(t, #[trigger] s[j]) by {
                    if j < i {
                        assert(s[j] == t[j]);
                    } else {
                        assert(s[j] == t[j + 1]);
                    }
                }
                lemma_map_update(s, t, i as int, name@, weight);
            }
        }
    }

    /// Sum of all weights.
    pub fn total(&self) -> (r: i128)
        ensures
            r == total_weight(self@),
    {
        let mut sum: i128 = 0;
        let mut i: usize = 0;
        while i < self.entries.len()
            invariant
                i <= self@.len(),
                sum == prefix_sum(self@, i as int),
            decreases self@.len() - i,
        {
            proof {
                lemma_prefix_bound(self@, i as int + 1);
            }
            sum = sum + self.entries[i].1 as i128;
            i = i + 1;
        }
        sum
    }

    /// Index of the entry that a draw of `roll` lands on.
    pub fn pick(&self, roll: i128) -> (r: usize)
        requires
            0 <= roll < total_weight(self@),
        ensures
            lands_on(self@, roll as int, r as int),
    {
        let mut running: i128 = roll;
        let mut i: usize = 0;
        let n = self.entries.len();
        proof {
            lemma_prefix_bound(self@, self@.len() as int);
        }
        while i < n
            invariant
                n == self@.len(),
                i <= self@.len(),
                roll <= 2147483647 * n,
                0 <= roll < total_weight(self@),
                running == roll - prefix_sum(self@, i as int),
                i > 0 ==> running >= 0,
                forall|j: int| 0 <= j < i ==> #[trigger] prefix_sum(self@, j + 1) <= roll,
            decreases self@.len() - i,
        {
            proof {
                lemma_prefix_bound(self@, i as int + 1);
            }
            running = running - self.entries[i].1 as i128;
            if running < 0 {
                return i;
            }
            i = i + 1;
        }
        proof {
            assert(false);
        }
        0
    }

    /// Picks a name at random, each with probability proportional to its
    /// weight. Fails when the table is empty or its weights do not sum to a
    /// positive total.
    pub fn select(&self) -> (r: Result<String, PraedaError>)
        ensures
            r is Ok <==> total_weight(self@) > 0,
            r is Ok ==> exists|roll: int, i: int|
                0 <= roll < total_weight(self@) && #[trigger] lands_on(self@, roll, i) && self@[i].0
                    == r->Ok_0@,
            r is Err ==> r->Err_0 is InvalidData,
    {
        if self.entries.len() == 0 {
            return Err(PraedaError::InvalidData("No items to select from".to_string()));
        }
        let total = self.total();
        if total <= 0 {
            return Err(PraedaError::InvalidData("Weights must sum to a positive total".to_string()));
        }
        let roll = random_below(total);
        let i = self.pick(roll);
        let r = self.entries[i].0.clone();
        assert(self@[i as int].0 == r@);
        Ok(r)
    }
}

} // verus!
