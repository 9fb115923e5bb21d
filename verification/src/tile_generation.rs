use crate::named::{as_map, distinct_names, entries, find, has_name, lemma_first_unique, lemma_put, put};
use vstd::prelude::*;

verus! {

/// The values of one parameter that a category accepts, both ends included.
#[derive(Clone, Copy, Debug, PartialEq, Eq)]
pub struct ParameterRange {
    pub min: i64,
    pub max: i64,
}

impl ParameterRange {
    pub fn new(min: i64, max: i64) -> (range: Self)
        ensures
            range == (ParameterRange { min, max }),
    {
        ParameterRange { min, max }
    }

    /// Distance from `value` to the nearer end of the range: negative exactly
    /// where the value lies outside.
    pub open spec fn margin(self, value: int) -> int {
        if value - self.min <= self.max - value {
            value - self.min
        } else {
            self.max - value
        }
    }

    fn margin_of(&self, value: i64) -> (m: i128)
        ensures
            m == self.margin(value as int),
            m <= i64::MAX,
    {
        let low: i128 = value as i128 - self.min as i128;
        let high: i128 = self.max as i128 - value as i128;
        if low <= high {
            low
        } else {
            high
        }
    }
}

/// The rule of one category: a range for each parameter it looks at. No
/// parameter is named twice.
#[derive(Debug)]
pub struct TileGeneration {
    parameter_values: Vec<(String, ParameterRange)>,
}

/// What the first `n` pairs of `given` come to when each is set in turn: a
/// later range for a name replaces the earlier one where that stood.
pub open spec fn collected(given: Seq<(&str, ParameterRange)>, n: nat) -> Seq<
    (Seq<char>, ParameterRange),
>
    decreases n,
{
    if n == 0 {
        Seq::empty()
    } else {
        put(collected(given, (n - 1) as nat), given[n - 1].0@, given[n - 1].1)
    }
}

proof fn lemma_collected_distinct(given: Seq<(&str, ParameterRange)>, n: nat)
    ensures
        distinct_names(collected(given, n)),
    decreases n,
{
    if n > 0 {
        lemma_collected_distinct(given, (n - 1) as nat);
        lemma_put(collected(given, (n - 1) as nat), given[n - 1].0@, given[n - 1].1);
    }
}

impl Clone for TileGeneration {
    fn clone(&self) -> (copy: Self)
        ensures
            copy@ == self@,
    {
        proof {
            use_type_invariant(self);
        }
        let mut list: Vec<(String, ParameterRange)> = Vec::new();
        let mut i: usize = 0;
        while i < self.parameter_values.len()
            invariant
                i <= self.parameter_values@.len(),
                list@ == self.parameter_values@.take(i as int),
            decreases self.parameter_values@.len() - i,
        {
            list.push((self.parameter_values[i].0.clone(), self.parameter_values[i].1));
            assert(list@ =~= self.parameter_values@.take(i + 1));
            i += 1;
        }
        assert(list@ =~= self.parameter_values@);
        TileGeneration { parameter_values: list }
    }
}

impl TileGeneration {
    #[verifier::type_invariant]
    spec fn names_apart(&self) -> bool {
        distinct_names(entries(self.parameter_values@))
    }

    /// The parameters with their ranges, in the order in which they were
    /// first named.
    pub closed spec fn view(&self) -> Seq<(Seq<char>, ParameterRange)> {
        entries(self.parameter_values@)
    }

    /// Every range holds the value that `values` gives its parameter.
    pub open spec fn accepts(&self, values: Map<Seq<char>, i64>) -> bool {
        forall|i: int|
            0 <= i < self@.len() ==> (#[trigger] self@[i]).1.margin(values[self@[i].0] as int)
                >= 0
    }

    /// Sum of the margins of the first `n` parameters.
    pub open spec fn margin_sum(&self, values: Map<Seq<char>, i64>, n: nat) -> int
        decreases n,
    {
        if n == 0 {
            0
        } else {
            self.margin_sum(values, (n - 1) as nat) + self@[n - 1].1.margin(
                values[self@[n - 1].0] as int,
            )
        }
    }

    /// The fitness of `values` under this rule: nothing where some range
    /// rejects its value, else the sum of all margins. A smaller score is a
    /// tighter fit.
    pub open spec fn score(&self, values: Map<Seq<char>, i64>) -> Option<int> {
        if self.accepts(values) {
            Some(self.margin_sum(values, self@.len()))
        } else {
            None
        }
    }

    /// Builds a rule from pairs of a parameter's name and its range.
    pub fn new(parameter_values: Vec<(&str, ParameterRange)>) -> (rule: Self)
        ensures
            rule@ == collected(parameter_values@, parameter_values@.len()),
            distinct_names(rule@),
    {
        let mut list: Vec<(String, ParameterRange)> = Vec::new();
        let mut i: usize = 0;
        assert(entries(list@) =~= collected(parameter_values@, 0));
        while i < parameter_values.len()
            invariant
                i <= parameter_values@.len(),
                entries(list@) == collected(parameter_values@, i as nat),
            decreases parameter_values@.len() - i,
        {
            let name: String = parameter_values[i].0.to_owned();
            let range = parameter_values[i].1;
            let ghost before = entries(list@);
            match find(&list, &name) {
                Some(k) => {
                    proof {
                        lemma_first_unique(before, name@, k as int);
                    }
                    list.set(k, (name, range));
                },
                None => {
                    list.push((name, range));
                },
            }
            assert(entries(list@) =~= put(before, parameter_values@[i as int].0@, range));
            i += 1;
        }
        proof {
            lemma_collected_distinct(parameter_values@, parameter_values@.len());
        }
        TileGeneration { parameter_values: list }
    }

    /// Number of parameters that the rule names, each counted once.
    pub fn parameter_count(&self) -> (n: usize)
        ensures
            n == self@.len(),
            distinct_names(self@),
    {
        proof {
            use_type_invariant(self);
        }
        self.parameter_values.len()
    }

    /// Name of the `i`-th parameter.
    pub fn parameter_name(&self, i: usize) -> (name: &String)
        requires
            i < self@.len(),
        ensures
            name@ == self@[i as int].0,
    {
        &self.parameter_values[i].0
    }

    /// Scores sampled noise values against the rule.
    pub fn calculate_score(&self, noise_values: &Vec<(String, i64)>) -> (score: Option<i128>)
        requires
            forall|i: int|
                0 <= i < self@.len() ==> has_name(entries(noise_values@), (#[trigger] self@[i]).0),
        ensures
            match score {
                Some(s) => self.score(as_map(entries(noise_values@))) == Some(s as int),
                None => self.score(as_map(entries(noise_values@))) is None,
            },
    {
        let ghost values = as_map(entries(noise_values@));
        let mut total: i128 = 0;
        let mut i: usize = 0;
        while i < self.parameter_values.len()
            invariant
                i <= self@.len(),
                self@ == entries(self.parameter_values@),
                values == as_map(entries(noise_values@)),
                forall|k: int|
                    0 <= k < self@.len() ==> has_name(
                        entries(noise_values@),
                        (#[trigger] self@[k]).0,
                    ),
                forall|k: int|
                    0 <= k < i ==> (#[trigger] self@[k]).1.margin(values[self@[k].0] as int) >= 0,
                total == self.margin_sum(values, i as nat),
                0 <= total <= i * i64::MAX,
            decreases self@.len() - i,
        {
            let range = self.parameter_values[i].1;
            assert(self@[i as int].1 == range);
            assert(has_name(entries(noise_values@), self@[i as int].0));
            match find(noise_values, &self.parameter_values[i].0) {
                Some(k) => {
                    proof {
                        lemma_first_unique(entries(noise_values@), self@[i as int].0, k as int);
                    }
                    let margin = range.margin_of(noise_values[k].1);
                    assert(margin == self@[i as int].1.margin(values[self@[i as int].0] as int));
                    if margin < 0 {
                        return None;
                    }
                    assert((i + 1) * i64::MAX <= usize::MAX * i64::MAX <= i128::MAX)
                        by (nonlinear_arith)
                        requires
                            i < usize::MAX,
                            usize::MAX <= u64::MAX,
                    ;
                    assert(total + margin <= (i + 1) * i64::MAX) by (nonlinear_arith)
                        requires
                            total <= i * i64::MAX,
                            margin <= i64::MAX,
                    ;
                    total = total + margin;
                },
                None => {
                    return None;
                },
            }
            i += 1;
        }
        Some(total)
    }
}

} // verus!
