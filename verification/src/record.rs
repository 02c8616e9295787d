//! Records: ordered mappings from column name to [`Value`].

use vstd::prelude::*;
use crate::text::str_eq;
use crate::value::Value;

verus! {

/// An ordered mapping from column name to value, the shape of one row.
///
/// A name occurs at most once; a lookup returns the value of the first (and
/// only) pair holding that name.
#[derive(Debug, PartialEq, Eq)]
pub struct Record {
    pub pairs: Vec<(String, Value)>,
}

impl View for Record {
    type V = Seq<(Seq<char>, Value)>;

    open spec fn view(&self) -> Seq<(Seq<char>, Value)> {
        self.pairs@.map_values(|p: (String, Value)| (p.0@, p.1))
    }
}

/// The value stored under `name` from position `i` on: the first pair with
/// that name.
pub open spec fn spec_get_from(pairs: Seq<(Seq<char>, Value)>, name: Seq<char>, i: int) -> Option<
    Value,
>
    decreases pairs.len() - i,
{
    if i >= pairs.len() {
        None
    } else if pairs[i].0 == name {
        Some(pairs[i].1)
    } else {
        spec_get_from(pairs, name, i + 1)
    }
}

/// The value stored under `name`, if any.
pub open spec fn spec_get(pairs: Seq<(Seq<char>, Value)>, name: Seq<char>) -> Option<Value> {
    spec_get_from(pairs, name, 0)
}

/// The contents of a sequence of records.
pub open spec fn views_of(rows: Seq<Record>) -> Seq<Seq<(Seq<char>, Value)>> {
    rows.map_values(|r: Record| r@)
}

/// A lookup from `i` on misses exactly when no pair from `i` on holds `name`.
pub proof fn lemma_get_from_none(pairs: Seq<(Seq<char>, Value)>, name: Seq<char>, i: int)
    requires
        0 <= i <= pairs.len(),
    ensures
        spec_get_from(pairs, name, i) is None <==> forall|k: int|
            i <= k < pairs.len() ==> pairs[k].0 != name,
    decreases pairs.len() - i,
{
    if i < pairs.len() {
        lemma_get_from_none(pairs, name, i + 1);
    }
}

/// Two pair sequences with the same names, differing in value only at `i`,
/// agree on every lookup of a name other than the one at `i`.
proof fn lemma_get_from_value_change(
    s1: Seq<(Seq<char>, Value)>,
    s2: Seq<(Seq<char>, Value)>,
    i: int,
    x: Seq<char>,
    j: int,
)
    requires
        s1.len() == s2.len(),
        0 <= i < s1.len(),
        0 <= j <= s1.len(),
        forall|k: int| 0 <= k < s1.len() ==> s1[k].0 == s2[k].0,
        forall|k: int| 0 <= k < s1.len() && k != i ==> s1[k] == s2[k],
        s1[i].0 != x,
    ensures
        spec_get_from(s1, x, j) == spec_get_from(s2, x, j),
    decreases s1.len() - j,
{
    if j < s1.len() {
        if s1[j].0 == x {
        } else {
            lemma_get_from_value_change(s1, s2, i, x, j + 1);
        }
    }
}

/// When no pair in `[j, i)` holds `x` and the pair at `i` does, the lookup
/// from `j` returns the value at `i`.
proof fn lemma_get_from_first_match(s: Seq<(Seq<char>, Value)>, x: Seq<char>, i: int, j: int)
    requires
        0 <= j <= i < s.len(),
        forall|k: int| j <= k < i ==> s[k].0 != x,
        s[i].0 == x,
    ensures
        spec_get_from(s, x, j) == Some(s[i].1),
    decreases i - j,
{
    if j < i {
        lemma_get_from_first_match(s, x, i, j + 1);
    }
}

/// A lookup in `s.push(p)` falls back on `p` only when `s` has no match.
proof fn lemma_get_from_push(s: Seq<(Seq<char>, Value)>, p: (Seq<char>, Value), x: Seq<char>, j: int)
    requires
        0 <= j <= s.len(),
    ensures
        spec_get_from(s.push(p), x, j) == if spec_get_from(s, x, j) is Some {
            spec_get_from(s, x, j)
        } else if p.0 == x {
            Some(p.1)
        } else {
            None
        },
    decreases s.len() - j,
{
    if j < s.len() {
        assert(s.push(p)[j] == s[j]);
        lemma_get_from_push(s, p, x, j + 1);
    } else {
        assert(s.push(p)[j] == p);
        assert(spec_get_from(s, x, j) is None);
        assert(spec_get_from(s.push(p), x, j + 1) is None);
    }
}

impl Record {
    /// No column name occurs twice.
    pub open spec fn wf(&self) -> bool {
        forall|i: int, j: int| 0 <= i < j < self@.len() ==> self@[i].0 != self@[j].0
    }

    /// An empty record.
    pub fn new() -> (r: Record)
        ensures
            r@ == Seq::<(Seq<char>, Value)>::empty(),
            r.wf(),
    {
        let r = Record { pairs: Vec::new() };
        proof {
            assert(r@ =~= Seq::<(Seq<char>, Value)>::empty());
        }
        r
    }

    /// The value stored under `name`, if any.
    pub fn get_value(&self, name: &str) -> (r: Option<&Value>)
        ensures
            match r {
                Some(v) => spec_get(self@, name@) == Some(*v),
                None => spec_get(self@, name@) is None,
            },
    {
        let n = self.pairs.len();
        let mut i: usize = 0;
        while i < n
            invariant
                n == self.pairs.len(),
                i <= n,
                spec_get(self@, name@) == spec_get_from(self@, name@, i as int),
            decreases n - i,
        {
            if str_eq(self.pairs[i].0.as_str(), name) {
                return Some(&self.pairs[i].1);
            }
            i += 1;
        }
        None
    }

    /// Stores `value` under `name`, replacing the pair already holding that
    /// name if there is one, appending a new pair otherwise. Every other
    /// name keeps its value.
    pub fn insert_value(&mut self, name: &str, value: Value)
        ensures
            spec_get(final (self)@, name@) == Some(value),
            forall|x: Seq<char>| x != name@ ==> spec_get(final (self)@, x) == spec_get(
                old(self)@,
                x,
            ),
            old(self).wf() ==> final (self).wf(),
    {
        let ghost s1 = old(self)@;
        let ghost p1 = old(self).pairs@;
        let n = self.pairs.len();
        let mut i: usize = 0;
        while i < n
            invariant
                n == self.pairs.len(),
                i <= n,
                s1 == self@,
                p1 == self.pairs@,
                s1 == old(self)@,
                p1 == old(self).pairs@,
                forall|k: int| 0 <= k < i ==> s1[k].0 != name@,
            decreases n - i,
        {
            if str_eq(self.pairs[i].0.as_str(), name) {
                self.pairs.remove(i);
                self.pairs.insert(i, (String::from_str(name), value));
                proof {
                    assert(self.pairs@ =~= p1.update(i as int, self.pairs@[i as int]));
                    let s2 = self@;
                    assert(s1.len() == s2.len());
                    assert(s2[i as int].0 == name@ && s2[i as int].1 == value);
                    assert(s1[i as int].0 == name@);
                    assert forall|k: int| 0 <= k < s1.len() && k != i implies s1[k] == s2[k] by {
                        assert(self.pairs@[k] == p1[k]);
                        assert(s1[k] == (p1[k].0@, p1[k].1));
                        assert(s2[k] == (self.pairs@[k].0@, self.pairs@[k].1));
                    }
                    assert forall|k: int| 0 <= k < s1.len() implies s1[k].0 == s2[k].0 by {}
                    lemma_get_from_first_match(s2, name@, i as int, 0);
                    assert forall|x: Seq<char>| x != name@ implies spec_get(s2, x) == spec_get(
                        s1,
                        x,
                    ) by {
                        lemma_get_from_value_change(s1, s2, i as int, x, 0);
                    }
                    if old(self).wf() {
                        assert forall|a: int, b: int| 0 <= a < b < s2.len() implies s2[a].0
                            != s2[b].0 by {
                            assert(s1[a].0 == s2[a].0);
                            assert(s1[b].0 == s2[b].0);
                            assert(old(self)@[a].0 != old(self)@[b].0);
                        }
                    }
                }
                return ;
            }
            i += 1;
        }
        proof {
            lemma_get_from_none(s1, name@, 0);
            assert(spec_get(s1, name@) is None);
        }
        self.pairs.push((String::from_str(name), value));
        proof {
            let s2 = self@;
            assert(s2 =~= s1.push((name@, value)));
            assert forall|x: Seq<char>| true implies spec_get(s2, x) == if spec_get(
                s1,
                x,
            ) is Some {
                spec_get(s1, x)
            } else if name@ == x {
                Some(value)
            } else {
                None
            } by {
                lemma_get_from_push(s1, (name@, value), x, 0);
            }
            if old(self).wf() {
                assert forall|a: int, b: int| 0 <= a < b < s2.len() implies s2[a].0 != s2[b].0 by {
                    assert(s2[a] == s1[a]);
                    if b < s1.len() {
                        assert(s2[b] == s1[b]);
                    } else {
                        assert(s2[b].0 == name@);
                    }
                }
            }
        }
    }

    /// An equal copy of the record.
    pub fn clone_record(&self) -> (r: Record)
        ensures
            r@ == self@,
    {
        let n = self.pairs.len();
        let mut out: Vec<(String, Value)> = Vec::new();
        let mut i: usize = 0;
        while i < n
            invariant
                n == self.pairs.len(),
                i <= n,
                out@.len() == i,
                forall|k: int| 0 <= k < i ==> out@[k] == self.pairs@[k],
            decreases n - i,
        {
            out.push((self.pairs[i].0.clone(), self.pairs[i].1.clone_value()));
            i += 1;
        }
        let r = Record { pairs: out };
        proof {
            assert(r@ =~= self@);
        }
        r
    }
}

} // verus!
