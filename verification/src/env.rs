use vstd::prelude::*;

use crate::ast::{expr_view, Expr, ExprV};
use crate::text::str_eq;

verus! {

/// The name -> binding map seen by one evaluation: keys unique, last
/// write wins. Stored as the write history; the view is the resulting map.
pub struct Env {
    entries: Vec<(String, Expr)>,
}

/// The map that a write history denotes: later writes shadow earlier ones.
spec fn map_of(s: Seq<(String, Expr)>) -> Map<Seq<char>, ExprV>
    decreases s.len(),
{
    if s.len() == 0 {
        Map::empty()
    } else {
        map_of(s.drop_last()).insert(s.last().0@, expr_view(s.last().1))
    }
}

proof fn lemma_map_of_found(s: Seq<(String, Expr)>, i: int)
    requires
        0 <= i < s.len(),
        forall|j: int| i < j < s.len() ==> (#[trigger] s[j]).0@ != s[i].0@,
    ensures
        map_of(s).dom().contains(s[i].0@),
        map_of(s)[s[i].0@] == expr_view(s[i].1),
    decreases s.len(),
{
    if i == s.len() - 1 {
    } else {
        assert(s.drop_last()[i] == s[i]);
        lemma_map_of_found(s.drop_last(), i);
    }
}

proof fn lemma_map_of_absent(s: Seq<(String, Expr)>, k: Seq<char>)
    requires
        forall|j: int| 0 <= j < s.len() ==> (#[trigger] s[j]).0@ != k,
    ensures
        !map_of(s).dom().contains(k),
    decreases s.len(),
{
    if s.len() > 0 {
        lemma_map_of_absent(s.drop_last(), k);
    }
}

proof fn lemma_map_of_pointwise(a: Seq<(String, Expr)>, b: Seq<(String, Expr)>)
    requires
        a.len() == b.len(),
        forall|i: int|
            0 <= i < a.len() ==> (#[trigger] a[i]).0@ == b[i].0@ && expr_view(a[i].1)
                == expr_view(b[i].1),
    ensures
        map_of(a) == map_of(b),
    decreases a.len(),
{
    if a.len() > 0 {
        assert(forall|i: int|
            0 <= i < a.drop_last().len() ==> (#[trigger] a.drop_last()[i]).0@
                == b.drop_last()[i].0@ && expr_view(a.drop_last()[i].1) == expr_view(
                b.drop_last()[i].1,
            )) by {
            assert(forall|i: int| 0 <= i < a.len() - 1 ==> a.drop_last()[i] == #[trigger] a[i]);
            assert(forall|i: int| 0 <= i < b.len() - 1 ==> b.drop_last()[i] == #[trigger] b[i]);
        }
        lemma_map_of_pointwise(a.drop_last(), b.drop_last());
        assert(a.last() == a[a.len() - 1]);
        assert(b.last() == b[b.len() - 1]);
    } else {
        assert(map_of(a) == map_of(b));
    }
}

impl View for Env {
    type V = Map<Seq<char>, ExprV>;

    closed spec fn view(&self) -> Map<Seq<char>, ExprV> {
        map_of(self.entries@)
    }
}

impl Env {
    pub fn new() -> (r: Self)
        ensures
            r@ == Map::<Seq<char>, ExprV>::empty(),
    {
        Env { entries: Vec::new() }
    }

    /// The binding most recently written under the name, if any.
    pub fn get(&self, name: &str) -> (r: Option<&Expr>)
        ensures
            match r {
                Some(e) => self@.dom().contains(name@) && expr_view(*e) == self@[name@],
                None => !self@.dom().contains(name@),
            },
    {
        let n = self.entries.len();
        let mut i: usize = n;
        while i > 0
            invariant
                i <= n,
                n == self.entries@.len(),
                forall|j: int| i <= j < n ==> (#[trigger] self.entries@[j]).0@ != name@,
            decreases i,
        {
            i = i - 1;
            let e = &self.entries[i];
            if str_eq(e.0.as_str(), name) {
                proof {
                    lemma_map_of_found(self.entries@, i as int);
                }
                return Some(&e.1);
            }
        }
        proof {
            lemma_map_of_absent(self.entries@, name@);
        }
        None
    }

    /// Binds the name, shadowing any earlier binding.
    pub fn insert(&mut self, name: String, value: Expr)
        ensures
            final(self)@ == old(self)@.insert(name@, expr_view(value)),
    {
        let ghost k = name@;
        let ghost v = expr_view(value);
        self.entries.push((name, value));
        proof {
            assert(self.entries@.drop_last() =~= old(self).entries@);
            assert(self.entries@.last().0@ == k);
            assert(expr_view(self.entries@.last().1) == v);
        }
    }
}

impl Clone for Env {
    /// A value-semantics snapshot: the copy denotes the same map and
    /// shares nothing with the value it was copied from.
    fn clone(&self) -> (res: Env)
        ensures
            res@ == self@,
    {
        let mut entries: Vec<(String, Expr)> = Vec::new();
        let n = self.entries.len();
        let mut i: usize = 0;
        while i < n
            invariant
                i <= n,
                n == self.entries@.len(),
                entries@.len() == i,
                forall|j: int|
                    0 <= j < i ==> (#[trigger] entries@[j]).0@ == self.entries@[j].0@ && expr_view(
                        entries@[j].1,
                    ) == expr_view(self.entries@[j].1),
            decreases n - i,
        {
            let e = &self.entries[i];
            entries.push((e.0.clone(), e.1.clone()));
            i = i + 1;
        }
        proof {
            lemma_map_of_pointwise(entries@, self.entries@);
        }
        Env { entries }
    }
}

} // verus!
