//! The variable environment: a mutable mapping from single-letter names to
//! numeric values, shared by every statement of a session.

use vstd::prelude::*;

use crate::expression::Number;

verus! {

/// The map behind a sequence of (name, value) entries. A later entry for a
/// name wins; the environment keeps names unique, so order is immaterial.
pub open spec fn map_of(s: Seq<(char, Number)>) -> Map<char, Number>
    decreases s.len(),
{
    if s.len() == 0 {
        Map::empty()
    } else {
        map_of(s.drop_last()).insert(s.last().0, s.last().1)
    }
}

/// Names mapped to values.
pub struct Variables {
    entries: Vec<(char, Number)>,
}

proof fn lemma_map_of_contains(s: Seq<(char, Number)>, c: char)
    ensures
        map_of(s).contains_key(c) <==> exists|i: int| 0 <= i < s.len() && (#[trigger] s[i]).0 == c,
    decreases s.len(),
{
    if s.len() > 0 {
        lemma_map_of_contains(s.drop_last(), c);
        if s.last().0 == c {
            assert(s[s.len() - 1].0 == c);
        } else if map_of(s).contains_key(c) {
            let i = choose|i: int| 0 <= i < s.drop_last().len() && (#[trigger] s.drop_last()[i]).0
                == c;
            assert(s[i].0 == c);
        } else {
            assert forall|i: int| 0 <= i < s.len() implies (#[trigger] s[i]).0 != c by {
                if i < s.len() - 1 {
                    assert(s.drop_last()[i] == s[i]);
                }
            }
        }
    }
}

proof fn lemma_map_of_found(s: Seq<(char, Number)>, i: int)
    requires
        forall|p: int, q: int|
            0 <= p < q < s.len() ==> (#[trigger] s[p]).0 != (#[trigger] s[q]).0,
        0 <= i < s.len(),
    ensures
        map_of(s).contains_key(s[i].0),
        map_of(s)[s[i].0] == s[i].1,
    decreases s.len(),
{
    if i == s.len() - 1 {
    } else {
        assert(s.drop_last()[i] == s[i]);
        lemma_map_of_found(s.drop_last(), i);
        assert(s.last().0 != s[i].0);
    }
}

proof fn lemma_map_of_update(s: Seq<(char, Number)>, i: int, v: Number)
    requires
        forall|p: int, q: int|
            0 <= p < q < s.len() ==> (#[trigger] s[p]).0 != (#[trigger] s[q]).0,
        0 <= i < s.len(),
    ensures
        map_of(s.update(i, (s[i].0, v))) == map_of(s).insert(s[i].0, v),
    decreases s.len(),
{
    let c = s[i].0;
    let t = s.update(i, (c, v));
    if i == s.len() - 1 {
        assert(t.drop_last() =~= s.drop_last());
        assert(map_of(t) =~= map_of(s).insert(c, v));
    } else {
        assert(t.drop_last() =~= s.drop_last().update(i, (c, v)));
        assert(s.drop_last()[i] == s[i]);
        lemma_map_of_update(s.drop_last(), i, v);
        assert(s.last().0 != c);
        assert(map_of(t) =~= map_of(s).insert(c, v));
    }
}

impl Variables {
    /// Names are unique among the entries.
    pub closed spec fn wf(&self) -> bool {
        forall|p: int, q: int|
            0 <= p < q < self.entries@.len() ==> (#[trigger] self.entries@[p]).0
                != (#[trigger] self.entries@[q]).0
    }

    /// An empty environment.
    pub fn new() -> (r: Variables)
        ensures
            r.wf(),
            r@ == Map::<char, Number>::empty(),
    {
        Variables { entries: Vec::new() }
    }

    /// The value bound to `c`, when there is one.
    pub fn get(&self, c: char) -> (r: Option<Number>)
        requires
            self.wf(),
        ensures
            match r {
                Some(v) => self@.contains_key(c) && self@[c] == v,
                None => !self@.contains_key(c),
            },
    {
        let n = self.entries.len();
        let mut i: usize = 0;
        while i < n
            invariant
                i <= n == self.entries@.len(),
                self.wf(),
                forall|j: int| 0 <= j < i ==> (#[trigger] self.entries@[j]).0 != c,
            decreases n - i,
        {
            if self.entries[i].0 == c {
                proof {
                    lemma_map_of_found(self.entries@, i as int);
                }
                return Some(self.entries[i].1);
            }
            i = i + 1;
        }
        proof {
            lemma_map_of_contains(self.entries@, c);
        }
        None
    }

    /// Bind `c` to `v`, replacing any earlier binding.
    pub fn insert(&mut self, c: char, v: Number)
        requires
            old(self).wf(),
        ensures
            final(self).wf(),
            final(self)@ == old(self)@.insert(c, v),
    {
        let n = self.entries.len();
        let mut i: usize = 0;
        while i < n
            invariant
                i <= n == self.entries@.len(),
                self.wf(),
                self.entries@ == old(self).entries@,
                forall|j: int| 0 <= j < i ==> (#[trigger] self.entries@[j]).0 != c,
            decreases n - i,
        {
            if self.entries[i].0 == c {
                proof {
                    lemma_map_of_update(self.entries@, i as int, v);
                }
                self.entries[i] = (c, v);
                return ;
            }
            i = i + 1;
        }
        proof {
            lemma_map_of_contains(self.entries@, c);
            assert(self.entries@.push((c, v)).drop_last() =~= self.entries@);
        }
        self.entries.push((c, v));
    }

    /// Drop every binding.
    pub fn clear(&mut self)
        ensures
            final(self).wf(),
            final(self)@ == Map::<char, Number>::empty(),
    {
        self.entries.clear();
    }
}

impl View for Variables {
    type V = Map<char, Number>;

    /// The mapping the entries make up.
    closed spec fn view(&self) -> Map<char, Number> {
        map_of(self.entries@)
    }
}

} // verus!
