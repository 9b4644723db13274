//! The program store: numbered lines kept in strictly ascending order.
//!
//! The store is mutated through one upsert operation alone: a new number
//! is inserted at its sorted position, an existing number has its
//! statement replaced, and an existing number paired with an `Empty`
//! statement is deleted. An `Empty` statement at an absent number leaves
//! the store unchanged: deleting what is not there is a no-op.

use vstd::prelude::*;

use crate::statement::Statement;

verus! {

/// Line numbers strictly ascend, so each appears at most once.
pub open spec fn sorted_unique(s: Seq<(i32, Statement)>) -> bool {
    forall|i: int, j: int| 0 <= i < j < s.len() ==> (#[trigger] s[i]).0 < (#[trigger] s[j]).0
}

/// Whether some line of `s` carries the number `n`.
pub open spec fn has_line(s: Seq<(i32, Statement)>, n: i32) -> bool {
    exists|i: int| 0 <= i < s.len() && (#[trigger] s[i]).0 == n
}

/// The index of the line carrying the number `n`.
pub open spec fn idx_of(s: Seq<(i32, Statement)>, n: i32) -> int {
    choose|i: int| 0 <= i < s.len() && (#[trigger] s[i]).0 == n
}

/// Where a line numbered `n` belongs in `s`: after every line whose
/// number is below `n`.
pub open spec fn insert_pos(s: Seq<(i32, Statement)>, n: i32) -> int
    decreases s.len(),
{
    if s.len() == 0 {
        0
    } else if s.last().0 < n {
        s.len() as int
    } else {
        insert_pos(s.drop_last(), n)
    }
}

/// The sorted position always lies within the store.
pub proof fn lemma_insert_pos_bounds(s: Seq<(i32, Statement)>, n: i32)
    ensures
        0 <= insert_pos(s, n) <= s.len(),
    decreases s.len(),
{
    if s.len() > 0 && !(s.last().0 < n) {
        lemma_insert_pos_bounds(s.drop_last(), n);
    }
}

proof fn lemma_insert_pos(s: Seq<(i32, Statement)>, n: i32, i: int)
    requires
        sorted_unique(s),
        0 <= i <= s.len(),
        forall|j: int| i <= j < s.len() ==> (#[trigger] s[j]).0 > n,
        i > 0 ==> s[i - 1].0 < n,
    ensures
        insert_pos(s, n) == i,
    decreases s.len(),
{
    if s.len() == 0 {
    } else if s.last().0 < n {
        assert(i == s.len());
    } else {
        assert(i < s.len());
        let t = s.drop_last();
        assert(forall|j: int| i <= j < t.len() ==> (#[trigger] t[j]).0 > n);
        lemma_insert_pos(t, n, i);
    }
}

/// What one upsert makes of the store: an existing number is replaced,
/// or deleted when the incoming statement is empty; a fresh number is
/// inserted at its sorted position, unless the statement is empty, in
/// which case there is nothing to delete and the store stays as it is.
pub open spec fn upsert(s: Seq<(i32, Statement)>, nl: (i32, Statement)) -> Seq<(i32, Statement)> {
    if has_line(s, nl.0) {
        if nl.1 is Empty {
            s.remove(idx_of(s, nl.0))
        } else {
            s.update(idx_of(s, nl.0), nl)
        }
    } else {
        if nl.1 is Empty {
            s
        } else {
            s.insert(insert_pos(s, nl.0), nl)
        }
    }
}

/// The store after a sequence of upserts, first to last.
pub open spec fn upsert_all(
    s: Seq<(i32, Statement)>,
    items: Seq<(i32, Statement)>,
) -> Seq<(i32, Statement)>
    decreases items.len(),
{
    if items.len() == 0 {
        s
    } else {
        upsert_all(upsert(s, items[0]), items.drop_first())
    }
}

/// A sequence of upserts extends by one at its back.
pub proof fn lemma_upsert_all_push(
    s: Seq<(i32, Statement)>,
    items: Seq<(i32, Statement)>,
    nl: (i32, Statement),
)
    ensures
        upsert_all(s, items.push(nl)) == upsert(upsert_all(s, items), nl),
    decreases items.len(),
{
    if items.len() == 0 {
        assert(items.push(nl).drop_first() =~= Seq::<(i32, Statement)>::empty());
        assert(items.push(nl)[0] == nl);
        assert(upsert_all(upsert(s, nl), Seq::<(i32, Statement)>::empty()) == upsert(s, nl));
        assert(upsert_all(s, items.push(nl)) == upsert(s, nl));
        assert(upsert_all(s, items) == s);
    } else {
        assert(items.push(nl)[0] == items[0]);
        assert(items.push(nl).drop_first() =~= items.drop_first().push(nl));
        lemma_upsert_all_push(upsert(s, items[0]), items.drop_first(), nl);
        assert(upsert_all(s, items.push(nl)) == upsert_all(
            upsert(s, items[0]),
            items.drop_first().push(nl),
        ));
        assert(upsert_all(s, items) == upsert_all(upsert(s, items[0]), items.drop_first()));
    }
}

/// Insert, replace or delete the line numbered `new_line.0`: strictly
/// ascending order is preserved and the store becomes exactly what
/// `upsert` says.
pub fn update_program(program: &mut Vec<(i32, Statement)>, new_line: (i32, Statement))
    requires
        sorted_unique(old(program)@),
    ensures
        sorted_unique(final(program)@),
        final(program)@ == upsert(old(program)@, new_line),
{
    let ghost orig = program@;
    let ghost n: i32 = new_line.0;
    // Deleting a line that is not there leaves the store unchanged; the
    // scans below only need to handle a line that will stay.
    let deleting = matches!(new_line.1, Statement::Empty);
    let len = program.len();
    if len == 0 {
        if deleting {
            return ;
        }
        proof {
            lemma_insert_pos(orig, n, 0);
            assert(orig.insert(0, new_line) =~= orig.push(new_line));
        }
        program.push(new_line);
        return ;
    }
    // Look for a place starting from the end of the program.
    let mut idx = len;
    while idx > 0
        invariant
            idx <= len == orig.len(),
            orig == old(program)@,
            program@ == orig,
            sorted_unique(orig),
            n == new_line.0,
            deleting == (new_line.1 is Empty),
            forall|j: int| idx <= j < orig.len() ==> (#[trigger] orig[j]).0 > n,
        decreases idx,
    {
        idx = idx - 1;
        if new_line.0 == program[idx].0 {
            proof {
                assert(orig[idx as int].0 == n);
                let k = idx_of(orig, n);
                assert(0 <= k < orig.len() && orig[k].0 == n);
                if k < idx {
                    assert(orig[k].0 < orig[idx as int].0);
                }
                if k > idx {
                    assert(orig[idx as int].0 < orig[k].0);
                }
                assert(k == idx);
            }
            // The number exists: replace its statement, or delete the
            // line when the incoming statement is empty.
            proof {
                assert(has_line(orig, n));
                assert(idx_of(orig, n) == idx);
            }
            match new_line.1 {
                Statement::Empty => {
                    program.remove(idx);
                    proof {
                        assert(program@ == orig.remove(idx as int));
                    }
                },
                _ => {
                    program[idx] = new_line;
                    proof {
                        assert(program@ == orig.update(idx as int, new_line));
                    }
                },
            }
            return ;
        }
        if new_line.0 > program[idx].0 {
            // Every later line is higher: this is the sorted position.
            proof {
                lemma_insert_pos(orig, n, idx + 1);
                assert forall|j: int| 0 <= j < orig.len() implies (#[trigger] orig[j]).0 != n by {
                    if j < idx {
                        assert(orig[j].0 < orig[idx as int].0);
                    }
                }
                assert(!has_line(orig, n));
            }
            if deleting {
                return ;
            }
            program.insert(idx + 1, new_line);
            return ;
        }
    }
    // Every line is higher: the new line goes to the front.
    proof {
        lemma_insert_pos(orig, n, 0);
        assert(!has_line(orig, n));
    }
    if deleting {
        return ;
    }
    program.insert(0, new_line);
}

} // verus!
