//! Coordinate-keyed sets and tables backed by vectors.
//!
//! The chunk coordinate itself is the unique key, so a vector of entries
//! with pairwise-distinct keys carries the same information as a hash map,
//! and its contents are fully visible to the verifier. Membership, lookup,
//! insertion and removal are the only operations the streaming logic needs.

use crate::coords::ChunkCoord;
use vstd::prelude::*;

verus! {

/// Whether a coordinate occurs in a sequence.
pub open spec fn set_contains(s: Seq<ChunkCoord>, c: ChunkCoord) -> bool {
    exists|i: int| 0 <= i < s.len() && s[i] == c
}

/// Whether a sequence holds no coordinate twice.
pub open spec fn set_distinct(s: Seq<ChunkCoord>) -> bool {
    forall|i: int, j: int| 0 <= i < j < s.len() ==> s[i] != s[j]
}

/// Whether a key occurs in an entry table.
pub open spec fn tbl_contains<V>(s: Seq<(ChunkCoord, V)>, c: ChunkCoord) -> bool {
    exists|i: int| 0 <= i < s.len() && s[i].0 == c
}

/// Whether an entry table holds no key twice.
pub open spec fn tbl_distinct<V>(s: Seq<(ChunkCoord, V)>) -> bool {
    forall|i: int, j: int| 0 <= i < j < s.len() ==> s[i].0 != s[j].0
}

/// The value stored under a key; meaningful when the table is distinct and
/// the key is present.
pub open spec fn tbl_at<V>(s: Seq<(ChunkCoord, V)>, c: ChunkCoord) -> V
    recommends
        tbl_contains(s, c),
{
    s[choose|i: int| 0 <= i < s.len() && s[i].0 == c].1
}

/// In a distinct table, the entry at any index holding key `c` is the entry
/// `tbl_at` reads.
pub proof fn lemma_tbl_at_entry<V>(s: Seq<(ChunkCoord, V)>, i: int, c: ChunkCoord)
    requires
        tbl_distinct(s),
        0 <= i < s.len(),
        s[i].0 == c,
    ensures
        tbl_contains(s, c),
        tbl_at(s, c) == s[i].1,
{
    assert(tbl_contains(s, c));
    let j = choose|j: int| 0 <= j < s.len() && s[j].0 == c;
    if i != j {
        if i < j {
            assert(s[i].0 != s[j].0);
        } else {
            assert(s[j].0 != s[i].0);
        }
    }
}

/// Appending an element adds exactly that element to a set's members.
pub proof fn lemma_set_push_contains(s: Seq<ChunkCoord>, c: ChunkCoord)
    ensures
        forall|x: ChunkCoord| #[trigger] set_contains(s.push(c), x) <==> (set_contains(s, x) || x == c),
        !set_contains(s, c) && set_distinct(s) ==> set_distinct(s.push(c)),
{
    assert forall|x: ChunkCoord|
        #[trigger] set_contains(s.push(c), x) <==> (set_contains(s, x) || x == c) by {
        if set_contains(s, x) {
            let k = choose|k: int| 0 <= k < s.len() && s[k] == x;
            assert(s.push(c)[k] == x);
        }
        if x == c {
            assert(s.push(c)[s.len() as int] == x);
        }
        if set_contains(s.push(c), x) {
            let k = choose|k: int| 0 <= k < s.push(c).len() && s.push(c)[k] == x;
            if k < s.len() {
                assert(s[k] == x);
            }
        }
    }
    if !set_contains(s, c) && set_distinct(s) {
        assert forall|i: int, j: int| 0 <= i < j < s.push(c).len() implies s.push(c)[i] != s.push(
            c,
        )[j] by {
            if j == s.len() {
                assert(s.push(c)[i] == s[i]);
            }
        }
    }
}

/// Appending an entry adds exactly that entry's key to a table's keys, and
/// stores its value under that key.
pub proof fn lemma_tbl_push_contains<V>(s: Seq<(ChunkCoord, V)>, e: (ChunkCoord, V))
    ensures
        forall|x: ChunkCoord|
            #[trigger] tbl_contains(s.push(e), x) <==> (tbl_contains(s, x) || x == e.0),
        !tbl_contains(s, e.0) && tbl_distinct(s) ==> tbl_distinct(s.push(e)) && tbl_at(
            s.push(e),
            e.0,
        ) == e.1,
{
    assert forall|x: ChunkCoord|
        #[trigger] tbl_contains(s.push(e), x) <==> (tbl_contains(s, x) || x == e.0) by {
        if tbl_contains(s, x) {
            let k = choose|k: int| 0 <= k < s.len() && s[k].0 == x;
            assert(s.push(e)[k].0 == x);
        }
        if x == e.0 {
            assert(s.push(e)[s.len() as int].0 == x);
        }
        if tbl_contains(s.push(e), x) {
            let k = choose|k: int| 0 <= k < s.push(e).len() && s.push(e)[k].0 == x;
            if k < s.len() {
                assert(s[k].0 == x);
            }
        }
    }
    if !tbl_contains(s, e.0) && tbl_distinct(s) {
        assert forall|i: int, j: int| 0 <= i < j < s.push(e).len() implies s.push(e)[i].0 != s.push(
            e,
        )[j].0 by {
            if j == s.len() {
                assert(s.push(e)[i] == s[i]);
            }
        }
        lemma_tbl_at_entry(s.push(e), s.len() as int, e.0);
    }
}

/// Membership test on a coordinate set.
pub fn set_has(v: &Vec<ChunkCoord>, c: ChunkCoord) -> (r: bool)
    ensures
        r == set_contains(v@, c),
{
    let mut i: usize = 0;
    while i < v.len()
        invariant
            0 <= i <= v@.len(),
            forall|j: int| 0 <= j < i ==> v@[j] != c,
        decreases v@.len() - i,
    {
        if v[i].x == c.x && v[i].y == c.y {
            return true;
        }
        i = i + 1;
    }
    false
}

/// Adds a coordinate to a set unless it is already there; appends at the
/// end, so existing entries keep their places.
pub fn set_add(v: &mut Vec<ChunkCoord>, c: ChunkCoord)
    requires
        set_distinct(old(v)@),
    ensures
        set_distinct(final(v)@),
        final(v)@ == if set_contains(old(v)@, c) {
            old(v)@
        } else {
            old(v)@.push(c)
        },
        forall|x: ChunkCoord| set_contains(final(v)@, x) <==> (set_contains(old(v)@, x) || x == c),
{
    if !set_has(v, c) {
        let ghost prior = v@;
        v.push(c);
        assert forall|i: int, j: int| 0 <= i < j < v@.len() implies v@[i] != v@[j] by {
            if j == v@.len() - 1 {
                assert(v@[i] == prior[i]);
            }
        }
        assert forall|x: ChunkCoord|
            set_contains(v@, x) <==> (set_contains(prior, x) || x == c) by {
            if set_contains(prior, x) {
                let k = choose|k: int| 0 <= k < prior.len() && prior[k] == x;
                assert(v@[k] == x);
            }
            if x == c {
                assert(v@[v@.len() - 1] == x);
            }
            if set_contains(v@, x) {
                let k = choose|k: int| 0 <= k < v@.len() && v@[k] == x;
                if k < v@.len() - 1 {
                    assert(prior[k] == x);
                }
            }
        }
    }
}

/// Removes a coordinate from a set if present; the surviving entries keep
/// their relative order.
pub fn set_del(v: &mut Vec<ChunkCoord>, c: ChunkCoord)
    requires
        set_distinct(old(v)@),
    ensures
        set_distinct(final(v)@),
        forall|x: ChunkCoord| set_contains(final(v)@, x) <==> (set_contains(old(v)@, x) && x != c),
        final(v)@.len() == old(v)@.len() - (if set_contains(old(v)@, c) {
            1int
        } else {
            0int
        }),
{
    let mut i: usize = 0;
    while i < v.len()
        invariant
            set_distinct(v@),
            v@ == old(v)@,
            0 <= i <= v@.len(),
            forall|j: int| 0 <= j < i ==> v@[j] != c,
        decreases v@.len() - i,
    {
        if v[i].x == c.x && v[i].y == c.y {
            let ghost prior = v@;
            let ghost ii = i as int;
            let _ = v.remove(i);
            assert forall|x: ChunkCoord|
                set_contains(v@, x) <==> (set_contains(prior, x) && x != c) by {
                if set_contains(v@, x) {
                    let k = choose|k: int| 0 <= k < v@.len() && v@[k] == x;
                    if k < ii {
                        assert(prior[k] == x);
                    } else {
                        assert(prior[k + 1] == x);
                    }
                }
                if set_contains(prior, x) && x != c {
                    let k = choose|k: int| 0 <= k < prior.len() && prior[k] == x;
                    if k < ii {
                        assert(v@[k] == x);
                    } else {
                        assert(k != ii);
                        assert(v@[k - 1] == x);
                    }
                }
            }
            assert forall|p: int, q: int| 0 <= p < q < v@.len() implies v@[p] != v@[q] by {
                let pp = if p < ii {
                    p
                } else {
                    p + 1
                };
                let qq = if q < ii {
                    q
                } else {
                    q + 1
                };
                assert(v@[p] == prior[pp] && v@[q] == prior[qq]);
            }
            return ;
        }
        i = i + 1;
    }
}

/// Membership test on an entry table.
pub fn tbl_has<V>(m: &Vec<(ChunkCoord, V)>, c: ChunkCoord) -> (r: bool)
    ensures
        r == tbl_contains(m@, c),
{
    let mut i: usize = 0;
    while i < m.len()
        invariant
            0 <= i <= m@.len(),
            forall|j: int| 0 <= j < i ==> m@[j].0 != c,
        decreases m@.len() - i,
    {
        if m[i].0.x == c.x && m[i].0.y == c.y {
            return true;
        }
        i = i + 1;
    }
    false
}

/// Reads the value stored under a key, if any.
pub fn tbl_read<V: Copy>(m: &Vec<(ChunkCoord, V)>, c: ChunkCoord) -> (r: Option<V>)
    requires
        tbl_distinct(m@),
    ensures
        match r {
            Some(x) => tbl_contains(m@, c) && x == tbl_at(m@, c),
            None => !tbl_contains(m@, c),
        },
{
    let mut i: usize = 0;
    while i < m.len()
        invariant
            tbl_distinct(m@),
            0 <= i <= m@.len(),
            forall|j: int| 0 <= j < i ==> m@[j].0 != c,
        decreases m@.len() - i,
    {
        if m[i].0.x == c.x && m[i].0.y == c.y {
            proof {
                lemma_tbl_at_entry(m@, i as int, c);
            }
            return Some(m[i].1);
        }
        i = i + 1;
    }
    None
}

/// Borrows the value stored under a key, if any.
pub fn tbl_get<V>(m: &Vec<(ChunkCoord, V)>, c: ChunkCoord) -> (r: Option<&V>)
    requires
        tbl_distinct(m@),
    ensures
        match r {
            Some(x) => tbl_contains(m@, c) && *x == tbl_at(m@, c),
            None => !tbl_contains(m@, c),
        },
{
    let mut i: usize = 0;
    while i < m.len()
        invariant
            tbl_distinct(m@),
            0 <= i <= m@.len(),
            forall|j: int| 0 <= j < i ==> m@[j].0 != c,
        decreases m@.len() - i,
    {
        if m[i].0.x == c.x && m[i].0.y == c.y {
            proof {
                lemma_tbl_at_entry(m@, i as int, c);
            }
            return Some(&m[i].1);
        }
        i = i + 1;
    }
    None
}

/// Stores a value under a key, replacing any previous value for that key.
pub fn tbl_put<V>(m: &mut Vec<(ChunkCoord, V)>, c: ChunkCoord, value: V)
    requires
        tbl_distinct(old(m)@),
    ensures
        tbl_distinct(final(m)@),
        forall|x: ChunkCoord|
            tbl_contains(final(m)@, x) <==> (tbl_contains(old(m)@, x) || x == c),
        tbl_at(final(m)@, c) == value,
        forall|x: ChunkCoord|
            x != c && tbl_contains(old(m)@, x) ==> tbl_at(final(m)@, x) == tbl_at(old(m)@, x),
        final(m)@.len() == old(m)@.len() + (if tbl_contains(old(m)@, c) {
            0int
        } else {
            1int
        }),
{
    tbl_del(m, c);
    let ghost mid = m@;
    m.push((c, value));
    assert forall|i: int, j: int| 0 <= i < j < m@.len() implies m@[i].0 != m@[j].0 by {
        if j == m@.len() - 1 {
            assert(m@[i] == mid[i]);
            assert(!tbl_contains(mid, c) ==> m@[i].0 != c) by {
                if m@[i].0 == c {
                    assert(tbl_contains(mid, c));
                }
            }
        }
    }
    proof {
        lemma_tbl_at_entry(m@, m@.len() - 1, c);
        assert forall|x: ChunkCoord|
            x != c && tbl_contains(old(m)@, x) implies tbl_at(final(m)@, x) == tbl_at(
            old(m)@,
            x,
        ) by {
            let k = choose|k: int| 0 <= k < old(m)@.len() && old(m)@[k].0 == x;
            lemma_tbl_at_entry(old(m)@, k, x);
            let k2 = choose|k2: int| 0 <= k2 < mid.len() && mid[k2].0 == x;
            lemma_tbl_at_entry(mid, k2, x);
            assert(m@[k2] == mid[k2]);
            lemma_tbl_at_entry(m@, k2, x);
        }
        assert forall|x: ChunkCoord|
            tbl_contains(final(m)@, x) <==> (tbl_contains(old(m)@, x) || x == c) by {
            if tbl_contains(m@, x) && x != c {
                let k = choose|k: int| 0 <= k < m@.len() && m@[k].0 == x;
                assert(k < mid.len() && mid[k].0 == x);
            }
            if tbl_contains(old(m)@, x) && x != c {
                let k = choose|k: int| 0 <= k < mid.len() && mid[k].0 == x;
                assert(m@[k].0 == x);
            }
        }
    }
}

/// Removes the entry under a key, if any; the other entries keep their
/// relative order and their values.
pub fn tbl_del<V>(m: &mut Vec<(ChunkCoord, V)>, c: ChunkCoord)
    requires
        tbl_distinct(old(m)@),
    ensures
        tbl_distinct(final(m)@),
        forall|x: ChunkCoord|
            tbl_contains(final(m)@, x) <==> (tbl_contains(old(m)@, x) && x != c),
        forall|x: ChunkCoord|
            x != c && tbl_contains(old(m)@, x) ==> tbl_at(final(m)@, x) == tbl_at(old(m)@, x),
        final(m)@.len() == old(m)@.len() - (if tbl_contains(old(m)@, c) {
            1int
        } else {
            0int
        }),
{
    let mut i: usize = 0;
    while i < m.len()
        invariant
            tbl_distinct(m@),
            m@ == old(m)@,
            0 <= i <= m@.len(),
            forall|j: int| 0 <= j < i ==> m@[j].0 != c,
        decreases m@.len() - i,
    {
        if m[i].0.x == c.x && m[i].0.y == c.y {
            let ghost prior = m@;
            let ghost ii = i as int;
            let _ = m.remove(i);
            proof {
                assert forall|x: ChunkCoord|
                    tbl_contains(m@, x) <==> (tbl_contains(prior, x) && x != c) by {
                    if tbl_contains(m@, x) {
                        let k = choose|k: int| 0 <= k < m@.len() && m@[k].0 == x;
                        if k < ii {
                            assert(prior[k].0 == x);
                        } else {
                            assert(prior[k + 1].0 == x);
                        }
                    }
                    if tbl_contains(prior, x) && x != c {
                        let k = choose|k: int| 0 <= k < prior.len() && prior[k].0 == x;
                        if k < ii {
                            assert(m@[k].0 == x);
                        } else {
                            assert(k != ii);
                            assert(m@[k - 1].0 == x);
                        }
                    }
                }
                assert forall|p: int, q: int| 0 <= p < q < m@.len() implies m@[p].0 != m@[q].0 by {
                    let pp = if p < ii {
                        p
                    } else {
                        p + 1
                    };
                    let qq = if q < ii {
                        q
                    } else {
                        q + 1
                    };
                    assert(m@[p] == prior[pp] && m@[q] == prior[qq]);
                }
                assert forall|x: ChunkCoord|
                    x != c && tbl_contains(prior, x) implies tbl_at(m@, x) == tbl_at(
                    prior,
                    x,
                ) by {
                    let k = choose|k: int| 0 <= k < prior.len() && prior[k].0 == x;
                    lemma_tbl_at_entry(prior, k, x);
                    if k < ii {
                        lemma_tbl_at_entry(m@, k, x);
                    } else {
                        assert(k != ii);
                        assert(m@[k - 1] == prior[k]);
                        lemma_tbl_at_entry(m@, k - 1, x);
                    }
                }
            }
            return ;
        }
        i = i + 1;
    }
}

} // verus!
