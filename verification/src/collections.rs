//! Moving through owned vectors, and the stable ordering by port.

use vstd::prelude::*;

verus! {

/// `v` in reverse order.
pub fn reversed<T>(v: Vec<T>) -> (r: Vec<T>)
    ensures
        r@ == v@.reverse(),
{
    let ghost all = v@;
    let mut rest = v;
    let mut back: Vec<T> = Vec::new();
    while rest.len() > 0
        invariant
            back@.len() + rest@.len() == all.len(),
            rest@ == all.subrange(0, rest@.len() as int),
            forall|t: int| 0 <= t < back@.len() ==> back@[t] == all[all.len() - 1 - t],
        decreases rest.len(),
    {
        let e = rest.pop().unwrap();
        back.push(e);
    }
    assert(back@ =~= all.reverse());
    back
}

/// Something ordered by a port number.
pub trait ByPort {
    spec fn port_of(&self) -> i64;

    fn port_key(&self) -> (r: i64)
        ensures
            r == self.port_of(),
    ;
}

/// `s` with `x` placed after every item whose port is not above its own.
pub open spec fn insert_by_port<T: ByPort>(s: Seq<T>, x: T) -> Seq<T>
    decreases s.len(),
{
    if s.len() == 0 {
        seq![x]
    } else if s.last().port_of() <= x.port_of() {
        s.push(x)
    } else {
        insert_by_port(s.drop_last(), x).push(s.last())
    }
}

/// `s` ordered by port, items with equal ports kept in their order: the
/// order that `sort_by_key` on the port gives.
pub open spec fn sorted_by_port<T: ByPort>(s: Seq<T>) -> Seq<T>
    decreases s.len(),
{
    if s.len() == 0 {
        s
    } else {
        insert_by_port(sorted_by_port(s.drop_last()), s.last())
    }
}

/// The ports of `s` never decrease.
pub open spec fn port_ordered<T: ByPort>(s: Seq<T>) -> bool {
    forall|i: int, j: int| 0 <= i < j < s.len() ==> s[i].port_of() <= s[j].port_of()
}

/// `sorted` is `s.subrange(0, k)` with `x` inserted at `k`.
proof fn lemma_insert_shape<T: ByPort>(s: Seq<T>, x: T)
    ensures
        exists|k: int|
            0 <= k <= s.len() && #[trigger] insert_by_port(s, x) == s.subrange(0, k).push(x) + s.subrange(
                k,
                s.len() as int,
            ) && (forall|i: int| k <= i < s.len() ==> s[i].port_of() > x.port_of()),
    decreases s.len(),
{
    if s.len() == 0 {
        assert(insert_by_port(s, x) == s.subrange(0, 0).push(x) + s.subrange(0, 0));
    } else if s.last().port_of() <= x.port_of() {
        let n = s.len() as int;
        assert(insert_by_port(s, x) == s.subrange(0, n).push(x) + s.subrange(n, n));
    } else {
        let p = s.drop_last();
        lemma_insert_shape(p, x);
        let k = choose|k: int|
            0 <= k <= p.len() && #[trigger] insert_by_port(p, x) == p.subrange(0, k).push(x) + p.subrange(
                k,
                p.len() as int,
            ) && (forall|i: int| k <= i < p.len() ==> p[i].port_of() > x.port_of());
        assert(insert_by_port(s, x) =~= s.subrange(0, k).push(x) + s.subrange(k, s.len() as int));
        assert forall|i: int| k <= i < s.len() implies s[i].port_of() > x.port_of() by {
            if i < p.len() {
                assert(s[i] == p[i]);
            }
        }
    }
}

/// Inserting into an ordered sequence keeps it ordered and keeps its items.
proof fn lemma_insert_ordered<T: ByPort>(s: Seq<T>, x: T)
    requires
        port_ordered(s),
    ensures
        port_ordered(insert_by_port(s, x)),
        insert_by_port(s, x).to_multiset() == s.to_multiset().insert(x),
    decreases s.len(),
{
    broadcast use vstd::seq_lib::group_to_multiset_ensures;
    if s.len() == 0 {
        assert(insert_by_port(s, x) =~= seq![x]);
        assert(s =~= Seq::<T>::empty());
    } else if s.last().port_of() <= x.port_of() {
    } else {
        let p = s.drop_last();
        lemma_insert_ordered(p, x);
        lemma_insert_shape(p, x);
        let r = insert_by_port(p, x);
        assert forall|i: int| 0 <= i < r.len() implies r[i].port_of() <= s.last().port_of() by {
            let k = choose|k: int|
                0 <= k <= p.len() && #[trigger] insert_by_port(p, x) == p.subrange(0, k).push(x) + p.subrange(
                    k,
                    p.len() as int,
                ) && (forall|i: int| k <= i < p.len() ==> p[i].port_of() > x.port_of());
            if i < k {
                assert(r[i] == p[i]);
            } else if i == k {
                assert(r[i] == x);
            } else {
                assert(r[i] == p[i - 1]);
            }
        }
        assert(s == p.push(s.last()));
    }
}

/// The order by port is ordered and holds the same items.
pub proof fn law_sorted_by_port<T: ByPort>(s: Seq<T>)
    ensures
        port_ordered(sorted_by_port(s)),
        sorted_by_port(s).to_multiset() == s.to_multiset(),
        sorted_by_port(s).len() == s.len(),
    decreases s.len(),
{
    broadcast use vstd::seq_lib::group_to_multiset_ensures;
    if s.len() > 0 {
        law_sorted_by_port(s.drop_last());
        lemma_insert_ordered(sorted_by_port(s.drop_last()), s.last());
        assert(s == s.drop_last().push(s.last()));
    }
    let r = sorted_by_port(s);
    assert(r.len() == r.to_multiset().len());
    assert(s.len() == s.to_multiset().len());
}

/// Places `x` into the ordered `v`.
fn insert_item<T: ByPort>(v: Vec<T>, x: T) -> (r: Vec<T>)
    ensures
        r@ == insert_by_port(v@, x),
    decreases v@.len(),
{
    let mut v = v;
    if v.len() == 0 {
        v.push(x);
        assert(v@ =~= seq![x]);
        v
    } else {
        let n = v.len();
        if v[n - 1].port_key() <= x.port_key() {
            v.push(x);
            v
        } else {
            let ghost all = v@;
            let last = v.pop().unwrap();
            assert(v@ == all.drop_last());
            let mut r = insert_item(v, x);
            r.push(last);
            r
        }
    }
}

/// `v` ordered by port, stable among equal ports.
pub fn sort_by_port<T: ByPort>(v: Vec<T>) -> (r: Vec<T>)
    ensures
        r@ == sorted_by_port(v@),
{
    let ghost all = v@;
    let _n = v.len();
    assert(all.len() <= usize::MAX);
    let mut rest = reversed(v);
    let mut done: Vec<T> = Vec::new();
    let mut i: usize = 0;
    assert(all.subrange(0, 0) =~= Seq::<T>::empty());
    while rest.len() > 0
        invariant
            all.len() <= usize::MAX,
            i + rest@.len() == all.len(),
            forall|t: int| 0 <= t < rest@.len() ==> rest@[t] == all[all.len() - 1 - t],
            done@ == sorted_by_port(all.subrange(0, i as int)),
        decreases rest.len(),
    {
        let x = rest.pop().unwrap();
        assert(x == all[i as int]);
        assert(all.subrange(0, i + 1).drop_last() == all.subrange(0, i as int));
        done = insert_item(done, x);
        i = i + 1;
    }
    assert(all.subrange(0, i as int) == all);
    done
}

} // verus!
