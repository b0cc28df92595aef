//! Lists of numbers: membership, position, and removal that keeps the order.

use vstd::prelude::*;

verus! {

/// Whether `x` occurs in the list.
pub fn contains(list: &Vec<u64>, x: u64) -> (r: bool)
    ensures
        r == list@.contains(x),
{
    position(list, x).is_some()
}

/// The first place at which `x` occurs.
pub open spec fn first_position(s: Seq<u64>, x: u64) -> Option<int>
    decreases s.len(),
{
    if s.len() == 0 {
        None
    } else {
        match first_position(s.drop_last(), x) {
            Some(i) => Some(i),
            None => if s.last() == x {
                Some(s.len() - 1)
            } else {
                None
            },
        }
    }
}

/// `first_position` is the least index that holds the value.
pub proof fn lemma_first_position(s: Seq<u64>, x: u64)
    ensures
        match first_position(s, x) {
            Some(i) => 0 <= i < s.len() && s[i] == x && forall|j: int| 0 <= j < i ==> s[j] != x,
            None => !s.contains(x),
        },
    decreases s.len(),
{
    if s.len() > 0 {
        let t = s.drop_last();
        lemma_first_position(t, x);
        if first_position(t, x) is None {
            assert forall|j: int| 0 <= j < s.len() - 1 implies s[j] != x by {
                assert(t[j] == s[j]);
                assert(t.contains(t[j]));
            }
        } else {
            let i = first_position(t, x).unwrap();
            assert(t[i] == s[i]);
            assert forall|j: int| 0 <= j < i implies s[j] != x by {
                assert(t[j] == s[j]);
            }
        }
    }
}

/// An index whose value is `x`, with no earlier one, is the first position.
pub proof fn lemma_is_first_position(s: Seq<u64>, x: u64, i: int)
    requires
        0 <= i < s.len(),
        s[i] == x,
        forall|j: int| 0 <= j < i ==> s[j] != x,
    ensures
        first_position(s, x) == Some(i),
{
    lemma_first_position(s, x);
    if first_position(s, x) is None {
        assert(s.contains(x));
    }
}

/// The first place at which `x` occurs.
pub fn position(list: &Vec<u64>, x: u64) -> (r: Option<usize>)
    ensures
        match r {
            Some(i) => first_position(list@, x) == Some(i as int) && i < list@.len() && list@[i as int]
                == x && list@.contains(x),
            None => first_position(list@, x) is None && !list@.contains(x),
        },
{
    let mut i: usize = 0;
    while i < list.len()
        invariant
            i <= list@.len(),
            forall|j: int| 0 <= j < i ==> list@[j] != x,
        decreases list@.len() - i,
    {
        if list[i] == x {
            proof {
                lemma_is_first_position(list@, x, i as int);
            }
            return Some(i);
        }
        i = i + 1;
    }
    proof {
        lemma_first_position(list@, x);
    }
    None
}

/// The numbers other than `x`.
pub open spec fn other_than(x: u64) -> spec_fn(u64) -> bool {
    |y: u64| y != x
}

/// The numbers that do not occur in `gone`.
pub open spec fn not_among(gone: Seq<u64>) -> spec_fn(u64) -> bool {
    |y: u64| !gone.contains(y)
}

/// The list without any occurrence of `x`.
pub open spec fn without(s: Seq<u64>, x: u64) -> Seq<u64> {
    s.filter(other_than(x))
}

/// The list without anything that occurs in `gone`.
pub open spec fn without_all(s: Seq<u64>, gone: Seq<u64>) -> Seq<u64> {
    s.filter(not_among(gone))
}

/// Filtering one element more keeps it or drops it.
pub proof fn lemma_filter_step(s: Seq<u64>, pred: spec_fn(u64) -> bool, i: int)
    requires
        0 <= i < s.len(),
    ensures
        s.take(i + 1).filter(pred) == (if pred(s[i]) {
            s.take(i).filter(pred).push(s[i])
        } else {
            s.take(i).filter(pred)
        }),
{
    reveal(Seq::filter);
    assert(s.take(i + 1).drop_last() =~= s.take(i));
}

/// What occurs in a filtered list occurs in the list and passes the filter, and the
/// other way round.
pub proof fn lemma_filter_contains(s: Seq<u64>, pred: spec_fn(u64) -> bool, x: u64)
    ensures
        s.filter(pred).contains(x) <==> s.contains(x) && pred(x),
    decreases s.len(),
{
    reveal(Seq::filter);
    if s.len() > 0 {
        let t = s.drop_last();
        lemma_filter_contains(t, pred, x);
        assert(s =~= t.push(s.last()));
        assert(s.contains(x) <==> t.contains(x) || s.last() == x) by {
            if s.contains(x) {
                let k = choose|k: int| 0 <= k < s.len() && s[k] == x;
                if k < t.len() {
                    assert(t[k] == x);
                }
            }
            if t.contains(x) {
                let k = choose|k: int| 0 <= k < t.len() && t[k] == x;
                assert(s[k] == x);
            }
            if s.last() == x {
                assert(s[s.len() - 1] == x);
            }
        }
        if pred(s.last()) {
            let f = t.filter(pred);
            let g = f.push(s.last());
            assert(s.filter(pred) == g);
            assert(g.contains(x) <==> f.contains(x) || s.last() == x) by {
                if g.contains(x) {
                    let k = choose|k: int| 0 <= k < g.len() && g[k] == x;
                    if k < f.len() {
                        assert(f[k] == x);
                    }
                }
                if f.contains(x) {
                    let k = choose|k: int| 0 <= k < f.len() && f[k] == x;
                    assert(g[k] == x);
                }
                if s.last() == x {
                    assert(g[g.len() - 1] == x);
                }
            }
        }
    }
}

/// Filtering keeps a list free of duplicates.
pub proof fn lemma_filter_no_duplicates(s: Seq<u64>, pred: spec_fn(u64) -> bool)
    requires
        s.no_duplicates(),
    ensures
        s.filter(pred).no_duplicates(),
    decreases s.len(),
{
    reveal(Seq::filter);
    if s.len() > 0 {
        let t = s.drop_last();
        lemma_filter_no_duplicates(t, pred);
        lemma_filter_contains(t, pred, s.last());
        if t.contains(s.last()) {
            let k = choose|k: int| 0 <= k < t.len() && t[k] == s.last();
            assert(s[k] == s[s.len() - 1]);
        }
        let f = t.filter(pred);
        if pred(s.last()) {
            assert(!f.contains(s.last()));
        }
    }
}

/// Removes every occurrence of `x`.
pub fn remove_value(list: &Vec<u64>, x: u64) -> (r: Vec<u64>)
    ensures
        r@ == without(list@, x),
        (r@.len() < list@.len()) == list@.contains(x),
{
    let ghost pred = other_than(x);
    let mut kept: Vec<u64> = Vec::new();
    let mut i: usize = 0;
    assert(list@.take(0).filter(pred) =~= Seq::<u64>::empty()) by {
        reveal(Seq::filter);
    }
    while i < list.len()
        invariant
            i <= list@.len(),
            pred == other_than(x),
            kept@ == list@.take(i as int).filter(pred),
            kept@.len() <= i,
            (kept@.len() < i) == list@.take(i as int).contains(x),
        decreases list@.len() - i,
    {
        proof {
            lemma_filter_step(list@, pred, i as int);
            let a = list@.take(i as int);
            let b = list@.take(i + 1);
            if b.contains(x) {
                let k = choose|k: int| 0 <= k < b.len() && b[k] == x;
                if k < i {
                    assert(a[k] == x);
                }
            }
            if a.contains(x) {
                let k = choose|k: int| 0 <= k < a.len() && a[k] == x;
                assert(b[k] == x);
            }
            assert(b[i as int] == list@[i as int]);
        }
        if list[i] != x {
            kept.push(list[i]);
        }
        i = i + 1;
    }
    assert(list@.take(i as int) =~= list@);
    kept
}

/// Removes everything that occurs in `gone`.
pub fn remove_all(list: &Vec<u64>, gone: &Vec<u64>) -> (r: Vec<u64>)
    ensures
        r@ == without_all(list@, gone@),
{
    let ghost pred = not_among(gone@);
    let mut kept: Vec<u64> = Vec::new();
    let mut i: usize = 0;
    assert(list@.take(0).filter(pred) =~= Seq::<u64>::empty()) by {
        reveal(Seq::filter);
    }
    while i < list.len()
        invariant
            i <= list@.len(),
            pred == not_among(gone@),
            kept@ == list@.take(i as int).filter(pred),
        decreases list@.len() - i,
    {
        proof {
            lemma_filter_step(list@, pred, i as int);
        }
        if !contains(gone, list[i]) {
            kept.push(list[i]);
        }
        i = i + 1;
    }
    assert(list@.take(i as int) =~= list@);
    kept
}

/// A copy of the list.
pub fn copy_list(list: &Vec<u64>) -> (r: Vec<u64>)
    ensures
        r@ == list@,
{
    let mut copy: Vec<u64> = Vec::new();
    let mut i: usize = 0;
    while i < list.len()
        invariant
            i <= list@.len(),
            copy@ == list@.take(i as int),
        decreases list@.len() - i,
    {
        copy.push(list[i]);
        assert(list@.take(i + 1) =~= list@.take(i as int).push(list@[i as int]));
        i = i + 1;
    }
    assert(list@.take(i as int) =~= list@);
    copy
}

/// A filter that every element passes changes nothing.
pub proof fn lemma_filter_all(s: Seq<u64>, pred: spec_fn(u64) -> bool)
    requires
        forall|x: u64| s.contains(x) ==> pred(x),
    ensures
        s.filter(pred) == s,
    decreases s.len(),
{
    reveal(Seq::filter);
    if s.len() > 0 {
        let t = s.drop_last();
        assert forall|x: u64| t.contains(x) implies pred(x) by {
            let k = choose|k: int| 0 <= k < t.len() && t[k] == x;
            assert(s[k] == x);
            assert(s.contains(x));
        }
        lemma_filter_all(t, pred);
        assert(s.contains(s[s.len() - 1]));
        assert(t.push(s.last()) =~= s);
    } else {
        assert(s.filter(pred) =~= s);
    }
}

/// A filter that no element passes leaves nothing.
pub proof fn lemma_filter_none(s: Seq<u64>, pred: spec_fn(u64) -> bool)
    requires
        forall|x: u64| s.contains(x) ==> !pred(x),
    ensures
        s.filter(pred).len() == 0,
{
    if s.filter(pred).len() > 0 {
        let x = s.filter(pred)[0];
        assert(s.filter(pred).contains(x));
        lemma_filter_contains(s, pred, x);
    }
}

/// What changing one element does to a filtered list: its length changes by whether the old
/// and the new element pass, and if both do, the new one takes the old one's place, which is
/// behind those before it that pass.
pub proof fn lemma_filter_update(s: Seq<u64>, p: spec_fn(u64) -> bool, i: int, x: u64)
    requires
        0 <= i < s.len(),
    ensures
        s.update(i, x).filter(p).len() + (if p(s[i]) {
            1int
        } else {
            0
        }) == s.filter(p).len() + (if p(x) {
            1int
        } else {
            0
        }),
        p(s[i]) && p(x) ==> {
            let k = s.take(i).filter(p).len() as int;
            &&& 0 <= k < s.filter(p).len()
            &&& s.filter(p)[k] == s[i]
            &&& s.update(i, x).filter(p) == s.filter(p).update(k, x)
        },
    decreases s.len(),
{
    reveal(Seq::filter);
    let t = s.drop_last();
    let u = s.update(i, x);
    if i == s.len() - 1 {
        assert(u.drop_last() =~= t);
        assert(s.take(i) =~= t);
        if p(s[i]) && p(x) {
            assert(u.filter(p) =~= s.filter(p).update(t.filter(p).len() as int, x));
        }
    } else {
        lemma_filter_update(t, p, i, x);
        assert(u.drop_last() =~= t.update(i, x));
        assert(t.take(i) =~= s.take(i));
        if p(s[i]) && p(x) {
            let k = s.take(i).filter(p).len() as int;
            assert(u.filter(p) =~= s.filter(p).update(k, x));
        }
    }
}

/// In a list without duplicates, each value is first found at its own place.
pub proof fn lemma_position_of_member(s: Seq<u64>, i: int)
    requires
        s.no_duplicates(),
        0 <= i < s.len(),
    ensures
        first_position(s, s[i]) == Some(i),
{
    lemma_is_first_position(s, s[i], i);
}

/// What is left of a list of anything is what was in it and meets the condition.
pub proof fn lemma_filter_members<A>(s: Seq<A>, pred: spec_fn(A) -> bool, x: A)
    ensures
        s.filter(pred).contains(x) <==> s.contains(x) && pred(x),
    decreases s.len(),
{
    reveal(Seq::filter);
    if s.len() > 0 {
        let t = s.drop_last();
        let kept = t.filter(pred);
        lemma_filter_members(t, pred, x);
        assert(s.contains(x) <==> t.contains(x) || s.last() == x) by {
            if s.contains(x) {
                let k = choose|k: int| 0 <= k < s.len() && s[k] == x;
                if k < s.len() - 1 {
                    assert(t[k] == x);
                }
            }
            if t.contains(x) {
                let k = choose|k: int| 0 <= k < t.len() && t[k] == x;
                assert(s[k] == x);
            }
            assert(s[s.len() - 1] == s.last());
        }
        if pred(s.last()) {
            let grown = kept.push(s.last());
            if grown.contains(x) {
                let k = choose|k: int| 0 <= k < grown.len() && grown[k] == x;
                if k < kept.len() {
                    assert(kept[k] == x);
                }
            }
            if kept.contains(x) {
                let k = choose|k: int| 0 <= k < kept.len() && kept[k] == x;
                assert(grown[k] == x);
            }
            assert(grown[kept.len() as int] == s.last());
        }
    }
}

} // verus!
