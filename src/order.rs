//! Lexicographic order on byte strings, the order of map keys on the wire.
use vstd::prelude::*;

verus! {

/// `a` sorts before `b`: at the first byte where they differ `a`'s is
/// smaller, or `a` is a proper prefix of `b`.
pub open spec fn lex_lt(a: Seq<u8>, b: Seq<u8>) -> bool
    decreases a.len(),
{
    if a.len() == 0 {
        b.len() > 0
    } else if b.len() == 0 {
        false
    } else if a[0] != b[0] {
        a[0] < b[0]
    } else {
        lex_lt(a.subrange(1, a.len() as int), b.subrange(1, b.len() as int))
    }
}

pub proof fn lemma_lex_irreflexive(a: Seq<u8>)
    ensures
        !lex_lt(a, a),
    decreases a.len(),
{
    if a.len() > 0 {
        lemma_lex_irreflexive(a.subrange(1, a.len() as int));
    }
}

pub proof fn lemma_lex_asymmetric(a: Seq<u8>, b: Seq<u8>)
    ensures
        !(lex_lt(a, b) && lex_lt(b, a)),
    decreases a.len(),
{
    if a.len() > 0 && b.len() > 0 && a[0] == b[0] {
        lemma_lex_asymmetric(a.subrange(1, a.len() as int), b.subrange(1, b.len() as int));
    }
}

pub proof fn lemma_lex_transitive(a: Seq<u8>, b: Seq<u8>, c: Seq<u8>)
    requires
        lex_lt(a, b),
        lex_lt(b, c),
    ensures
        lex_lt(a, c),
    decreases a.len(),
{
    if a.len() > 0 && b.len() > 0 && c.len() > 0 && a[0] == b[0] && b[0] == c[0] {
        lemma_lex_transitive(
            a.subrange(1, a.len() as int),
            b.subrange(1, b.len() as int),
            c.subrange(1, c.len() as int),
        );
    }
}

pub proof fn lemma_lex_total(a: Seq<u8>, b: Seq<u8>)
    requires
        a != b,
    ensures
        lex_lt(a, b) || lex_lt(b, a),
    decreases a.len(),
{
    if a.len() == 0 {
        assert(b.len() != 0) by {
            if b.len() == 0 {
                assert(a =~= b);
            }
        }
    } else if b.len() > 0 && a[0] == b[0] {
        let ta = a.subrange(1, a.len() as int);
        let tb = b.subrange(1, b.len() as int);
        if ta == tb {
            assert(a =~= seq![a[0]] + ta);
            assert(b =~= seq![b[0]] + tb);
        } else {
            lemma_lex_total(ta, tb);
        }
    }
}

pub fn lex_less(a: &[u8], b: &[u8]) -> (r: bool)
    ensures
        r == lex_lt(a@, b@),
    decreases a@.len(),
{
    if a.len() == 0 {
        b.len() > 0
    } else if b.len() == 0 {
        false
    } else if a[0] != b[0] {
        a[0] < b[0]
    } else {
        lex_less(
            vstd::slice::slice_subrange(a, 1, a.len()),
            vstd::slice::slice_subrange(b, 1, b.len()),
        )
    }
}

pub fn bytes_equal(a: &[u8], b: &[u8]) -> (r: bool)
    ensures
        r == (a@ == b@),
{
    if a.len() != b.len() {
        return false;
    }
    let mut i: usize = 0;
    while i < a.len()
        invariant
            0 <= i <= a@.len(),
            a@.len() == b@.len(),
            forall|j: int| 0 <= j < i ==> a@[j] == b@[j],
        decreases a@.len() - i,
    {
        if a[i] != b[i] {
            return false;
        }
        i = i + 1;
    }
    assert(a@ =~= b@);
    true
}

/// Keys strictly ascending: each key once, in order.
pub open spec fn strictly_sorted<V>(s: Seq<(Seq<u8>, V)>) -> bool {
    forall|i: int, j: int| 0 <= i < j < s.len() ==> lex_lt(#[trigger] s[i].0, #[trigger] s[j].0)
}

/// Two key-sorted entry lists that hold the same entries are the same list:
/// the order in which entries were added leaves no trace.
pub proof fn lemma_sorted_same_entries<V>(a: Seq<(Seq<u8>, V)>, b: Seq<(Seq<u8>, V)>)
    requires
        strictly_sorted(a),
        strictly_sorted(b),
        a.to_set() == b.to_set(),
    ensures
        a == b,
    decreases a.len(),
{
    assert forall|e| a.contains(e) <==> b.contains(e) by {
        assert(a.to_set().contains(e) == a.contains(e));
        assert(b.to_set().contains(e) == b.contains(e));
    }
    if a.len() == 0 {
        if b.len() > 0 {
            assert(b.contains(b[0]));
        }
        assert(a =~= b);
        return;
    }
    if b.len() == 0 {
        assert(a.contains(a[0]));
        return;
    }
    assert(a.contains(a[0]));
    assert(b.contains(b[0]));
    let i = choose|i: int| 0 <= i < a.len() && a[i] == b[0];
    let j = choose|j: int| 0 <= j < b.len() && b[j] == a[0];
    if i > 0 && j > 0 {
        assert(lex_lt(a[0].0, a[i].0));
        assert(lex_lt(b[0].0, b[j].0));
        lemma_lex_asymmetric(a[0].0, b[0].0);
    } else if i > 0 {
        assert(lex_lt(a[0].0, a[i].0));
        lemma_lex_irreflexive(a[0].0);
    } else if j > 0 {
        assert(lex_lt(b[0].0, b[j].0));
        lemma_lex_irreflexive(b[0].0);
    }
    assert(a[0] == b[0]);
    let ta = a.subrange(1, a.len() as int);
    let tb = b.subrange(1, b.len() as int);
    assert forall|e| ta.contains(e) <==> tb.contains(e) by {
        if ta.contains(e) {
            let k = choose|k: int| 0 <= k < ta.len() && ta[k] == e;
            assert(a[k + 1] == e);
            assert(lex_lt(a[0].0, a[k + 1].0));
            lemma_lex_irreflexive(a[0].0);
            assert(e != a[0]);
            assert(a.contains(e));
            let m = choose|m: int| 0 <= m < b.len() && b[m] == e;
            assert(m != 0);
            assert(tb[m - 1] == e);
        }
        if tb.contains(e) {
            let k = choose|k: int| 0 <= k < tb.len() && tb[k] == e;
            assert(b[k + 1] == e);
            assert(lex_lt(b[0].0, b[k + 1].0));
            lemma_lex_irreflexive(b[0].0);
            assert(e != b[0]);
            assert(b.contains(e));
            let m = choose|m: int| 0 <= m < a.len() && a[m] == e;
            assert(m != 0);
            assert(ta[m - 1] == e);
        }
    }
    assert(ta.to_set() =~= tb.to_set());
    lemma_sorted_same_entries(ta, tb);
    assert(a =~= seq![a[0]] + ta);
    assert(b =~= seq![b[0]] + tb);
}

/// An entry list after putting `(k, v)` in it: the entry of key `k`, if any,
/// gives way to the new one.
pub open spec fn entries_after_insert<V>(s: Seq<(Seq<u8>, V)>, k: Seq<u8>, v: V) -> Set<(Seq<u8>, V)> {
    s.to_set().filter(|e: (Seq<u8>, V)| e.0 != k).insert((k, v))
}

/// The entries of a list of key-value pairs read as a map: of several
/// pairs with one key, the last one counts.
pub open spec fn last_wins<V>(s: Seq<(Seq<u8>, V)>) -> Set<(Seq<u8>, V)>
    decreases s.len(),
{
    if s.len() == 0 {
        Set::empty()
    } else {
        let prev = last_wins(s.drop_last());
        prev.filter(|e: (Seq<u8>, V)| e.0 != s.last().0).insert(s.last())
    }
}

/// Placing a new key at its slot keeps the list sorted and adds the entry.
pub proof fn lemma_insert_at<V>(s: Seq<(Seq<u8>, V)>, i: int, k: Seq<u8>, v: V)
    requires
        strictly_sorted(s),
        0 <= i <= s.len(),
        forall|j: int| 0 <= j < i ==> lex_lt(#[trigger] s[j].0, k),
        i < s.len() ==> lex_lt(k, s[i].0),
    ensures
        strictly_sorted(s.insert(i, (k, v))),
        s.insert(i, (k, v)).to_set() == entries_after_insert(s, k, v),
{
    let r = s.insert(i, (k, v));
    assert forall|a: int, b: int| 0 <= a < b < r.len() implies lex_lt(#[trigger] r[a].0, #[trigger] r[b].0) by {
        if b < i {
        } else if b == i {
        } else if a == i {
            if b - 1 > i {
                lemma_lex_transitive(k, s[i].0, s[b - 1].0);
            }
        } else if a < i {
            if b - 1 > i {
                lemma_lex_transitive(k, s[i].0, s[b - 1].0);
            }
            lemma_lex_transitive(s[a].0, k, s[b - 1].0);
        } else {
        }
    }
    assert forall|j: int| 0 <= j < s.len() implies s[j].0 != k by {
        if j < i {
            lemma_lex_irreflexive(k);
        } else {
            if j > i {
                lemma_lex_transitive(k, s[i].0, s[j].0);
            }
            lemma_lex_irreflexive(k);
        }
    }
    assert forall|e| r.to_set().contains(e) <==> entries_after_insert(s, k, v).contains(e) by {
        if r.contains(e) {
            let j = choose|j: int| 0 <= j < r.len() && r[j] == e;
            if j < i {
                assert(s[j] == e);
            } else if j > i {
                assert(s[j - 1] == e);
            }
        }
        if s.contains(e) && e.0 != k {
            let j = choose|j: int| 0 <= j < s.len() && s[j] == e;
            if j < i {
                assert(r[j] == e);
            } else {
                assert(r[j + 1] == e);
            }
        }
        if e == (k, v) {
            assert(r[i] == e);
        }
    }
    assert(r.to_set() =~= entries_after_insert(s, k, v));
}

/// Replacing the entry of a key that is present keeps the list sorted.
pub proof fn lemma_replace_at<V>(s: Seq<(Seq<u8>, V)>, i: int, k: Seq<u8>, v: V)
    requires
        strictly_sorted(s),
        0 <= i < s.len(),
        s[i].0 == k,
    ensures
        strictly_sorted(s.update(i, (k, v))),
        s.update(i, (k, v)).to_set() == entries_after_insert(s, k, v),
{
    let r = s.update(i, (k, v));
    assert forall|a: int, b: int| 0 <= a < b < r.len() implies lex_lt(#[trigger] r[a].0, #[trigger] r[b].0) by {
        assert(lex_lt(s[a].0, s[b].0));
    }
    assert forall|e| r.to_set().contains(e) <==> entries_after_insert(s, k, v).contains(e) by {
        if r.contains(e) {
            let j = choose|j: int| 0 <= j < r.len() && r[j] == e;
            if j != i {
                assert(s[j] == e);
                if j < i {
                    assert(lex_lt(s[j].0, s[i].0));
                } else {
                    assert(lex_lt(s[i].0, s[j].0));
                }
                lemma_lex_irreflexive(k);
            }
        }
        if s.contains(e) && e.0 != k {
            let j = choose|j: int| 0 <= j < s.len() && s[j] == e;
            assert(j != i);
            assert(r[j] == e);
        }
        if e == (k, v) {
            assert(r[i] == e);
        }
    }
    assert(r.to_set() =~= entries_after_insert(s, k, v));
}

} // verus!
