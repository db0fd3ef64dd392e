//! Deterministic ordering of catalog records. Every listing the catalog
//! returns is sorted ascending by a name key; the exact arrangement is
//! pinned by an insertion sort defined at the specification level, which
//! the executable sort is proved to compute.

use vstd::prelude::*;
use vstd::multiset::Multiset;
use crate::text::{lex_leq, str_lex_leq, lemma_lex_leq_total, lemma_lex_leq_transitive};

verus! {

/// A record the catalog orders by a name key.
pub trait NameKeyed: Sized {
    /// The sort key of the record.
    spec fn key(&self) -> Seq<char>;

    /// Hands out the key for comparison.
    fn key_ref(&self) -> (r: &str)
        ensures
            r@ == self.key(),
    ;
}

/// The sequence is ascending in the catalog order on keys.
pub open spec fn sorted_by_name<T: NameKeyed>(s: Seq<T>) -> bool {
    forall|i: int, j: int| 0 <= i < j < s.len() ==> lex_leq(s[i].key(), s[j].key())
}

/// Where the sort places a new record: before the first element whose
/// key orders strictly after the new record's key.
pub open spec fn spec_insert<T: NameKeyed>(s: Seq<T>, x: T) -> Seq<T>
    decreases s.len(),
{
    if s.len() == 0 {
        seq![x]
    } else if lex_leq(s[0].key(), x.key()) {
        seq![s[0]] + spec_insert(s.drop_first(), x)
    } else {
        seq![x] + s
    }
}

/// The exact sequence a scan returns for a given collection of records:
/// each record inserted in turn into the sorted arrangement of the rest.
pub open spec fn spec_sort<T: NameKeyed>(s: Seq<T>) -> Seq<T>
    decreases s.len(),
{
    if s.len() == 0 {
        Seq::empty()
    } else {
        spec_insert(spec_sort(s.drop_first()), s[0])
    }
}

/// A one-record sequence carries exactly that record.
proof fn lemma_singleton_multiset<T>(x: T)
    ensures
        seq![x].to_multiset() == Multiset::<T>::empty().insert(x),
{
    broadcast use vstd::seq_lib::group_to_multiset_ensures;
    broadcast use vstd::multiset::group_multiset_axioms;

    assert(Seq::<T>::empty().to_multiset() =~= Multiset::<T>::empty()) by {
        assert forall|a: T| Seq::<T>::empty().to_multiset().count(a) == 0 by {
            assert(!Seq::<T>::empty().contains(a));
        }
    }
    assert(Seq::<T>::empty().push(x) =~= seq![x]);
    assert(seq![x].to_multiset() =~= Multiset::<T>::empty().insert(x));
}

/// Inserting a record into a sorted sequence keeps it sorted, grows it
/// by one, and adds exactly that record to its contents.
pub proof fn lemma_spec_insert_props<T: NameKeyed>(s: Seq<T>, x: T)
    requires
        sorted_by_name(s),
    ensures
        sorted_by_name(spec_insert(s, x)),
        spec_insert(s, x).to_multiset() == s.to_multiset().insert(x),
        spec_insert(s, x).len() == s.len() + 1,
    decreases s.len(),
{
    broadcast use vstd::seq_lib::group_to_multiset_ensures;
    broadcast use vstd::multiset::group_multiset_axioms;

    if s.len() == 0 {
        lemma_singleton_multiset(x);
        assert(s.to_multiset() =~= Multiset::<T>::empty()) by {
            assert forall|a: T| s.to_multiset().count(a) == 0 by {
                assert(!s.contains(a));
            }
        }
        assert(spec_insert(s, x).to_multiset() =~= s.to_multiset().insert(x));
    } else if lex_leq(s[0].key(), x.key()) {
        let d = s.drop_first();
        assert(sorted_by_name(d)) by {
            assert forall|i: int, j: int| 0 <= i < j < d.len() implies lex_leq(
                d[i].key(),
                d[j].key(),
            ) by {
                assert(d[i] == s[i + 1]);
                assert(d[j] == s[j + 1]);
            }
        }
        lemma_spec_insert_props(d, x);
        let rest = spec_insert(d, x);
        let t = seq![s[0]] + rest;
        assert(spec_insert(s, x) == t);
        assert forall|i: int, j: int| 0 <= i < j < t.len() implies lex_leq(
            t[i].key(),
            t[j].key(),
        ) by {
            if i == 0 {
                let e = rest[j - 1];
                assert(rest.contains(e));
                assert(rest.to_multiset().count(e) > 0);
                if e == x {
                    assert(lex_leq(s[0].key(), x.key()));
                } else {
                    assert(d.to_multiset().insert(x).count(e) > 0);
                    assert(d.to_multiset().count(e) > 0);
                    assert(d.contains(e));
                    let k = choose|k: int| 0 <= k < d.len() && d[k] == e;
                    assert(s[k + 1] == e);
                    assert(lex_leq(s[0].key(), s[k + 1].key()));
                }
            } else {
                assert(rest[i - 1] == t[i]);
                assert(rest[j - 1] == t[j]);
            }
        }
        vstd::seq_lib::lemma_multiset_commutative(seq![s[0]], rest);
        lemma_singleton_multiset(s[0]);
        assert(s =~= seq![s[0]] + d);
        vstd::seq_lib::lemma_multiset_commutative(seq![s[0]], d);
        assert(t.to_multiset() =~= s.to_multiset().insert(x));
    } else {
        lemma_lex_leq_total(s[0].key(), x.key());
        let t = seq![x] + s;
        assert(spec_insert(s, x) == t);
        assert forall|i: int, j: int| 0 <= i < j < t.len() implies lex_leq(
            t[i].key(),
            t[j].key(),
        ) by {
            if i == 0 {
                assert(t[j] == s[j - 1]);
                if j == 1 {
                    assert(lex_leq(x.key(), s[0].key()));
                } else {
                    assert(lex_leq(s[0].key(), s[j - 1].key()));
                    lemma_lex_leq_transitive(x.key(), s[0].key(), s[j - 1].key());
                }
            } else {
                assert(s[i - 1] == t[i]);
                assert(s[j - 1] == t[j]);
            }
        }
        vstd::seq_lib::lemma_multiset_commutative(seq![x], s);
        lemma_singleton_multiset(x);
        assert(t.to_multiset() =~= s.to_multiset().insert(x));
    }
}

/// The sorted arrangement of any record collection is ascending by name
/// and holds exactly the records of the collection, no more, no fewer.
pub proof fn lemma_spec_sort_props<T: NameKeyed>(s: Seq<T>)
    ensures
        sorted_by_name(spec_sort(s)),
        spec_sort(s).to_multiset() == s.to_multiset(),
        spec_sort(s).len() == s.len(),
    decreases s.len(),
{
    broadcast use vstd::seq_lib::group_to_multiset_ensures;
    broadcast use vstd::multiset::group_multiset_axioms;

    if s.len() == 0 {
        assert(sorted_by_name(spec_sort(s)));
    } else {
        let d = s.drop_first();
        lemma_spec_sort_props(d);
        lemma_spec_insert_props(spec_sort(d), s[0]);
        lemma_singleton_multiset(s[0]);
        assert(s =~= seq![s[0]] + d);
        vstd::seq_lib::lemma_multiset_commutative(seq![s[0]], d);
        assert(spec_sort(s).to_multiset() =~= s.to_multiset());
    }
}

/// Where the executable scan finds the insertion point: if every key
/// before position `i` orders up to the new key and the key at `i` (if
/// any) orders strictly after it, the sort splices the record in at `i`.
proof fn lemma_spec_insert_at<T: NameKeyed>(s: Seq<T>, x: T, i: int)
    requires
        0 <= i <= s.len(),
        forall|k: int| 0 <= k < i ==> lex_leq(s[k].key(), x.key()),
        i < s.len() ==> !lex_leq(s[i].key(), x.key()),
    ensures
        spec_insert(s, x) == s.subrange(0, i) + seq![x] + s.subrange(i, s.len() as int),
    decreases i,
{
    if i == 0 {
        if s.len() == 0 {
            assert(spec_insert(s, x) =~= s.subrange(0, 0) + seq![x] + s.subrange(0, 0));
        } else {
            assert(spec_insert(s, x) =~= s.subrange(0, 0) + seq![x] + s.subrange(
                0,
                s.len() as int,
            ));
        }
    } else {
        let d = s.drop_first();
        assert(lex_leq(s[0].key(), x.key()));
        assert forall|k: int| 0 <= k < i - 1 implies lex_leq(d[k].key(), x.key()) by {
            assert(d[k] == s[k + 1]);
        }
        assert(i - 1 < d.len() ==> !lex_leq(d[i - 1].key(), x.key())) by {
            if i - 1 < d.len() {
                assert(d[i - 1] == s[i]);
            }
        }
        lemma_spec_insert_at(d, x, i - 1);
        assert(spec_insert(s, x) =~= s.subrange(0, i) + seq![x] + s.subrange(
            i,
            s.len() as int,
        )) by {
            assert(spec_insert(s, x) == seq![s[0]] + (d.subrange(0, i - 1) + seq![x]
                + d.subrange(i - 1, d.len() as int)));
            assert forall|k: int| 0 <= k < d.len() implies d[k] == s[k + 1] by {}
        }
    }
}

/// Splices a record into an already sorted vector at its sort position.
fn insert_sorted<T: NameKeyed>(out: &mut Vec<T>, x: T)
    requires
        sorted_by_name(old(out)@),
    ensures
        final(out)@ == spec_insert(old(out)@, x),
{
    let ghost s = old(out)@;
    let key = x.key_ref();
    let mut i: usize = 0;
    loop
        invariant
            i <= s.len(),
            out@ == s,
            key@ == x.key(),
            forall|k: int| 0 <= k < i ==> lex_leq(s[k].key(), x.key()),
        ensures
            i <= s.len(),
            out@ == s,
            forall|k: int| 0 <= k < i ==> lex_leq(s[k].key(), x.key()),
            i < s.len() ==> !lex_leq(s[i as int].key(), x.key()),
        decreases s.len() - i,
    {
        if i == out.len() {
            break;
        }
        let cur: &T = &out[i];
        if !str_lex_leq(cur.key_ref(), key) {
            break;
        }
        i = i + 1;
    }
    proof {
        lemma_spec_insert_at(s, x, i as int);
    }
    out.insert(i, x);
    proof {
        assert(s.insert(i as int, x) =~= s.subrange(0, i as int) + seq![x] + s.subrange(
            i as int,
            s.len() as int,
        ));
    }
}

/// Sorts the records of a vector ascending by name key; the result is
/// exactly the specification-level sorted arrangement of its contents.
pub fn sort_by_name<T: NameKeyed>(v: Vec<T>) -> (r: Vec<T>)
    ensures
        r@ == spec_sort(v@),
{
    let ghost orig = v@;
    let mut src = v;
    let mut out: Vec<T> = Vec::new();
    proof {
        assert(orig.subrange(orig.len() as int, orig.len() as int) =~= Seq::<T>::empty());
        assert(orig.subrange(0, orig.len() as int) =~= orig);
    }
    while src.len() > 0
        invariant
            src@.len() <= orig.len(),
            src@ == orig.subrange(0, src@.len() as int),
            out@ == spec_sort(orig.subrange(src@.len() as int, orig.len() as int)),
        decreases src@.len(),
    {
        let ghost n = src@.len() as int;
        let x = src.pop().unwrap();
        proof {
            assert(x == orig[n - 1]);
            assert(src@ =~= orig.subrange(0, n - 1));
            let tail = orig.subrange(n - 1, orig.len() as int);
            assert(tail[0] == orig[n - 1]);
            assert(tail.drop_first() =~= orig.subrange(n, orig.len() as int));
            lemma_spec_sort_props(tail.drop_first());
            assert(spec_sort(tail) == spec_insert(spec_sort(tail.drop_first()), x));
        }
        insert_sorted(&mut out, x);
    }
    proof {
        assert(orig.subrange(0, orig.len() as int) =~= orig);
    }
    out
}

} // verus!
