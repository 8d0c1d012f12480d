//! Facts about sequences that several modules use.

use vstd::prelude::*;

verus! {

/// The elements of `s` without repetitions, in order of first appearance.
pub open spec fn distinct<A>(s: Seq<A>) -> Seq<A>
    decreases s.len(),
{
    if s.len() == 0 {
        Seq::empty()
    } else {
        let rest = distinct(s.drop_last());
        if rest.contains(s.last()) {
            rest
        } else {
            rest.push(s.last())
        }
    }
}

/// Dropping repetitions keeps every element, and keeps each once.
pub proof fn lemma_distinct<A>(s: Seq<A>)
    ensures
        distinct(s).no_duplicates(),
        forall|x: A| #[trigger] distinct(s).contains(x) <==> s.contains(x),
        distinct(s).len() <= s.len(),
        s.len() > 0 ==> distinct(s).len() > 0,
    decreases s.len(),
{
    if s.len() > 0 {
        let short = s.drop_last();
        let rest = distinct(short);
        lemma_distinct(short);
        assert forall|x: A| #[trigger] distinct(s).contains(x) <==> s.contains(x) by {
            if s.contains(x) {
                let i = choose|i: int| 0 <= i < s.len() && s[i] == x;
                if i < short.len() {
                    assert(short[i] == x);
                    assert(rest.contains(x));
                    let j = choose|j: int| 0 <= j < rest.len() && rest[j] == x;
                    assert(distinct(s)[j] == x);
                } else if !rest.contains(x) {
                    assert(distinct(s).last() == x);
                }
            }
            if distinct(s).contains(x) {
                let j = choose|j: int| 0 <= j < distinct(s).len() && distinct(s)[j] == x;
                if j < rest.len() {
                    assert(rest[j] == x);
                    assert(rest.contains(x));
                    assert(short.contains(x));
                    let i = choose|i: int| 0 <= i < short.len() && short[i] == x;
                    assert(s[i] == x);
                } else {
                    assert(s.last() == x);
                }
            }
        }
    }
}

/// Dropping repetitions keeps the order of first appearance: an element that is kept earlier
/// occurs where one that is kept later has not occurred yet.
pub proof fn lemma_distinct_order<A>(s: Seq<A>, a: int, b: int) -> (i: int)
    requires
        0 <= a < b < distinct(s).len(),
    ensures
        0 <= i < s.len(),
        s[i] == distinct(s)[a],
        forall|j: int| 0 <= j <= i ==> s[j] != distinct(s)[b],
    decreases s.len(),
{
    let short = s.drop_last();
    let rest = distinct(short);
    lemma_distinct(short);
    if b < rest.len() {
        let i = lemma_distinct_order(short, a, b);
        assert(s[i] == short[i]);
        assert forall|j: int| 0 <= j <= i implies s[j] != distinct(s)[b] by {
            assert(short[j] == s[j]);
        }
        i
    } else {
        assert(rest.contains(rest[a]));
        let i = choose|i: int| 0 <= i < short.len() && short[i] == rest[a];
        assert(s[i] == short[i]);
        assert forall|j: int| 0 <= j <= i implies s[j] != distinct(s)[b] by {
            assert(short[j] == s[j]);
            assert(short.contains(s[j]));
        }
        i
    }
}

/// One more element of a sequence, seen by [`distinct`].
pub proof fn lemma_distinct_take<A>(s: Seq<A>, i: int)
    requires
        0 <= i < s.len(),
    ensures
        distinct(s.take(i + 1)) == if distinct(s.take(i)).contains(s[i]) {
            distinct(s.take(i))
        } else {
            distinct(s.take(i)).push(s[i])
        },
{
    assert(s.take(i + 1).drop_last() =~= s.take(i));
}

/// One more element of a sequence, seen by a filter.
pub proof fn lemma_filter_take<A>(s: Seq<A>, f: spec_fn(A) -> bool, i: int)
    requires
        0 <= i < s.len(),
    ensures
        s.take(i + 1).filter(f) == if f(s[i]) {
            s.take(i).filter(f).push(s[i])
        } else {
            s.take(i).filter(f)
        },
        s.take(i).filter(f).len() <= i,
{
    reveal(Seq::filter);
    assert(s.take(i + 1).drop_last() =~= s.take(i));
    s.take(i).lemma_filter_len(f);
}

/// A filtering map is empty exactly where it drops every element.
pub proof fn lemma_filter_map_empty<A, B>(s: Seq<A>, f: spec_fn(A) -> Option<B>)
    ensures
        s.filter_map(f).len() == 0 <==> forall|i: int|
            0 <= i < s.len() ==> f(#[trigger] s[i]) is None,
    decreases s.len(),
{
    if s.len() > 0 {
        let short = s.drop_last();
        lemma_filter_map_empty(short, f);
        if s.filter_map(f).len() == 0 {
            assert forall|i: int| 0 <= i < s.len() implies f(#[trigger] s[i]) is None by {
                if i < short.len() {
                    assert(short[i] == s[i]);
                }
            }
        } else if f(s.last()) is None {
            let i = choose|i: int| 0 <= i < short.len() && f(#[trigger] short[i]) is Some;
            assert(s[i] == short[i]);
        }
    }
}

/// A flattened map is empty exactly where every part of it is.
pub proof fn lemma_flat_map_empty<A, B>(s: Seq<A>, f: spec_fn(A) -> Seq<B>)
    ensures
        s.flat_map(f).len() == 0 <==> forall|i: int|
            0 <= i < s.len() ==> f(#[trigger] s[i]).len() == 0,
    decreases s.len(),
{
    if s.len() > 0 {
        let short = s.drop_last();
        lemma_flat_map_empty(short, f);
        short.lemma_flat_map_push(f, s.last());
        assert(short.push(s.last()) =~= s);
        if s.flat_map(f).len() == 0 {
            assert forall|i: int| 0 <= i < s.len() implies f(#[trigger] s[i]).len() == 0 by {
                if i < short.len() {
                    assert(short[i] == s[i]);
                }
            }
        } else if f(s.last()).len() == 0 {
            let i = choose|i: int| 0 <= i < short.len() && f(#[trigger] short[i]).len() != 0;
            assert(s[i] == short[i]);
        }
    } else {
        assert(s.map_values(f) =~= Seq::empty());
    }
}

/// The sizes of the parts of `s` that belong to the keys, added up.
pub open spec fn total<A, K>(s: Seq<A>, keys: Seq<K>, size: spec_fn(Seq<A>, K) -> nat) -> nat
    decreases keys.len(),
{
    if keys.len() == 0 {
        0
    } else {
        total(s, keys.drop_last(), size) + size(s, keys.last())
    }
}

/// Whether `size` counts, for each key, the elements that have it.
pub open spec fn counts_by<A, K>(
    size: spec_fn(Seq<A>, K) -> nat,
    key: spec_fn(A) -> Option<K>,
) -> bool {
    &&& forall|k: K| #[trigger] size(Seq::empty(), k) == 0
    &&& forall|s: Seq<A>, k: K|
        s.len() > 0 ==> #[trigger] size(s, k) == size(s.drop_last(), k) + if key(s.last())
            == Some(k) {
            1nat
        } else {
            0nat
        }
}

/// One more element adds one to the total of the keys that it has, and nothing else.
proof fn lemma_total_step<A, K>(
    s: Seq<A>,
    keys: Seq<K>,
    key: spec_fn(A) -> Option<K>,
    size: spec_fn(Seq<A>, K) -> nat,
)
    requires
        s.len() > 0,
        counts_by(size, key),
        keys.no_duplicates(),
    ensures
        total(s, keys, size) == total(s.drop_last(), keys, size) + if (key(s.last()) matches Some(
            k,
        ) && keys.contains(k)) {
            1nat
        } else {
            0nat
        },
    decreases keys.len(),
{
    if keys.len() > 0 {
        let short = keys.drop_last();
        lemma_total_step(s, short, key, size);
        if let Some(k) = key(s.last()) {
            if short.contains(k) {
                let j = choose|j: int| 0 <= j < short.len() && short[j] == k;
                assert(keys[j] == k);
                assert(keys.last() != k);
            }
            if keys.contains(k) {
                let j = choose|j: int| 0 <= j < keys.len() && keys[j] == k;
                if j < short.len() {
                    assert(short[j] == k);
                } else {
                    assert(keys.last() == k);
                }
            } else {
                assert(keys[keys.len() - 1] != k);
            }
        }
    }
}

/// The parts that belong to keys which are all different, and among which every key that occurs
/// is, together hold each element that has a key once.
pub proof fn lemma_parts_add_up<A, K>(
    s: Seq<A>,
    keys: Seq<K>,
    key: spec_fn(A) -> Option<K>,
    size: spec_fn(Seq<A>, K) -> nat,
)
    requires
        counts_by(size, key),
        keys.no_duplicates(),
        forall|i: int|
            0 <= i < s.len() ==> (key(#[trigger] s[i]) matches Some(k) ==> keys.contains(k)),
    ensures
        total(s, keys, size) == s.filter(|a: A| key(a) is Some).len(),
    decreases s.len(),
{
    reveal(Seq::filter);
    if s.len() > 0 {
        let short = s.drop_last();
        assert forall|i: int| 0 <= i < short.len() implies (key(#[trigger] short[i]) matches Some(
            k,
        ) ==> keys.contains(k)) by {
            assert(short[i] == s[i]);
        }
        lemma_parts_add_up(short, keys, key, size);
        lemma_total_step(s, keys, key, size);
        assert(s[s.len() - 1] == s.last());
    } else {
        assert(s =~= Seq::empty());
        lemma_total_of_nothing(keys, key, size);
    }
}

proof fn lemma_total_of_nothing<A, K>(
    keys: Seq<K>,
    key: spec_fn(A) -> Option<K>,
    size: spec_fn(Seq<A>, K) -> nat,
)
    requires
        counts_by(size, key),
    ensures
        total(Seq::<A>::empty(), keys, size) == 0,
    decreases keys.len(),
{
    if keys.len() > 0 {
        lemma_total_of_nothing(keys.drop_last(), key, size);
    }
}

/// Whether `places` are the positions of the wanted elements: all of them, each once, in order.
pub open spec fn picks<A>(s: Seq<A>, wanted: spec_fn(A) -> bool, places: Seq<int>) -> bool {
    &&& forall|k: int|
        0 <= k < places.len() ==> 0 <= (#[trigger] places[k]) < s.len() && wanted(s[places[k]])
    &&& forall|k: int, l: int|
        0 <= k < l < places.len() ==> (#[trigger] places[k]) < (#[trigger] places[l])
    &&& forall|i: int| 0 <= i < s.len() && wanted(#[trigger] s[i]) ==> places.contains(i)
}

/// Filtering keeps the wanted elements, all of them and in order.
pub proof fn lemma_filter_picks<A>(s: Seq<A>, f: spec_fn(A) -> bool) -> (places: Seq<int>)
    ensures
        picks(s, f, places),
        s.filter(f).len() == places.len(),
        forall|k: int| 0 <= k < places.len() ==> s.filter(f)[k] == s[#[trigger] places[k]],
    decreases s.len(),
{
    reveal(Seq::filter);
    if s.len() == 0 {
        Seq::empty()
    } else {
        let short = s.drop_last();
        let rest = lemma_filter_picks(short, f);
        let places = if f(s.last()) {
            rest.push(s.len() - 1)
        } else {
            rest
        };
        assert forall|k: int| 0 <= k < places.len() implies 0 <= (#[trigger] places[k]) < s.len()
            && f(s[places[k]]) && s.filter(f)[k] == s[places[k]] by {
            if k < rest.len() {
                assert(places[k] == rest[k]);
                assert(short[rest[k]] == s[rest[k]]);
            }
        }
        assert forall|k: int, l: int| 0 <= k < l < places.len() implies (#[trigger] places[k]) < (
        #[trigger] places[l]) by {
            assert(places[k] == rest[k]);
            if l < rest.len() {
                assert(places[l] == rest[l]);
            }
        }
        assert forall|i: int| 0 <= i < s.len() && f(#[trigger] s[i]) implies places.contains(
            i,
        ) by {
            if i < short.len() {
                assert(short[i] == s[i]);
                assert(rest.contains(i));
                let k = choose|k: int| 0 <= k < rest.len() && rest[k] == i;
                assert(places[k] == i);
            } else {
                assert(places[places.len() - 1] == i);
            }
        }
        places
    }
}

/// A filtering map yields one element for each that has a value, all of them and in order.
pub proof fn lemma_filter_map_picks<A, B>(s: Seq<A>, f: spec_fn(A) -> Option<B>) -> (places: Seq<
    int,
>)
    ensures
        picks(s, |a: A| f(a) is Some, places),
        s.filter_map(f).len() == places.len(),
        forall|k: int|
            0 <= k < places.len() ==> Some(s.filter_map(f)[k]) == f(s[#[trigger] places[k]]),
    decreases s.len(),
{
    let wanted = |a: A| f(a) is Some;
    if s.len() == 0 {
        Seq::empty()
    } else {
        let short = s.drop_last();
        let rest = lemma_filter_map_picks(short, f);
        let places = if f(s.last()) is Some {
            rest.push(s.len() - 1)
        } else {
            rest
        };
        s.lemma_filter_map_take_succ(f, s.len() - 1);
        assert(s.take(s.len() - 1) =~= short);
        assert(s.take(s.len() as int) =~= s);
        assert forall|k: int| 0 <= k < places.len() implies 0 <= (#[trigger] places[k]) < s.len()
            && wanted(s[places[k]]) && Some(s.filter_map(f)[k]) == f(s[places[k]]) by {
            if k < rest.len() {
                assert(places[k] == rest[k]);
                assert(short[rest[k]] == s[rest[k]]);
            }
        }
        assert forall|k: int, l: int| 0 <= k < l < places.len() implies (#[trigger] places[k]) < (
        #[trigger] places[l]) by {
            assert(places[k] == rest[k]);
            if l < rest.len() {
                assert(places[l] == rest[l]);
            }
        }
        assert forall|i: int| 0 <= i < s.len() && wanted(#[trigger] s[i]) implies places.contains(
            i,
        ) by {
            if i < short.len() {
                assert(short[i] == s[i]);
                assert(rest.contains(i));
                let k = choose|k: int| 0 <= k < rest.len() && rest[k] == i;
                assert(places[k] == i);
            } else {
                assert(places[places.len() - 1] == i);
            }
        }
        places
    }
}

/// Different positions of wanted elements are no more than all of them.
pub proof fn lemma_picks_bound<A>(
    s: Seq<A>,
    wanted: spec_fn(A) -> bool,
    places: Seq<int>,
    some: Seq<int>,
)
    requires
        picks(s, wanted, places),
        some.no_duplicates(),
        forall|k: int|
            0 <= k < some.len() ==> 0 <= (#[trigger] some[k]) < s.len() && wanted(s[some[k]]),
    ensures
        some.len() <= places.len(),
        places.no_duplicates(),
{
    assert forall|k: int, l: int|
        0 <= k < places.len() && 0 <= l < places.len() && k != l implies places[k]
        != places[l] by {
        if k < l {
            assert(places[k] < places[l]);
        } else {
            assert(places[l] < places[k]);
        }
    }
    some.unique_seq_to_set();
    places.unique_seq_to_set();
    assert forall|i: int| some.to_set().contains(i) implies places.to_set().contains(i) by {
        let k = choose|k: int| 0 <= k < some.len() && some[k] == i;
        assert(wanted(s[some[k]]));
        assert(places.contains(i));
    }
    vstd::seq_lib::seq_to_set_is_finite(places);
    vstd::set_lib::lemma_len_subset(some.to_set(), places.to_set());
}

} // verus!
