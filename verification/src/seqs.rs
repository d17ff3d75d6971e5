//! Facts about sequences that the rest of the library leans on.

use vstd::prelude::*;

verus! {

/// The views of the items of `s`, in the same order.
pub open spec fn views_of<T: View>(s: Seq<T>) -> Seq<T::V> {
    s.map_values(|x: T| x@)
}

/// Pushing an item pushes its view.
pub proof fn lemma_views_push<T: View>(s: Seq<T>, x: T)
    ensures
        views_of(s.push(x)) == views_of(s).push(x@),
{
    assert(views_of(s.push(x)) =~= views_of(s).push(x@));
}

/// Removing the item at `i` removes its view.
pub proof fn lemma_views_remove<T: View>(s: Seq<T>, i: int)
    requires
        0 <= i < s.len(),
    ensures
        views_of(s.remove(i)) == views_of(s).remove(i),
{
    assert(views_of(s.remove(i)) =~= views_of(s).remove(i));
}

/// Replacing the item at `i` replaces its view.
pub proof fn lemma_views_update<T: View>(s: Seq<T>, i: int, x: T)
    requires
        0 <= i < s.len(),
    ensures
        views_of(s.update(i, x)) == views_of(s).update(i, x@),
{
    assert(views_of(s.update(i, x)) =~= views_of(s).update(i, x@));
}

/// One more item of a prefix.
pub proof fn lemma_take_push<T>(s: Seq<T>, i: int)
    requires
        0 <= i < s.len(),
    ensures
        s.take(i + 1) == s.take(i).push(s[i]),
{
    assert(s.take(i + 1) =~= s.take(i).push(s[i]));
}

/// Whether no two items of `s` have the same key.
pub open spec fn distinct_by<T, K>(s: Seq<T>, key: spec_fn(T) -> K) -> bool {
    forall|i: int, j: int| 0 <= i < j < s.len() ==> key(#[trigger] s[i]) != key(#[trigger] s[j])
}

/// The items of `s` that `hit` does not select.
pub open spec fn without<T>(s: Seq<T>, hit: spec_fn(T) -> bool) -> Seq<T> {
    s.filter(|x: T| !hit(x))
}

/// The index of the first item of `s` that `hit` selects.
pub open spec fn find_first<T>(s: Seq<T>, hit: spec_fn(T) -> bool) -> Option<int>
    decreases s.len(),
{
    if s.len() == 0 {
        None
    } else {
        match find_first(s.drop_last(), hit) {
            Some(i) => Some(i),
            None => if hit(s.last()) {
                Some(s.len() - 1)
            } else {
                None
            },
        }
    }
}

/// `s` with `x` in the place of the first item that `hit` selects, or with
/// `x` at its end where `hit` selects none.
pub open spec fn upsert<T>(s: Seq<T>, hit: spec_fn(T) -> bool, x: T) -> Seq<T> {
    match find_first(s, hit) {
        Some(i) => s.update(i, x),
        None => s.push(x),
    }
}

/// `find_first` finds the first selected item.
pub proof fn lemma_find_first<T>(s: Seq<T>, hit: spec_fn(T) -> bool)
    ensures
        match find_first(s, hit) {
            Some(i) => 0 <= i < s.len() && hit(s[i]) && forall|j: int|
                0 <= j < i ==> !hit(#[trigger] s[j]),
            None => forall|j: int| 0 <= j < s.len() ==> !hit(#[trigger] s[j]),
        },
    decreases s.len(),
{
    if s.len() > 0 {
        lemma_find_first(s.drop_last(), hit);
        assert(forall|j: int| 0 <= j < s.len() - 1 ==> s.drop_last()[j] == s[j]);
    }
}

/// An index that is known to be the first selected one is what `find_first` gives.
pub proof fn lemma_find_first_is<T>(s: Seq<T>, hit: spec_fn(T) -> bool, i: int)
    requires
        0 <= i < s.len(),
        hit(s[i]),
        forall|j: int| 0 <= j < i ==> !hit(#[trigger] s[j]),
    ensures
        find_first(s, hit) == Some(i),
{
    lemma_find_first(s, hit);
}

/// Where nothing is selected `find_first` gives nothing.
pub proof fn lemma_find_first_none<T>(s: Seq<T>, hit: spec_fn(T) -> bool)
    requires
        forall|j: int| 0 <= j < s.len() ==> !hit(#[trigger] s[j]),
    ensures
        find_first(s, hit).is_none(),
{
    lemma_find_first(s, hit);
}

/// Pushing an item leaves the first selected item the first, and makes the
/// pushed item the first where it is selected and none was.
pub proof fn lemma_find_first_push<T>(s: Seq<T>, hit: spec_fn(T) -> bool, x: T)
    ensures
        find_first(s.push(x), hit) == match find_first(s, hit) {
            Some(i) => Some(i),
            None => if hit(x) {
                Some(s.len() as int)
            } else {
                None
            },
        },
{
    assert(s.push(x).drop_last() =~= s);
}

/// Writing an item under its key keeps keys distinct.
pub proof fn lemma_upsert_distinct<T, K>(
    s: Seq<T>,
    key: spec_fn(T) -> K,
    hit: spec_fn(T) -> bool,
    x: T,
)
    requires
        distinct_by(s, key),
        forall|y: T| #[trigger] hit(y) <==> key(y) == key(x),
    ensures
        distinct_by(upsert(s, hit, x), key),
{
    lemma_find_first(s, hit);
    let after = upsert(s, hit, x);
    match find_first(s, hit) {
        Some(i) => {
            assert forall|a: int, b: int| 0 <= a < b < after.len() implies key(
                #[trigger] after[a],
            ) != key(#[trigger] after[b]) by {
                if a == i {
                    assert(key(s[i]) != key(s[b]));
                } else if b == i {
                    assert(key(s[a]) != key(s[i]));
                } else {
                    assert(key(s[a]) != key(s[b]));
                }
            }
        },
        None => {
            assert forall|a: int, b: int| 0 <= a < b < after.len() implies key(
                #[trigger] after[a],
            ) != key(#[trigger] after[b]) by {
                if b < s.len() {
                    assert(key(s[a]) != key(s[b]));
                } else {
                    assert(!hit(s[a]));
                }
            }
        },
    }
}

/// Two predicates that agree on every item of `s` filter it alike.
pub proof fn lemma_filter_ext<T>(s: Seq<T>, p: spec_fn(T) -> bool, q: spec_fn(T) -> bool)
    requires
        forall|i: int| 0 <= i < s.len() ==> p(#[trigger] s[i]) == q(s[i]),
    ensures
        s.filter(p) == s.filter(q),
    decreases s.len(),
{
    reveal(Seq::filter);
    if s.len() > 0 {
        assert(forall|j: int| 0 <= j < s.len() - 1 ==> s.drop_last()[j] == s[j]);
        lemma_filter_ext(s.drop_last(), p, q);
    }
}

/// Filtering twice is filtering by both predicates.
pub proof fn lemma_filter_filter<T>(s: Seq<T>, p: spec_fn(T) -> bool, q: spec_fn(T) -> bool)
    ensures
        s.filter(p).filter(q) == s.filter(|x: T| p(x) && q(x)),
    decreases s.len(),
{
    reveal(Seq::filter);
    if s.len() > 0 {
        lemma_filter_filter(s.drop_last(), p, q);
        if p(s.last()) {
            s.drop_last().filter(p).lemma_filter_push(s.last(), q);
        }
    }
}

/// A predicate that holds of every item filters nothing out.
pub proof fn lemma_filter_all<T>(s: Seq<T>, p: spec_fn(T) -> bool)
    requires
        forall|i: int| 0 <= i < s.len() ==> p(#[trigger] s[i]),
    ensures
        s.filter(p) == s,
    decreases s.len(),
{
    reveal(Seq::filter);
    if s.len() > 0 {
        assert(forall|j: int| 0 <= j < s.len() - 1 ==> s.drop_last()[j] == s[j]);
        lemma_filter_all(s.drop_last(), p);
        assert(s.drop_last().push(s.last()) =~= s);
    }
}

/// A predicate that fails of the item at `i` only filters that item out.
pub proof fn lemma_filter_remove<T>(s: Seq<T>, p: spec_fn(T) -> bool, i: int)
    requires
        0 <= i < s.len(),
        !p(s[i]),
        forall|j: int| 0 <= j < s.len() && j != i ==> p(#[trigger] s[j]),
    ensures
        s.filter(p) == s.remove(i),
    decreases s.len(),
{
    reveal(Seq::filter);
    if i == s.len() - 1 {
        assert(forall|j: int| 0 <= j < s.len() - 1 ==> s.drop_last()[j] == s[j]);
        lemma_filter_all(s.drop_last(), p);
        assert(s.drop_last() =~= s.remove(i));
    } else {
        assert(forall|j: int| 0 <= j < s.len() - 1 ==> s.drop_last()[j] == s[j]);
        lemma_filter_remove(s.drop_last(), p, i);
        assert(s.drop_last().remove(i).push(s.last()) =~= s.remove(i));
    }
}

/// An item is in the filtered sequence exactly if it is in the sequence and
/// the predicate holds of it.
pub proof fn lemma_filter_member<T>(s: Seq<T>, p: spec_fn(T) -> bool, x: T)
    ensures
        s.filter(p).contains(x) <==> s.contains(x) && p(x),
{
    broadcast use {Seq::lemma_filter_pred, Seq::lemma_filter_contains};

    if s.filter(p).contains(x) {
        s.lemma_filter_contains_rev(p, x);
        let k = choose|k: int| 0 <= k < s.filter(p).len() && s.filter(p)[k] == x;
        assert(p(s.filter(p)[k]));
    }
    if s.contains(x) && p(x) {
        let k = choose|k: int| 0 <= k < s.len() && s[k] == x;
        assert(s.filter(p).contains(s[k]));
    }
}

/// Filtering keeps keys distinct.
pub proof fn lemma_filter_distinct<T, K>(s: Seq<T>, key: spec_fn(T) -> K, p: spec_fn(T) -> bool)
    requires
        distinct_by(s, key),
    ensures
        distinct_by(s.filter(p), key),
    decreases s.len(),
{
    reveal(Seq::filter);
    if s.len() > 0 {
        let front = s.drop_last();
        assert(forall|j: int| 0 <= j < s.len() - 1 ==> front[j] == s[j]);
        lemma_filter_distinct(front, key, p);
        if p(s.last()) {
            let sub = front.filter(p);
            assert forall|i: int| 0 <= i < sub.len() implies key(#[trigger] sub[i]) != key(
                s.last(),
            ) by {
                assert(sub.contains(sub[i]));
                lemma_filter_member(front, p, sub[i]);
                let k = choose|k: int| 0 <= k < front.len() && front[k] == sub[i];
                assert(key(s[k]) != key(s[s.len() - 1]));
            }
        }
    }
}

/// One more item of a filtered prefix.
pub proof fn lemma_filter_take<T>(s: Seq<T>, p: spec_fn(T) -> bool, i: int)
    requires
        0 <= i < s.len(),
    ensures
        s.take(i + 1).filter(p) == if p(s[i]) {
            s.take(i).filter(p).push(s[i])
        } else {
            s.take(i).filter(p)
        },
{
    lemma_take_push(s, i);
    s.take(i).lemma_filter_push(s[i], p);
}

/// The empty prefix, filtered, is empty; the whole prefix is the sequence.
pub proof fn lemma_take_ends<T>(s: Seq<T>, p: spec_fn(T) -> bool)
    ensures
        s.take(0).filter(p) == Seq::<T>::empty(),
        s.take(s.len() as int) == s,
{
    reveal(Seq::filter);
    assert(s.take(0) =~= Seq::<T>::empty());
    assert(s.take(s.len() as int) =~= s);
}

/// What a scan that reads pages of `limit` items gives of `s`: all of it,
/// or nothing where a page holds no item.
pub open spec fn paged<T>(s: Seq<T>, limit: u32) -> Seq<T> {
    if limit == 0 {
        Seq::empty()
    } else {
        s
    }
}

/// One step of a sweep that goes through `s` and deletes, by its key, every
/// item that is not to be kept: after the item at `i` the store holds the
/// kept items of the first `i + 1` and the items that follow.
pub proof fn lemma_sweep_step<T, K>(
    s: Seq<T>,
    key: spec_fn(T) -> K,
    keep: spec_fn(T) -> bool,
    hit: spec_fn(T) -> bool,
    i: int,
)
    requires
        distinct_by(s, key),
        0 <= i < s.len(),
        forall|x: T| #[trigger] hit(x) <==> key(x) == key(s[i]),
    ensures
        s.take(i + 1).filter(keep) + s.skip(i + 1) == if keep(s[i]) {
            s.take(i).filter(keep) + s.skip(i)
        } else {
            without(s.take(i).filter(keep) + s.skip(i), hit)
        },
{
    let front = s.take(i).filter(keep);
    lemma_filter_take(s, keep, i);
    if keep(s[i]) {
        assert(front.push(s[i]) + s.skip(i + 1) =~= front + s.skip(i));
    } else {
        let miss = |x: T| !hit(x);
        Seq::filter_distributes_over_add(front, s.skip(i), miss);
        assert forall|k: int| 0 <= k < front.len() implies miss(#[trigger] front[k]) by {
            assert(front.contains(front[k]));
            lemma_filter_member(s.take(i), keep, front[k]);
            let m = choose|m: int| 0 <= m < s.take(i).len() && s.take(i)[m] == front[k];
            assert(key(s[m]) != key(s[i]));
        }
        lemma_filter_all(front, miss);
        assert forall|j: int| 0 <= j < s.skip(i).len() && j != 0 implies miss(
            #[trigger] s.skip(i)[j],
        ) by {
            assert(key(s[i]) != key(s[i + j]));
        }
        lemma_filter_remove(s.skip(i), miss, 0);
        assert(s.skip(i).remove(0) =~= s.skip(i + 1));
    }
}

/// The ends of a sweep: before the first item the store is as it was, after
/// the last it holds the kept items.
pub proof fn lemma_sweep_ends<T>(s: Seq<T>, keep: spec_fn(T) -> bool)
    ensures
        s.take(0).filter(keep) + s.skip(0) == s,
        s.take(s.len() as int).filter(keep) + s.skip(s.len() as int) == s.filter(keep),
{
    lemma_take_ends(s, keep);
    assert(Seq::<T>::empty() + s.skip(0) =~= s);
    assert(s.filter(keep) + s.skip(s.len() as int) =~= s.filter(keep));
}

/// One step of a sweep that deletes an item by its key: the items that were
/// kept of the first `i` stay, and so do the items after the one at `i`.
pub proof fn lemma_drop_step<T, K>(
    s: Seq<T>,
    key: spec_fn(T) -> K,
    kept: Seq<T>,
    hit: spec_fn(T) -> bool,
    i: int,
)
    requires
        distinct_by(s, key),
        0 <= i < s.len(),
        forall|x: T| #[trigger] hit(x) <==> key(x) == key(s[i]),
        forall|k: int| 0 <= k < kept.len() ==> s.take(i).contains(#[trigger] kept[k]),
    ensures
        without(kept + s.skip(i), hit) == kept + s.skip(i + 1),
{
    let miss = |x: T| !hit(x);
    Seq::filter_distributes_over_add(kept, s.skip(i), miss);
    assert forall|k: int| 0 <= k < kept.len() implies miss(#[trigger] kept[k]) by {
        let m = choose|m: int| 0 <= m < s.take(i).len() && s.take(i)[m] == kept[k];
        assert(key(s[m]) != key(s[i]));
    }
    lemma_filter_all(kept, miss);
    assert forall|j: int| 0 <= j < s.skip(i).len() && j != 0 implies miss(
        #[trigger] s.skip(i)[j],
    ) by {
        assert(key(s[i]) != key(s[i + j]));
    }
    lemma_filter_remove(s.skip(i), miss, 0);
    assert(s.skip(i).remove(0) =~= s.skip(i + 1));
}

/// What a sequence holds after a push.
pub proof fn lemma_push_contains<T>(s: Seq<T>, x: T, y: T)
    ensures
        s.push(x).contains(y) <==> (s.contains(y) || y == x),
{
    if s.push(x).contains(y) {
        let j = choose|j: int| 0 <= j < s.push(x).len() && s.push(x)[j] == y;
        if j < s.len() {
            assert(s[j] == y);
        }
    }
    if s.contains(y) {
        let j = choose|j: int| 0 <= j < s.len() && s[j] == y;
        assert(s.push(x)[j] == y);
    }
    assert(s.push(x)[s.len() as int] == x);
}

/// `s` without the first `cap` items that `hit` selects.
pub open spec fn drop_first<T>(s: Seq<T>, hit: spec_fn(T) -> bool, cap: nat) -> Seq<T>
    decreases s.len(),
{
    if s.len() == 0 {
        s
    } else if hit(s[0]) && cap > 0 {
        drop_first(s.skip(1), hit, (cap - 1) as nat)
    } else {
        seq![s[0]] + drop_first(s.skip(1), hit, cap)
    }
}

/// What is left after dropping was there before.
pub proof fn lemma_drop_first_subset<T>(s: Seq<T>, hit: spec_fn(T) -> bool, cap: nat, x: T)
    requires
        drop_first(s, hit, cap).contains(x),
    ensures
        s.contains(x),
    decreases s.len(),
{
    if s.len() > 0 {
        let rest = drop_first(s.skip(1), hit, if hit(s[0]) && cap > 0 {
            (cap - 1) as nat
        } else {
            cap
        });
        let k = choose|k: int|
            0 <= k < drop_first(s, hit, cap).len() && drop_first(s, hit, cap)[k] == x;
        if hit(s[0]) && cap > 0 {
            lemma_drop_first_subset(s.skip(1), hit, (cap - 1) as nat, x);
            let m = choose|m: int| 0 <= m < s.skip(1).len() && s.skip(1)[m] == x;
            assert(s[m + 1] == x);
        } else if k == 0 {
            assert(s[0] == x);
        } else {
            assert(rest[k - 1] == x);
            lemma_drop_first_subset(s.skip(1), hit, cap, x);
            let m = choose|m: int| 0 <= m < s.skip(1).len() && s.skip(1)[m] == x;
            assert(s[m + 1] == x);
        }
    }
}

/// Dropping keeps keys distinct.
pub proof fn lemma_drop_first_distinct<T, K>(
    s: Seq<T>,
    key: spec_fn(T) -> K,
    hit: spec_fn(T) -> bool,
    cap: nat,
)
    requires
        distinct_by(s, key),
    ensures
        distinct_by(drop_first(s, hit, cap), key),
    decreases s.len(),
{
    if s.len() > 0 {
        assert(forall|i: int| 0 <= i < s.len() - 1 ==> s.skip(1)[i] == s[i + 1]);
        if hit(s[0]) && cap > 0 {
            lemma_drop_first_distinct(s.skip(1), key, hit, (cap - 1) as nat);
        } else {
            lemma_drop_first_distinct(s.skip(1), key, hit, cap);
            let rest = drop_first(s.skip(1), hit, cap);
            let all = drop_first(s, hit, cap);
            assert forall|i: int, j: int| 0 <= i < j < all.len() implies key(#[trigger] all[i])
                != key(#[trigger] all[j]) by {
                assert(all[j] == rest[j - 1]);
                if i == 0 {
                    assert(rest.contains(rest[j - 1]));
                    lemma_drop_first_subset(s.skip(1), hit, cap, rest[j - 1]);
                    let m = choose|m: int| 0 <= m < s.skip(1).len() && s.skip(1)[m] == rest[j - 1];
                    assert(key(s[0]) != key(s[m + 1]));
                } else {
                    assert(all[i] == rest[i - 1]);
                }
            }
        }
    }
}

/// Where no more items are selected than may be dropped, all of them are dropped.
pub proof fn lemma_drop_first_all<T>(s: Seq<T>, hit: spec_fn(T) -> bool, cap: nat)
    requires
        s.filter(hit).len() <= cap,
    ensures
        drop_first(s, hit, cap) == without(s, hit),
    decreases s.len(),
{
    let miss = |x: T| !hit(x);
    if s.len() == 0 {
        lemma_filter_all(s, miss);
    } else {
        assert(seq![s[0]] + s.skip(1) =~= s);
        Seq::filter_distributes_over_add(seq![s[0]], s.skip(1), hit);
        Seq::filter_distributes_over_add(seq![s[0]], s.skip(1), miss);
        lemma_take_ends(seq![s[0]], hit);
        lemma_take_ends(seq![s[0]], miss);
        lemma_filter_take(seq![s[0]], hit, 0);
        lemma_filter_take(seq![s[0]], miss, 0);
        assert(seq![s[0]].take(1) =~= seq![s[0]]);
        if hit(s[0]) {
            assert(seq![s[0]].filter(hit).len() == 1);
            lemma_drop_first_all(s.skip(1), hit, (cap - 1) as nat);
            assert(Seq::<T>::empty() + without(s.skip(1), hit) =~= without(s.skip(1), hit));
        } else {
            assert(seq![s[0]].filter(hit).len() == 0);
            lemma_drop_first_all(s.skip(1), hit, cap);
            assert(Seq::<T>::empty().push(s[0]) =~= seq![s[0]]);
        }
    }
}

/// A type whose values can be copied with their view kept.
pub trait Duplicate: View + Sized {
    /// A copy with the same view: what `clone` gives, stated for proofs.
    fn duplicate(&self) -> (copy: Self)
        ensures
            copy@ == self@,
    ;
}

impl Duplicate for String {
    fn duplicate(&self) -> (copy: Self) {
        self.clone()
    }
}

/// Copies every item of `items`, in order.
pub fn duplicate_all<T: Duplicate>(items: &Vec<T>) -> (copies: Vec<T>)
    ensures
        views_of(copies@) == views_of(items@),
{
    let mut copies: Vec<T> = Vec::new();
    let mut i: usize = 0;
    assert(views_of(copies@) =~= views_of(items@).take(0));
    while i < items.len()
        invariant
            i <= items.len(),
            views_of(copies@) == views_of(items@).take(i as int),
        decreases items.len() - i,
    {
        let copy = items[i].duplicate();
        proof {
            lemma_views_push(copies@, copy);
            lemma_take_push(views_of(items@), i as int);
        }
        copies.push(copy);
        i += 1;
    }
    assert(views_of(items@).take(i as int) =~= views_of(items@));
    copies
}

/// Where the page that starts at `from` ends, in a list of `len` records
/// that is read `limit` records at a time.
pub fn page_end(from: usize, len: usize, limit: u32) -> (end: usize)
    requires
        from < len,
        limit > 0,
    ensures
        from < end <= len,
        end - from <= limit,
{
    let room = len - from;
    if (limit as usize) < room {
        from + limit as usize
    } else {
        len
    }
}

/// Copies the items of `items`, in order, a page of `limit` items at a
/// time; with a `limit` of 0 nothing is read.
pub fn copy_pages<T: Duplicate>(items: &Vec<T>, limit: u32) -> (copies: Vec<T>)
    ensures
        views_of(copies@) == paged(views_of(items@), limit),
{
    let mut copies: Vec<T> = Vec::new();
    if limit == 0 {
        assert(views_of(copies@) =~= Seq::empty());
        return copies;
    }
    let mut i: usize = 0;
    assert(views_of(copies@) =~= views_of(items@).take(0));
    while i < items.len()
        invariant
            i <= items.len(),
            limit > 0,
            views_of(copies@) == views_of(items@).take(i as int),
        decreases items.len() - i,
    {
        let end = page_end(i, items.len(), limit);
        while i < end
            invariant
                i <= end <= items.len(),
                views_of(copies@) == views_of(items@).take(i as int),
            decreases end - i,
        {
            let copy = items[i].duplicate();
            proof {
                lemma_views_push(copies@, copy);
                lemma_take_push(views_of(items@), i as int);
            }
            copies.push(copy);
            i += 1;
        }
    }
    assert(views_of(items@).take(i as int) =~= views_of(items@));
    copies
}

/// Copies an optional item.
pub fn duplicate_option<T: Duplicate>(item: &Option<T>) -> (copy: Option<T>)
    ensures
        option_view(copy) == option_view(*item),
{
    match item {
        Some(x) => Some(x.duplicate()),
        None => None,
    }
}

/// The view of an optional item.
pub open spec fn option_view<T: View>(item: Option<T>) -> Option<T::V> {
    match item {
        Some(x) => Some(x@),
        None => None,
    }
}

} // verus!
