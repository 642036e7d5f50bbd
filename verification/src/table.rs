//! Rows: the ways a table is read, by the first row that meets a condition, by
//! all rows that meet one, and in the order of a key.
use vstd::prelude::*;

verus! {

/// What the rows hold.
pub open spec fn views<R: View>(rows: Seq<R>) -> Seq<R::V> {
    rows.map_values(|r: R| r@)
}

/// The first row that meets `p`.
pub open spec fn first<T>(rows: Seq<T>, p: spec_fn(T) -> bool) -> Option<T>
    decreases rows.len(),
{
    if rows.len() == 0 {
        None
    } else if p(rows[0]) {
        Some(rows[0])
    } else {
        first(rows.drop_first(), p)
    }
}

/// `n` is the position of the first row that meets `p`, or the end.
pub open spec fn is_first<T>(rows: Seq<T>, p: spec_fn(T) -> bool, n: int) -> bool {
    &&& 0 <= n <= rows.len()
    &&& forall|i: int| 0 <= i < n ==> !p(#[trigger] rows[i])
    &&& n < rows.len() ==> p(rows[n])
}

pub proof fn lemma_first<T>(rows: Seq<T>, p: spec_fn(T) -> bool, n: int)
    requires
        is_first(rows, p, n),
    ensures
        first(rows, p) == (if n < rows.len() {
            Some(rows[n])
        } else {
            None
        }),
    decreases rows.len(),
{
    if rows.len() > 0 && n > 0 {
        assert(!p(rows[0]));
        assert forall|i: int| 0 <= i < n - 1 implies !p(#[trigger] rows.drop_first()[i]) by {
            assert(!p(rows[i + 1]));
        }
        lemma_first(rows.drop_first(), p, n - 1);
    }
}

/// What is found is a row of the table that meets the condition, and something
/// is found whenever there is such a row.
pub proof fn lemma_first_holds<T>(rows: Seq<T>, p: spec_fn(T) -> bool)
    ensures
        first(rows, p) is Some ==> p(first(rows, p)->0) && rows.contains(first(rows, p)->0),
        first(rows, p) is None ==> forall|i: int| 0 <= i < rows.len() ==> !p(#[trigger] rows[i]),
    decreases rows.len(),
{
    if rows.len() > 0 && !p(rows[0]) {
        lemma_first_holds(rows.drop_first(), p);
        if first(rows, p) is Some {
            let x = first(rows, p)->0;
            let k = choose|k: int| 0 <= k < rows.drop_first().len() && rows.drop_first()[k] == x;
            assert(rows[k + 1] == x);
        } else {
            assert forall|i: int| 0 <= i < rows.len() implies !p(#[trigger] rows[i]) by {
                if i > 0 {
                    assert(rows.drop_first()[i - 1] == rows[i]);
                }
            }
        }
    }
}

/// A row added at the end is found only where nothing was found before.
pub proof fn lemma_first_push<T>(rows: Seq<T>, row: T, p: spec_fn(T) -> bool)
    ensures
        first(rows.push(row), p) == (if first(rows, p) is Some {
            first(rows, p)
        } else if p(row) {
            Some(row)
        } else {
            None
        }),
    decreases rows.len(),
{
    if rows.len() > 0 {
        assert(rows.push(row).drop_first() == rows.drop_first().push(row));
        lemma_first_push(rows.drop_first(), row, p);
    } else {
        assert(rows.push(row).drop_first() == Seq::<T>::empty());
        assert(first(Seq::<T>::empty(), p) is None);
    }
}

/// Changing rows in a way that the condition does not see changes what is found
/// in the same way.
pub proof fn lemma_first_map<T>(rows: Seq<T>, p: spec_fn(T) -> bool, f: spec_fn(T) -> T)
    requires
        forall|x: T| p(#[trigger] f(x)) == p(x),
    ensures
        first(rows.map_values(f), p) == (match first(rows, p) {
            Some(x) => Some(f(x)),
            None => None,
        }),
    decreases rows.len(),
{
    if rows.len() > 0 {
        assert(rows.map_values(f)[0] == f(rows[0]));
        assert(p(f(rows[0])) == p(rows[0]));
        if !p(rows[0]) {
            assert(rows.map_values(f).drop_first() == rows.drop_first().map_values(f));
            lemma_first_map(rows.drop_first(), p, f);
        }
    } else {
        assert(rows.map_values(f).len() == 0);
    }
}

/// Changing rows in a way that the condition does not see keeps the same rows.
pub proof fn lemma_filter_map<T>(rows: Seq<T>, p: spec_fn(T) -> bool, f: spec_fn(T) -> T)
    requires
        forall|x: T| p(#[trigger] f(x)) == p(x),
    ensures
        rows.map_values(f).filter(p) == rows.filter(p).map_values(f),
    decreases rows.len(),
{
    reveal(Seq::filter);
    if rows.len() > 0 {
        lemma_filter_map(rows.drop_last(), p, f);
        assert(rows.map_values(f).drop_last() =~= rows.drop_last().map_values(f));
        assert(rows.map_values(f).last() == f(rows.last()));
        assert(p(f(rows.last())) == p(rows.last()));
        if p(rows.last()) {
            assert(rows.drop_last().filter(p).push(rows.last()).map_values(f)
                =~= rows.drop_last().filter(p).map_values(f).push(f(rows.last())));
        }
    } else {
        assert(rows.map_values(f) =~= rows);
        assert(rows.filter(p).map_values(f) =~= rows);
    }
}

/// Every row that is kept is a row of the table.
pub proof fn lemma_filter_from<T>(rows: Seq<T>, p: spec_fn(T) -> bool)
    ensures
        forall|i: int|
            0 <= i < rows.filter(p).len() ==> rows.contains(#[trigger] rows.filter(p)[i]),
    decreases rows.len(),
{
    reveal(Seq::filter);
    if rows.len() > 0 {
        let init = rows.drop_last();
        lemma_filter_from(init, p);
        assert forall|i: int| 0 <= i < rows.filter(p).len() implies rows.contains(
            #[trigger] rows.filter(p)[i],
        ) by {
            if i < init.filter(p).len() {
                assert(rows.filter(p)[i] == init.filter(p)[i]);
                let k = init.index_of(init.filter(p)[i]);
                assert(rows[k] == rows.filter(p)[i]);
            } else {
                assert(rows[rows.len() - 1] == rows.filter(p)[i]);
            }
        }
    }
}

/// How many of the already ordered positions come before a key: those whose
/// own key is not above it, from the front.
pub open spec fn slot(keys: Seq<int>, placed: Seq<int>, key: int) -> int
    decreases placed.len(),
{
    if placed.len() == 0 || keys[placed[0]] > key {
        0
    } else {
        1 + slot(keys, placed.drop_first(), key)
    }
}

/// The positions of `keys` by ascending key; equal keys keep their order.
pub open spec fn order(keys: Seq<int>) -> Seq<int> {
    order_of_first(keys, keys.len())
}

/// `order`, for the first `n` keys.
pub open spec fn order_of_first(keys: Seq<int>, n: nat) -> Seq<int>
    decreases n,
{
    if n == 0 {
        Seq::empty()
    } else {
        let placed = order_of_first(keys, (n - 1) as nat);
        placed.insert(slot(keys, placed, keys[n - 1]), n - 1)
    }
}

/// The rows by ascending key; rows with equal keys keep their order.
pub open spec fn ranked<T>(rows: Seq<T>, key: spec_fn(T) -> int) -> Seq<T> {
    let keys = Seq::new(rows.len(), |i: int| key(rows[i]));
    Seq::new(rows.len(), |i: int| rows[order(keys)[i]])
}

proof fn lemma_slot(keys: Seq<int>, placed: Seq<int>, key: int)
    ensures
        0 <= slot(keys, placed, key) <= placed.len(),
        forall|i: int|
            0 <= i < slot(keys, placed, key) ==> keys[#[trigger] placed[i]] <= key,
        slot(keys, placed, key) < placed.len() ==> keys[placed[slot(keys, placed, key)]] > key,
    decreases placed.len(),
{
    if placed.len() > 0 && keys[placed[0]] <= key {
        let rest = placed.drop_first();
        lemma_slot(keys, rest, key);
        assert forall|i: int| 0 <= i < slot(keys, placed, key) implies keys[#[trigger] placed[i]]
            <= key by {
            if i > 0 {
                assert(rest[i - 1] == placed[i]);
            }
        }
    }
}

proof fn lemma_slot_is(keys: Seq<int>, placed: Seq<int>, key: int, k: int)
    requires
        0 <= k <= placed.len(),
        forall|i: int| 0 <= i < k ==> keys[#[trigger] placed[i]] <= key,
        k < placed.len() ==> keys[placed[k]] > key,
    ensures
        slot(keys, placed, key) == k,
    decreases placed.len(),
{
    if k > 0 {
        assert(keys[placed[0]] <= key);
        assert forall|i: int| 0 <= i < k - 1 implies keys[#[trigger] placed.drop_first()[i]]
            <= key by {
            assert(placed.drop_first()[i] == placed[i + 1]);
        }
        lemma_slot_is(keys, placed.drop_first(), key, k - 1);
    }
}

/// `order_of_first` lists each of the first `n` positions once, by ascending
/// key, and positions with equal keys in ascending order.
pub proof fn lemma_order_of_first(keys: Seq<int>, n: nat)
    requires
        n <= keys.len(),
    ensures
        order_of_first(keys, n).len() == n,
        order_of_first(keys, n).no_duplicates(),
        forall|i: int| 0 <= i < n ==> 0 <= #[trigger] order_of_first(keys, n)[i] < n,
        forall|i: int, j: int|
            #![trigger order_of_first(keys, n)[i], order_of_first(keys, n)[j]]
            0 <= i < j < n ==> {
                let (a, b) = (order_of_first(keys, n)[i], order_of_first(keys, n)[j]);
                keys[a] < keys[b] || (keys[a] == keys[b] && a < b)
            },
    decreases n,
{
    if n > 0 {
        let m = (n - 1) as nat;
        let placed = order_of_first(keys, m);
        lemma_order_of_first(keys, m);
        let k = slot(keys, placed, keys[m as int]);
        lemma_slot(keys, placed, keys[m as int]);
        let out = placed.insert(k, m as int);
        assert(out == order_of_first(keys, n));
        assert forall|i: int, j: int|
            #![trigger out[i], out[j]]
            0 <= i < j < n implies keys[out[i]] < keys[out[j]] || (keys[out[i]] == keys[out[j]]
            && out[i] < out[j]) by {
            let pi = if i < k {
                i
            } else {
                i - 1
            };
            let pj = if j < k {
                j
            } else {
                j - 1
            };
            if i == k {
                assert(out[j] == placed[pj]);
                assert(keys[placed[k]] > keys[m as int]);
                if pj > k {
                    assert(keys[placed[k]] <= keys[placed[pj]]);
                }
            } else if j == k {
                assert(out[i] == placed[i]);
            } else {
                assert(out[i] == placed[pi] && out[j] == placed[pj]);
            }
        }
        assert(out.no_duplicates()) by {
            assert forall|i: int, j: int| 0 <= i < out.len() && 0 <= j < out.len() && i
                != j implies out[i] != out[j] by {
                if i < j {
                    assert(keys[out[i]] < keys[out[j]] || out[i] < out[j]);
                } else {
                    assert(keys[out[j]] < keys[out[i]] || out[j] < out[i]);
                }
            }
        }
        assert forall|i: int| 0 <= i < n implies 0 <= #[trigger] order_of_first(keys, n)[i]
            < n by {
            if i < k {
                assert(out[i] == placed[i]);
            } else if i > k {
                assert(out[i] == placed[i - 1]);
            }
        }
    }
}

/// Reading in the order of a key neither loses, adds nor repeats a position,
/// and goes by ascending key.
pub proof fn law_order_is_a_sorted_permutation(keys: Seq<int>)
    ensures
        order(keys).len() == keys.len(),
        order(keys).no_duplicates(),
        forall|i: int| 0 <= i < keys.len() ==> 0 <= #[trigger] order(keys)[i] < keys.len(),
        forall|i: int, j: int|
            0 <= i < j < keys.len() ==> keys[#[trigger] order(keys)[i]] <= keys[#[trigger] order(
                keys,
            )[j]],
{
    lemma_order_of_first(keys, keys.len());
}

/// Every row is among the ranked ones.
pub proof fn lemma_ranked_has_all<T>(rows: Seq<T>, key: spec_fn(T) -> int, k: int)
    requires
        0 <= k < rows.len(),
    ensures
        ranked(rows, key).contains(rows[k]),
{
    let keys = Seq::new(rows.len(), |i: int| key(rows[i]));
    law_order_is_a_sorted_permutation(keys);
    let o = order(keys);
    lemma_permutation_hits(o, rows.len(), k);
    let i = o.index_of(k);
    assert(ranked(rows, key)[i] == rows[k]);
}

/// Every ranked row is a row of the table.
pub proof fn lemma_ranked_from<T>(rows: Seq<T>, key: spec_fn(T) -> int, i: int)
    requires
        0 <= i < rows.len(),
    ensures
        rows.contains(ranked(rows, key)[i]),
{
    let keys = Seq::new(rows.len(), |i: int| key(rows[i]));
    law_order_is_a_sorted_permutation(keys);
    assert(0 <= order(keys)[i] < rows.len());
    assert(rows[order(keys)[i]] == ranked(rows, key)[i]);
}

/// Ranked rows go by ascending key.
pub proof fn law_ranking_goes_by_key<T>(rows: Seq<T>, key: spec_fn(T) -> int, i: int, j: int)
    requires
        0 <= i < j < rows.len(),
    ensures
        ranked(rows, key).len() == rows.len(),
        key(ranked(rows, key)[i]) <= key(ranked(rows, key)[j]),
{
    let keys = Seq::new(rows.len(), |i: int| key(rows[i]));
    law_order_is_a_sorted_permutation(keys);
    assert(0 <= order(keys)[i] < rows.len() && 0 <= order(keys)[j] < rows.len());
    assert(keys[order(keys)[i]] <= keys[order(keys)[j]]);
}

/// Changing rows in a way that the key does not see keeps their rank.
pub proof fn lemma_ranked_map<T>(rows: Seq<T>, key: spec_fn(T) -> int, f: spec_fn(T) -> T)
    requires
        forall|x: T| key(#[trigger] f(x)) == key(x),
    ensures
        ranked(rows.map_values(f), key) == ranked(rows, key).map_values(f),
{
    let keys = Seq::new(rows.len(), |i: int| key(rows[i]));
    let mapped = rows.map_values(f);
    assert(Seq::new(mapped.len(), |i: int| key(mapped[i])) =~= keys);
    law_order_is_a_sorted_permutation(keys);
    assert forall|i: int| 0 <= i < rows.len() implies ranked(mapped, key)[i] == ranked(
        rows,
        key,
    ).map_values(f)[i] by {
        assert(0 <= order(keys)[i] < rows.len());
    }
    assert(ranked(mapped, key) =~= ranked(rows, key).map_values(f));
}

/// A row of `n` different numbers below `n` holds every number below `n`.
proof fn lemma_permutation_hits(o: Seq<int>, n: nat, k: int)
    requires
        o.len() == n,
        o.no_duplicates(),
        forall|i: int| 0 <= i < n ==> 0 <= #[trigger] o[i] < n,
        0 <= k < n,
    ensures
        o.contains(k),
{
    if !o.contains(k) {
        let all = vstd::set_lib::set_int_range(0, n as int);
        vstd::set_lib::lemma_int_range(0, n as int);
        o.unique_seq_to_set();
        assert forall|x: int| o.to_set().contains(x) implies all.remove(k).contains(x) by {
            let i = choose|i: int| 0 <= i < o.len() && o[i] == x;
            assert(0 <= o[i] < n);
        }
        vstd::set_lib::lemma_len_subset(o.to_set(), all.remove(k));
        assert(false);
    }
}

/// The keys as integers.
pub open spec fn ints(keys: Seq<i128>) -> Seq<int> {
    keys.map_values(|k: i128| k as int)
}

/// The positions of `keys` by ascending key.
pub fn ordered(keys: &Vec<i128>) -> (out: Vec<usize>)
    ensures
        out.len() == keys.len(),
        forall|i: int|
            0 <= i < out.len() ==> #[trigger] out@[i] == order(ints(keys@))[i] && out@[i]
                < keys.len(),
{
    let ghost ks = ints(keys@);
    let mut out: Vec<usize> = Vec::new();
    for n in 0..keys.len()
        invariant
            ks == ints(keys@),
            out.len() == n,
            forall|i: int|
                0 <= i < n ==> #[trigger] out@[i] == order_of_first(ks, n as nat)[i] && out@[i] < n,
            order_of_first(ks, n as nat).len() == n,
    {
        let ghost placed = order_of_first(ks, n as nat);
        let mut k: usize = 0;
        while k < out.len() && keys[out[k]] <= keys[n]
            invariant
                n < keys.len(),
                out.len() == n,
                k <= n,
                ks == ints(keys@),
                placed == order_of_first(ks, n as nat),
                placed.len() == n,
                forall|i: int|
                    0 <= i < n ==> #[trigger] out@[i] == placed[i] && out@[i] < n,
                forall|i: int| 0 <= i < k ==> ks[#[trigger] placed[i]] <= ks[n as int],
            decreases n - k,
        {
            assert(out@[k as int] == placed[k as int]);
            k += 1;
        }
        proof {
            if k < n {
                assert(out@[k as int] == placed[k as int]);
            }
            lemma_slot_is(ks, placed, ks[n as int], k as int);
        }
        let ghost before = out@;
        out.insert(k, n);
        assert(order_of_first(ks, (n + 1) as nat) == placed.insert(k as int, n as int));
        assert forall|i: int| 0 <= i < n + 1 implies #[trigger] out@[i] == order_of_first(
            ks,
            (n + 1) as nat,
        )[i] && out@[i] < n + 1 by {
            if i < k {
                assert(out@[i] == before[i]);
            } else if i > k {
                assert(out@[i] == before[i - 1]);
            }
        }
    }
    out
}

// ---- reading a table ------------------------------------------------------

/// Looking for the first row that meets `p` has led to position `n`, or to the
/// end.
pub open spec fn found<R: View>(rows: Seq<R>, p: spec_fn(R::V) -> bool, n: int) -> bool {
    &&& 0 <= n <= rows.len()
    &&& first(views(rows), p) == (if n < rows.len() {
        Some(rows[n]@)
    } else {
        None
    })
}

/// The position of the first row that meets a condition; the end where none
/// does.
pub(crate) fn position<R: View, F: Fn(&R) -> bool>(
    rows: &Vec<R>,
    test: F,
    Ghost(p): Ghost<spec_fn(R::V) -> bool>,
) -> (n: usize)
    requires
        forall|r: &R| #[trigger] test.requires((r,)),
        forall|r: &R, b: bool| #[trigger] test.ensures((r,), b) ==> b == p(r@),
    ensures
        found(rows@, p, n as int),
{
    let ghost all = views(rows@);
    let mut n: usize = 0;
    while n < rows.len() && !test(&rows[n])
        invariant
            n <= rows.len(),
            all == views(rows@),
            forall|r: &R| #[trigger] test.requires((r,)),
            forall|r: &R, b: bool| #[trigger] test.ensures((r,), b) ==> b == p(r@),
            forall|i: int| 0 <= i < n ==> !p(#[trigger] all[i]),
        decreases rows.len() - n,
    {
        assert(all[n as int] == rows@[n as int]@);
        n += 1;
    }
    proof {
        if n < rows.len() {
            assert(all[n as int] == rows@[n as int]@);
        }
        lemma_first(all, p, n as int);
    }
    n
}

/// The rows that meet a condition.
pub(crate) fn select<R: View + Clone, F: Fn(&R) -> bool>(
    rows: &Vec<R>,
    test: F,
    Ghost(p): Ghost<spec_fn(R::V) -> bool>,
) -> (out: Vec<R>)
    requires
        forall|r: &R| #[trigger] test.requires((r,)),
        forall|r: &R, b: bool| #[trigger] test.ensures((r,), b) ==> b == p(r@),
        forall|a: R, b: R| #[trigger] cloned(a, b) ==> a@ == b@,
    ensures
        views(out@) == views(rows@).filter(p),
{
    let ghost all = views(rows@);
    let mut out: Vec<R> = Vec::new();
    assert(views(out@) =~= all.take(0).filter(p)) by {
        reveal(Seq::filter);
    }
    for i in 0..rows.len()
        invariant
            all == views(rows@),
            forall|r: &R| #[trigger] test.requires((r,)),
            forall|r: &R, b: bool| #[trigger] test.ensures((r,), b) ==> b == p(r@),
            forall|a: R, b: R| #[trigger] cloned(a, b) ==> a@ == b@,
            views(out@) == all.take(i as int).filter(p),
    {
        let ghost before = views(out@);
        proof {
            reveal(Seq::filter);
            assert(all.take(i + 1).drop_last() == all.take(i as int));
            assert(all.take(i + 1).last() == rows@[i as int]@);
        }
        if test(&rows[i]) {
            let row = rows[i].clone();
            assert(cloned(rows@[i as int], row));
            out.push(row);
            assert(views(out@) =~= before.push(rows@[i as int]@));
        }
    }
    assert(all.take(rows.len() as int) == all);
    out
}

/// The rows by ascending key.
pub(crate) fn rank<R: View + Clone, F: Fn(&R) -> i128>(
    rows: &Vec<R>,
    key: F,
    Ghost(k): Ghost<spec_fn(R::V) -> int>,
) -> (out: Vec<R>)
    requires
        forall|r: &R| #[trigger] key.requires((r,)),
        forall|r: &R, v: i128| #[trigger] key.ensures((r,), v) ==> v == k(r@),
        forall|a: R, b: R| #[trigger] cloned(a, b) ==> a@ == b@,
    ensures
        views(out@) == ranked(views(rows@), k),
{
    let ghost all = views(rows@);
    let mut keys: Vec<i128> = Vec::new();
    for i in 0..rows.len()
        invariant
            forall|r: &R| #[trigger] key.requires((r,)),
            forall|r: &R, v: i128| #[trigger] key.ensures((r,), v) ==> v == k(r@),
            keys.len() == i,
            forall|j: int| 0 <= j < i ==> #[trigger] keys@[j] == k(rows@[j]@),
    {
        keys.push(key(&rows[i]));
    }
    assert(ints(keys@) =~= Seq::new(all.len(), |i: int| k(all[i])));
    let places = ordered(&keys);
    let mut out: Vec<R> = Vec::new();
    for i in 0..places.len()
        invariant
            places.len() == rows.len(),
            forall|j: int| 0 <= j < places.len() ==> #[trigger] places@[j] < rows.len(),
            forall|a: R, b: R| #[trigger] cloned(a, b) ==> a@ == b@,
            out.len() == i,
            forall|j: int| 0 <= j < i ==> (#[trigger] out@[j])@ == rows@[places@[j] as int]@,
    {
        assert(places@[i as int] < rows.len());
        let row = rows[places[i]].clone();
        assert(cloned(rows@[places@[i as int] as int], row));
        out.push(row);
    }
    assert(views(out@) =~= ranked(all, k));
    out
}

/// What is found is the first row that meets the condition; nothing is found where
/// none does.
pub proof fn law_first_is_found<T>(before: Seq<T>, row: T, behind: Seq<T>, p: spec_fn(T) -> bool)
    requires
        forall|i: int| 0 <= i < before.len() ==> !p(#[trigger] before[i]),
        p(row),
    ensures
        first(before, p) is None,
        first(before.push(row) + behind, p) == Some(row),
{
    let all = before.push(row) + behind;
    assert forall|i: int| 0 <= i < before.len() implies !p(#[trigger] all[i]) by {
        assert(all[i] == before[i]);
    }
    assert(all[before.len() as int] == row);
    lemma_first(before, p, before.len() as int);
    lemma_first(all, p, before.len() as int);
}

} // verus!
