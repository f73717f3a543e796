//! Summaries and deltas of collections of identified records.
//!
//! A summary lists the identifiers of the records a replica holds. The delta
//! against a summary holds the records whose identifier the summary lacks.
//! What is proved here holds for every kind of record and identifier.

use vstd::prelude::*;
use vstd::seq_lib::lemma_no_dup_in_concat;

verus! {

/// The identifiers of `records`, in order.
pub open spec fn ids_of<T, I>(records: Seq<T>, id_of: spec_fn(T) -> I) -> Seq<I> {
    records.map_values(id_of)
}

/// Tells the records whose identifier is not in `known`.
pub open spec fn unknown_to<T, I>(id_of: spec_fn(T) -> I, known: Seq<I>) -> spec_fn(T) -> bool {
    |record: T| !known.contains(id_of(record))
}

/// The records whose identifier is not in `known`, in order.
pub open spec fn missing<T, I>(records: Seq<T>, id_of: spec_fn(T) -> I, known: Seq<I>) -> Seq<T> {
    records.filter(unknown_to(id_of, known))
}

/// The delta against the summary `known`: the missing records, or `None`
/// when nothing is missing.
pub open spec fn delta_for<T, I>(records: Seq<T>, id_of: spec_fn(T) -> I, known: Seq<I>) -> Option<Seq<T>> {
    let lacking = missing(records, id_of, known);
    if lacking.len() == 0 {
        None
    } else {
        Some(lacking)
    }
}

/// The two collections hold the same records, in whatever order.
pub open spec fn same_records<T>(a: Seq<T>, b: Seq<T>) -> bool {
    forall|r: T| a.contains(r) <==> b.contains(r)
}

/// What one more record adds to the missing ones.
pub proof fn lemma_missing_step<T, I>(records: Seq<T>, id_of: spec_fn(T) -> I, known: Seq<I>, i: int)
    requires
        0 <= i < records.len(),
    ensures
        missing(records.take(i + 1), id_of, known) == if known.contains(id_of(records[i])) {
            missing(records.take(i), id_of, known)
        } else {
            missing(records.take(i), id_of, known).push(records[i])
        },
{
    assert(records.take(i + 1) =~= records.take(i).push(records[i]));
    records.take(i).lemma_filter_push(records[i], unknown_to(id_of, known));
}

/// Of no records, none is missing.
pub proof fn lemma_missing_of_none<T, I>(records: Seq<T>, id_of: spec_fn(T) -> I, known: Seq<I>)
    ensures
        missing(records.take(0), id_of, known) == Seq::<T>::empty(),
{
    reveal(Seq::filter);
    assert(records.take(0).len() == 0);
}

/// A record is missing exactly when the collection holds it and `known` does
/// not hold its identifier.
pub proof fn lemma_missing_contains<T, I>(records: Seq<T>, id_of: spec_fn(T) -> I, known: Seq<I>, r: T)
    ensures
        missing(records, id_of, known).contains(r) <==> (records.contains(r) && !known.contains(id_of(r))),
{
    let p = unknown_to(id_of, known);
    let m = records.filter(p);
    if m.contains(r) {
        records.lemma_filter_contains_rev(p, r);
        let k = choose|k: int| 0 <= k < m.len() && m[k] == r;
        records.lemma_filter_pred(p, k);
    }
    if records.contains(r) && !known.contains(id_of(r)) {
        let k = choose|k: int| 0 <= k < records.len() && records[k] == r;
        records.lemma_filter_contains(p, k);
    }
}

/// The delta of a collection against its own summary is `None`.
pub proof fn law_own_summary_lacks_nothing<T, I>(records: Seq<T>, id_of: spec_fn(T) -> I)
    ensures
        delta_for(records, id_of, ids_of(records, id_of)) is None,
{
    let known = ids_of(records, id_of);
    let m = missing(records, id_of, known);
    if m.len() > 0 {
        assert(m.contains(m[0]));
        lemma_missing_contains(records, id_of, known, m[0]);
        let k = choose|k: int| 0 <= k < records.len() && records[k] == m[0];
        assert(known[k] == id_of(m[0]));
        assert(known.contains(id_of(m[0])));
    }
}

/// Records picked out of a collection with distinct identifiers have
/// distinct identifiers.
pub proof fn lemma_filter_keeps_ids_distinct<T, I>(records: Seq<T>, id_of: spec_fn(T) -> I, keep: spec_fn(T) -> bool)
    requires
        ids_of(records, id_of).no_duplicates(),
    ensures
        ids_of(records.filter(keep), id_of).no_duplicates(),
    decreases records.len(),
{
    reveal(Seq::filter);
    if records.len() > 0 {
        let init = records.drop_last();
        let last = records.last();
        assert forall|i: int, j: int| 0 <= i < init.len() && 0 <= j < init.len() && i != j implies ids_of(
            init,
            id_of,
        )[i] != ids_of(init, id_of)[j] by {
            assert(ids_of(records, id_of)[i] != ids_of(records, id_of)[j]);
        }
        lemma_filter_keeps_ids_distinct(init, id_of, keep);
        if keep(last) {
            let kept = init.filter(keep);
            let all = records.filter(keep);
            assert(all == kept.push(last));
            assert forall|i: int, j: int| 0 <= i < all.len() && 0 <= j < all.len() && i != j implies ids_of(
                all,
                id_of,
            )[i] != ids_of(all, id_of)[j] by {
                if i < kept.len() && j < kept.len() {
                    assert(ids_of(kept, id_of)[i] != ids_of(kept, id_of)[j]);
                } else {
                    let inner = if i < kept.len() {
                        i
                    } else {
                        j
                    };
                    assert(kept.contains(kept[inner]));
                    init.lemma_filter_contains_rev(keep, kept[inner]);
                    let k = choose|k: int| 0 <= k < init.len() && init[k] == kept[inner];
                    assert(ids_of(records, id_of)[k] != ids_of(records, id_of)[records.len() - 1]);
                }
            }
        }
    }
}

/// Merging the delta completes the older collection.
///
/// Let `older` hold some of the records of `newer`, and let identifiers be
/// distinct within each. Then `older` followed by what `newer` has beyond the
/// summary of `older` holds exactly the records of `newer`, each once.
pub proof fn law_delta_completes<T, I>(newer: Seq<T>, older: Seq<T>, id_of: spec_fn(T) -> I)
    requires
        ids_of(newer, id_of).no_duplicates(),
        ids_of(older, id_of).no_duplicates(),
        forall|i: int| 0 <= i < older.len() ==> newer.contains(#[trigger] older[i]),
    ensures
        ({
            let merged = older + missing(newer, id_of, ids_of(older, id_of));
            &&& merged.len() == newer.len()
            &&& ids_of(merged, id_of).no_duplicates()
            &&& same_records(merged, newer)
        }),
{
    let known = ids_of(older, id_of);
    let m = missing(newer, id_of, known);
    let merged = older + m;
    let new_ids = ids_of(newer, id_of);
    let merged_ids = ids_of(merged, id_of);
    lemma_filter_keeps_ids_distinct(newer, id_of, unknown_to(id_of, known));
    assert forall|i: int, j: int| 0 <= i < known.len() && 0 <= j < ids_of(m, id_of).len() implies known[i]
        != ids_of(m, id_of)[j] by {
        assert(m.contains(m[j]));
        lemma_missing_contains(newer, id_of, known, m[j]);
        assert(known.contains(known[i]));
    }
    lemma_no_dup_in_concat(known, ids_of(m, id_of));
    assert(merged_ids =~= known + ids_of(m, id_of));
    assert forall|r: T| merged.contains(r) <==> newer.contains(r) by {
        lemma_missing_contains(newer, id_of, known, r);
        if merged.contains(r) {
            let k = choose|k: int| 0 <= k < merged.len() && merged[k] == r;
            if k < older.len() {
                assert(older[k] == r);
            } else {
                assert(m[k - older.len()] == r);
                assert(m.contains(r));
            }
        }
        if newer.contains(r) {
            let k = choose|k: int| 0 <= k < newer.len() && newer[k] == r;
            if known.contains(id_of(r)) {
                let j = choose|j: int| 0 <= j < known.len() && known[j] == id_of(r);
                assert(newer.contains(older[j]));
                let at = choose|at: int| 0 <= at < newer.len() && newer[at] == older[j];
                assert(new_ids[at] == new_ids[k]);
                assert(merged[j] == r);
            } else {
                assert(m.contains(r));
                let j = choose|j: int| 0 <= j < m.len() && m[j] == r;
                assert(merged[older.len() + j] == r);
            }
        }
    }
    lemma_same_records_same_len(merged, newer, id_of);
}

/// Collections that hold the same records, with distinct identifiers in
/// each, are equally long.
pub proof fn lemma_same_records_same_len<T, I>(a: Seq<T>, b: Seq<T>, id_of: spec_fn(T) -> I)
    requires
        ids_of(a, id_of).no_duplicates(),
        ids_of(b, id_of).no_duplicates(),
        same_records(a, b),
    ensures
        a.len() == b.len(),
{
    let a_ids = ids_of(a, id_of);
    let b_ids = ids_of(b, id_of);
    assert(a_ids.to_set() =~= b_ids.to_set()) by {
        assert forall|x: I| a_ids.contains(x) <==> b_ids.contains(x) by {
            if a_ids.contains(x) {
                let k = choose|k: int| 0 <= k < a_ids.len() && a_ids[k] == x;
                assert(a.contains(a[k]));
                let at = choose|at: int| 0 <= at < b.len() && b[at] == a[k];
                assert(b_ids[at] == x);
            }
            if b_ids.contains(x) {
                let k = choose|k: int| 0 <= k < b_ids.len() && b_ids[k] == x;
                assert(b.contains(b[k]));
                let at = choose|at: int| 0 <= at < a.len() && a[at] == b[k];
                assert(a_ids[at] == x);
            }
        }
    }
    a_ids.unique_seq_to_set();
    b_ids.unique_seq_to_set();
}

/// Two deltas merged in either order give the same records.
///
/// If identifiers are distinct after `first` and then `second` were merged
/// into `base`, they are distinct after `second` and then `first` were, and
/// after `second` alone; and both orders give the same records.
pub proof fn lemma_merge_order<T, I>(base: Seq<T>, first: Seq<T>, second: Seq<T>, id_of: spec_fn(T) -> I)
    requires
        ids_of(base + first + second, id_of).no_duplicates(),
    ensures
        ids_of(base + second + first, id_of).no_duplicates(),
        ids_of(base + second, id_of).no_duplicates(),
        same_records(base + first + second, base + second + first),
{
    let one = base + first + second;
    let other = base + second + first;
    let one_ids = ids_of(one, id_of);
    // Where the record at place `i` of the other order stands in the one.
    let place = |i: int|
        if i < base.len() {
            i
        } else if i < base.len() + second.len() {
            i + first.len()
        } else {
            i - second.len()
        };
    assert forall|i: int| 0 <= i < other.len() implies 0 <= place(i) < one.len() && one[place(i)] == #[trigger] other[i] by {}
    assert forall|i: int, j: int| 0 <= i < other.len() && 0 <= j < other.len() && i != j implies ids_of(
        other,
        id_of,
    )[i] != ids_of(other, id_of)[j] by {
        assert(one[place(i)] == other[i]);
        assert(one[place(j)] == other[j]);
        assert(one_ids[place(i)] != one_ids[place(j)]);
    }
    assert forall|i: int, j: int|
        0 <= i < base.len() + second.len() && 0 <= j < base.len() + second.len() && i != j implies ids_of(
        base + second,
        id_of,
    )[i] != ids_of(base + second, id_of)[j] by {
        assert((base + second)[i] == other[i]);
        assert((base + second)[j] == other[j]);
        assert(ids_of(other, id_of)[i] != ids_of(other, id_of)[j]);
    }
    assert forall|r: T| one.contains(r) <==> other.contains(r) by {
        if one.contains(r) {
            let k = choose|k: int| 0 <= k < one.len() && one[k] == r;
            let back = if k < base.len() {
                k
            } else if k < base.len() + first.len() {
                k + second.len()
            } else {
                k - first.len()
            };
            assert(other[back] == r);
        }
        if other.contains(r) {
            let k = choose|k: int| 0 <= k < other.len() && other[k] == r;
            assert(one[place(k)] == r);
        }
    }
}

} // verus!
