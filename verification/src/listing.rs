use crate::order::{
    lemma_not_after_transitive, lemma_precedes_asymmetric, lemma_precedes_connected,
    lemma_precedes_irreflexive, lemma_precedes_transitive, precedes, str_precedes,
};
use crate::result::{views, SearchResult, SearchResultView};
use vstd::prelude::*;
use vstd::seq_lib::{to_multiset_insert, to_multiset_remove};

verus! {

/// The results stand in ascending order of title: no title precedes the title
/// of a result that stands before it. Equal titles may follow one another.
pub open spec fn ascending(s: Seq<SearchResult>) -> bool {
    forall|i: int, j: int| 0 <= i < j < s.len() ==> !precedes(s[j]@.title, s[i]@.title)
}

/// The titles ascend strictly: every title precedes the titles after it, so
/// no title occurs twice.
pub open spec fn strictly_ascending(s: Seq<SearchResult>) -> bool {
    forall|i: int, j: int| 0 <= i < j < s.len() ==> precedes(s[i]@.title, s[j]@.title)
}

/// Some result of `s` shows the title `title`.
pub open spec fn shows_title(s: Seq<SearchResult>, title: Seq<char>) -> bool {
    exists|i: int| 0 <= i < s.len() && #[trigger] s[i]@.title == title
}

/// `listing` is what a user is shown for `candidates`: every candidate once,
/// nothing else, by ascending title and without a title twice.
pub open spec fn is_listing_of(listing: Seq<SearchResult>, candidates: Seq<SearchResultView>) -> bool {
    &&& strictly_ascending(listing)
    &&& forall|i: int| 0 <= i < listing.len() ==> candidates.contains(#[trigger] listing[i]@)
    &&& forall|k: int|
        0 <= k < candidates.len() ==> views(listing).contains(#[trigger] candidates[k])
}

/// Two sequences whose titles ascend strictly and that show the same results
/// show them in the same order.
proof fn lemma_strictly_ascending_unique(a: Seq<SearchResult>, b: Seq<SearchResult>)
    requires
        strictly_ascending(a),
        strictly_ascending(b),
        forall|i: int| 0 <= i < a.len() ==> views(b).contains(#[trigger] a[i]@),
        forall|j: int| 0 <= j < b.len() ==> views(a).contains(#[trigger] b[j]@),
    ensures
        views(a) == views(b),
    decreases a.len(),
{
    if a.len() == 0 {
        if b.len() > 0 {
            assert(views(a).contains(b[0]@));
        }
        assert(views(a) =~= views(b));
    } else if b.len() == 0 {
        assert(views(b).contains(a[0]@));
    } else {
        let x = a.len() - 1;
        let y = b.len() - 1;
        lemma_last_results_agree(a, b);
        lemma_last_results_agree(b, a);
        let front_a = a.drop_last();
        let front_b = b.drop_last();
        assert forall|i: int| 0 <= i < front_a.len() implies views(front_b).contains(
            #[trigger] front_a[i]@,
        ) by {
            lemma_front_result_stays(a, b, i);
        }
        assert forall|j: int| 0 <= j < front_b.len() implies views(front_a).contains(
            #[trigger] front_b[j]@,
        ) by {
            lemma_front_result_stays(b, a, j);
        }
        lemma_strictly_ascending_unique(front_a, front_b);
        assert(views(a) =~= views(front_a).push(a[x]@));
        assert(views(b) =~= views(front_b).push(b[y]@));
    }
}

/// Where two strictly ascending sequences show the same results, the last
/// result of the one is the last result of the other.
proof fn lemma_last_results_agree(a: Seq<SearchResult>, b: Seq<SearchResult>)
    requires
        a.len() > 0,
        b.len() > 0,
        strictly_ascending(a),
        strictly_ascending(b),
        forall|i: int| 0 <= i < a.len() ==> views(b).contains(#[trigger] a[i]@),
        forall|j: int| 0 <= j < b.len() ==> views(a).contains(#[trigger] b[j]@),
    ensures
        a.last()@ == b.last()@,
{
    let x = a.len() - 1;
    let y = b.len() - 1;
    assert(views(b).contains(a[x]@));
    let j = choose|j: int| 0 <= j < views(b).len() && views(b)[j] == a[x]@;
    assert(views(a).contains(b[y]@));
    let i = choose|i: int| 0 <= i < views(a).len() && views(a)[i] == b[y]@;
    assert(b[j]@ == a[x]@ && a[i]@ == b[y]@);
    if j < y {
        // a[i] shows the last title of b, which comes after the title of
        // b[j], the last title of a: then a[i] would come after a's last.
        lemma_precedes_irreflexive(a[x]@.title);
        if i < x {
            lemma_precedes_transitive(a[i]@.title, a[x]@.title, a[i]@.title);
            lemma_precedes_irreflexive(a[i]@.title);
        }
    }
}

/// A result that is not the last of `a` is not the last of `b` either, where
/// both ascend strictly and show the same results.
proof fn lemma_front_result_stays(a: Seq<SearchResult>, b: Seq<SearchResult>, i: int)
    requires
        0 <= i < a.len() - 1,
        b.len() > 0,
        strictly_ascending(a),
        views(b).contains(a[i]@),
        a.last()@ == b.last()@,
    ensures
        views(b.drop_last()).contains(a.drop_last()[i]@),
{
    let j = choose|j: int| 0 <= j < views(b).len() && views(b)[j] == a[i]@;
    assert(b[j]@ == a[i]@);
    if j == b.len() - 1 {
        lemma_precedes_irreflexive(a[i]@.title);
    }
    assert(views(b.drop_last())[j] == a.drop_last()[i]@);
}

/// There is one listing only: two listings of the same candidates show the
/// same results in the same order.
pub proof fn lemma_listing_unique(
    first: Seq<SearchResult>,
    second: Seq<SearchResult>,
    candidates: Seq<SearchResultView>,
)
    requires
        is_listing_of(first, candidates),
        is_listing_of(second, candidates),
    ensures
        views(first) == views(second),
{
    assert forall|i: int| 0 <= i < first.len() implies views(second).contains(
        #[trigger] first[i]@,
    ) by {
        assert(candidates.contains(first[i]@));
    }
    assert forall|j: int| 0 <= j < second.len() implies views(first).contains(
        #[trigger] second[j]@,
    ) by {
        assert(candidates.contains(second[j]@));
    }
    lemma_strictly_ascending_unique(first, second);
}

/// `sorted` holds the results of `original` in another order, `sorted[i]`
/// being `original[from[i]]`, and results with equal titles stand in the order
/// in which they stood in `original`.
pub open spec fn stable_rearrangement(
    original: Seq<SearchResult>,
    sorted: Seq<SearchResult>,
    from: Seq<int>,
) -> bool {
    &&& sorted.len() == original.len()
    &&& from.len() == original.len()
    &&& forall|i: int|
        0 <= i < from.len() ==> 0 <= #[trigger] from[i] < original.len() && sorted[i]
            == original[from[i]]
    &&& forall|i: int, j: int| 0 <= i < j < from.len() ==> from[i] != from[j]
    &&& forall|i: int, j: int|
        0 <= i < j < from.len() && sorted[i]@.title == sorted[j]@.title ==> from[i] < from[j]
}

/// `s` with the result at `i` taken out and put back at `j`, further to the front.
spec fn moved_forward<T>(s: Seq<T>, i: int, j: int) -> Seq<T> {
    Seq::new(
        s.len(),
        |k: int|
            if k < j {
                s[k]
            } else if k == j {
                s[i]
            } else if k <= i {
                s[k - 1]
            } else {
                s[k]
            },
    )
}

proof fn lemma_moved_forward<T>(s: Seq<T>, i: int, j: int)
    requires
        0 <= j <= i < s.len(),
    ensures
        s.remove(i).insert(j, s[i]) == moved_forward(s, i, j),
        moved_forward(s, i, j).to_multiset() == s.to_multiset(),
{
    s.remove_ensures(i);
    s.remove(i).insert_ensures(j, s[i]);
    assert(s.remove(i).insert(j, s[i]) =~= moved_forward(s, i, j));
    s.to_multiset_ensures();
    to_multiset_remove(s, i);
    to_multiset_insert(s.remove(i), j, s[i]);
    assert(s.to_multiset().remove(s[i]).insert(s[i]) =~= s.to_multiset());
}

/// Sorts the results by title, ascending. Results with equal titles keep the
/// order in which they stood.
pub fn sort_by_title(v: &mut Vec<SearchResult>)
    ensures
        ascending(final(v)@),
        final(v)@.to_multiset() == old(v)@.to_multiset(),
        exists|from: Seq<int>| stable_rearrangement(old(v)@, final(v)@, from),
{
    let ghost original = v@;
    let ghost mut from: Seq<int> = Seq::new(v@.len(), |k: int| k);
    let n = v.len();
    let mut i: usize = 0;
    while i < n
        invariant
            i <= n,
            n == v@.len(),
            ascending(v@.take(i as int)),
            v@.to_multiset() == original.to_multiset(),
            stable_rearrangement(original, v@, from),
        decreases n - i,
    {
        let mut j: usize = i;
        while j > 0 && str_precedes(v[i].title(), v[j - 1].title())
            invariant
                j <= i < n,
                n == v@.len(),
                forall|k: int| j <= k < i ==> precedes(v@[i as int]@.title, #[trigger] v@[k]@.title),
            decreases j,
        {
            j -= 1;
        }
        if j < i {
            let ghost before = v@;
            let ghost before_from = from;
            let moving = v.remove(i);
            v.insert(j, moving);
            proof {
                lemma_moved_forward(before, i as int, j as int);
                lemma_moved_forward(before_from, i as int, j as int);
                from = moved_forward(before_from, i as int, j as int);
                assert(v@ == moved_forward(before, i as int, j as int));
                assert forall|a: int, b: int| 0 <= a < b < i + 1 implies !precedes(
                    v@[b]@.title,
                    v@[a]@.title,
                ) by {
                    if b == j {
                        // the moved result against one that stayed before it
                        if a < j - 1 {
                            assert(before.take(i as int)[a] == before[a]);
                            assert(before.take(i as int)[j - 1] == before[j - 1]);
                            lemma_not_after_transitive(
                                before[a]@.title,
                                before[j - 1]@.title,
                                before[i as int]@.title,
                            );
                        }
                    } else if a == j {
                        // one that was passed over against the moved result
                        lemma_precedes_asymmetric(before[i as int]@.title, before[b - 1]@.title);
                    } else {
                        let a0 = if a < j { a } else { a - 1 };
                        let b0 = if b < j { b } else { b - 1 };
                        assert(before.take(i as int)[a0] == before[a0]);
                        assert(before.take(i as int)[b0] == before[b0]);
                    }
                }
                assert(ascending(v@.take(i + 1)));
                assert(stable_rearrangement(original, v@, from));
            }
        } else {
            proof {
                assert forall|a: int, b: int| 0 <= a < b < i + 1 implies !precedes(
                    v@[b]@.title,
                    v@[a]@.title,
                ) by {
                    if b == i {
                        if a < i - 1 {
                            assert(v@.take(i as int)[a] == v@[a]);
                            assert(v@.take(i as int)[i - 1] == v@[i - 1]);
                            lemma_not_after_transitive(
                                v@[a]@.title,
                                v@[i - 1]@.title,
                                v@[i as int]@.title,
                            );
                        }
                    } else {
                        assert(v@.take(i as int)[a] == v@[a]);
                        assert(v@.take(i as int)[b] == v@[b]);
                    }
                }
                assert(ascending(v@.take(i + 1)));
            }
        }
        i += 1;
    }
    proof {
        assert(v@.take(n as int) =~= v@);
    }
}

/// `s` without the results that show the same title as the result just before
/// them: of each run of equal titles the first result stays.
pub open spec fn without_repeats(s: Seq<SearchResult>) -> Seq<SearchResult>
    decreases s.len(),
{
    if s.len() <= 1 {
        s
    } else if s[s.len() - 2]@.title == s.last()@.title {
        without_repeats(s.drop_last())
    } else {
        without_repeats(s.drop_last()).push(s.last())
    }
}

/// What is left of a sequence that is not empty is not empty, and ends with
/// the title that the sequence ends with.
proof fn lemma_without_repeats_last(s: Seq<SearchResult>)
    requires
        s.len() > 0,
    ensures
        0 < without_repeats(s).len() <= s.len(),
        without_repeats(s).last()@.title == s.last()@.title,
    decreases s.len(),
{
    if s.len() > 1 {
        lemma_without_repeats_last(s.drop_last());
    }
}

/// Taking the repeats out drops no title and brings no new result: every
/// result that is left was there before, and every title that was there is
/// still shown. Where the titles ascended, they now ascend strictly.
pub proof fn lemma_without_repeats(s: Seq<SearchResult>)
    ensures
        forall|m: int|
            0 <= m < without_repeats(s).len() ==> s.contains(#[trigger] without_repeats(s)[m]),
        forall|i: int| 0 <= i < s.len() ==> shows_title(without_repeats(s), #[trigger] s[i]@.title),
        ascending(s) ==> strictly_ascending(without_repeats(s)),
    decreases s.len(),
{
    let kept = without_repeats(s);
    if s.len() <= 1 {
        assert forall|i: int| 0 <= i < s.len() implies shows_title(
            kept,
            #[trigger] s[i]@.title,
        ) by {
            assert(kept[i]@.title == s[i]@.title);
        }
    } else {
        let front = s.drop_last();
        let kept_front = without_repeats(front);
        let n = s.len() - 1;
        lemma_without_repeats(front);
        lemma_without_repeats_last(front);
        assert forall|m: int| 0 <= m < kept.len() implies s.contains(#[trigger] kept[m]) by {
            if m < kept_front.len() {
                assert(front.contains(kept_front[m]));
                let i = choose|i: int| 0 <= i < front.len() && front[i] == kept_front[m];
                assert(s[i] == kept[m]);
            } else {
                assert(s[n] == kept[m]);
            }
        }
        assert forall|i: int| 0 <= i < s.len() implies shows_title(
            kept,
            #[trigger] s[i]@.title,
        ) by {
            if i < n {
                assert(front[i]@.title == s[i]@.title);
                assert(shows_title(kept_front, front[i]@.title));
                let m = choose|m: int|
                    0 <= m < kept_front.len() && #[trigger] kept_front[m]@.title == front[i]@.title;
                assert(kept[m]@.title == s[i]@.title);
            } else {
                assert(kept.last()@.title == s[i]@.title);
            }
        }
        if ascending(s) {
            assert(ascending(front)) by {
                assert forall|i: int, j: int| 0 <= i < j < front.len() implies !precedes(
                    front[j]@.title,
                    front[i]@.title,
                ) by {
                    assert(front[i] == s[i] && front[j] == s[j]);
                }
            }
            if s[n - 1]@.title != s[n]@.title {
                assert forall|p: int, q: int| 0 <= p < q < kept.len() implies precedes(
                    kept[p]@.title,
                    kept[q]@.title,
                ) by {
                    if q < kept_front.len() {
                        assert(kept[p] == kept_front[p] && kept[q] == kept_front[q]);
                    } else {
                        assert(front.contains(kept_front[p]));
                        let i = choose|i: int| 0 <= i < front.len() && front[i] == kept_front[p];
                        assert(kept[p] == s[i] && kept[q] == s[n]);
                        lemma_precedes_connected(s[i]@.title, s[n]@.title);
                        if s[i]@.title == s[n]@.title {
                            lemma_precedes_connected(s[n - 1]@.title, s[n]@.title);
                        }
                    }
                }
            }
        }
    }
}

/// Removes every result that shows the same title as the result just before
/// it, so that of each run of equal titles the first result stays.
pub fn dedup_by_title(v: &mut Vec<SearchResult>)
    ensures
        final(v)@ == without_repeats(old(v)@),
{
    if v.len() == 0 {
        return;
    }
    let ghost original = v@;
    let ghost mut seen: int = 1;
    let mut i: usize = 1;
    while i < v.len()
        invariant
            1 <= i <= v@.len(),
            i <= seen <= original.len(),
            v@.len() - i == original.len() - seen,
            v@.take(i as int) == without_repeats(original.take(seen)),
            forall|k: int| i <= k < v@.len() ==> v@[k] == original[k - i + seen],
        decreases v@.len() - i,
    {
        proof {
            lemma_without_repeats_last(original.take(seen));
            assert(v@.take(i as int).last() == v@[i - 1]);
            assert(original.take(seen + 1).drop_last() =~= original.take(seen));
        }
        if v[i].same_title(&v[i - 1]) {
            let ghost before = v@;
            v.remove(i);
            proof {
                before.remove_ensures(i as int);
                assert(v@.take(i as int) =~= before.take(i as int));
            }
        } else {
            proof {
                assert(v@.take(i + 1) =~= v@.take(i as int).push(v@[i as int]));
            }
            i += 1;
        }
        proof {
            seen = seen + 1;
        }
    }
    proof {
        assert(v@.take(i as int) =~= v@);
        assert(original.take(seen) =~= original);
    }
}

} // verus!
