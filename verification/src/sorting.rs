use vstd::prelude::*;
use vstd::seq_lib::*;

verus! {

/// Where `x` goes in `s`: behind the last element that does not come after
/// it, or in front where every element comes after it.
pub open spec fn insertion_point<A>(s: Seq<A>, x: A, le: spec_fn(A, A) -> bool) -> int
    decreases s.len(),
{
    if s.len() == 0 {
        0
    } else if le(s.last(), x) {
        s.len() as int
    } else {
        insertion_point(s.drop_last(), x, le)
    }
}

/// `s` with `x` put in at its insertion point.
pub open spec fn insert_sorted<A>(s: Seq<A>, x: A, le: spec_fn(A, A) -> bool) -> Seq<A> {
    s.insert(insertion_point(s, x, le), x)
}

/// `s` in the order of `le`, built by putting its elements in one after the
/// other. Elements that tie keep the order in which they stood in `s`.
pub open spec fn stable_sort<A>(s: Seq<A>, le: spec_fn(A, A) -> bool) -> Seq<A>
    decreases s.len(),
{
    if s.len() == 0 {
        s
    } else {
        insert_sorted(stable_sort(s.drop_last(), le), s.last(), le)
    }
}

/// Whether no element of `s` comes after a later one.
pub open spec fn ascending<A>(s: Seq<A>, le: spec_fn(A, A) -> bool) -> bool {
    forall|i: int, j: int| 0 <= i < j < s.len() ==> le(#[trigger] s[i], #[trigger] s[j])
}

/// Whether any two values compare under `le`, one way or the other.
pub open spec fn compares_all<A>(le: spec_fn(A, A) -> bool) -> bool {
    forall|a: A, b: A| #[trigger] le(a, b) || #[trigger] le(b, a)
}

/// Whether `le` carries over: what comes before a value comes before
/// whatever that value comes before.
pub open spec fn carries_over<A>(le: spec_fn(A, A) -> bool) -> bool {
    forall|a: A, b: A, c: A| #[trigger] le(a, b) && #[trigger] le(b, c) ==> le(a, c)
}

/// The insertion point lies in the sequence; what stands before it does not
/// come after `x` where the sequence is ascending, and everything from it on
/// comes after `x`.
pub proof fn lemma_insertion_point<A>(s: Seq<A>, x: A, le: spec_fn(A, A) -> bool)
    ensures
        0 <= insertion_point(s, x, le) <= s.len(),
        insertion_point(s, x, le) > 0 ==> le(s[insertion_point(s, x, le) - 1], x),
        forall|i: int| insertion_point(s, x, le) <= i < s.len() ==> !le(#[trigger] s[i], x),
    decreases s.len(),
{
    if s.len() > 0 && !le(s.last(), x) {
        let shorter = s.drop_last();
        lemma_insertion_point(shorter, x, le);
        assert forall|i: int| insertion_point(s, x, le) <= i < s.len() implies !le(
            #[trigger] s[i],
            x,
        ) by {
            if i < shorter.len() {
                assert(s[i] == shorter[i]);
            }
        }
    }
}

/// A position is the insertion point where the element before it does not
/// come after `x` and every element from it on does.
pub proof fn lemma_insertion_point_found<A>(s: Seq<A>, x: A, le: spec_fn(A, A) -> bool, k: int)
    requires
        0 <= k <= s.len(),
        k > 0 ==> le(s[k - 1], x),
        forall|i: int| k <= i < s.len() ==> !le(#[trigger] s[i], x),
    ensures
        insertion_point(s, x, le) == k,
    decreases s.len(),
{
    if s.len() > 0 && k < s.len() {
        assert(!le(s[s.len() - 1], x));
        lemma_insertion_point_found(s.drop_last(), x, le, k);
    }
}

/// Sorting one more element is putting it into the sorted rest.
pub proof fn lemma_sort_push<A>(s: Seq<A>, x: A, le: spec_fn(A, A) -> bool)
    ensures
        stable_sort(s.push(x), le) == insert_sorted(stable_sort(s, le), x, le),
{
    assert(s.push(x).drop_last() =~= s);
}

/// Sorting keeps the length.
pub proof fn lemma_sort_len<A>(s: Seq<A>, le: spec_fn(A, A) -> bool)
    ensures
        stable_sort(s, le).len() == s.len(),
    decreases s.len(),
{
    if s.len() > 0 {
        lemma_sort_len(s.drop_last(), le);
        lemma_insertion_point(stable_sort(s.drop_last(), le), s.last(), le);
    }
}

/// Sorting rearranges: every value occurs in the result as often as in what
/// was sorted.
pub proof fn lemma_sort_permutes<A>(s: Seq<A>, le: spec_fn(A, A) -> bool)
    ensures
        stable_sort(s, le).to_multiset() == s.to_multiset(),
    decreases s.len(),
{
    if s.len() > 0 {
        let rest = stable_sort(s.drop_last(), le);
        lemma_sort_permutes(s.drop_last(), le);
        lemma_insertion_point(rest, s.last(), le);
        to_multiset_insert(rest, insertion_point(rest, s.last(), le), s.last());
        to_multiset_build(s.drop_last(), s.last());
        assert(s.drop_last().push(s.last()) =~= s);
    }
}

/// The result of sorting is ascending, where any two values compare and the
/// order carries over.
pub proof fn lemma_sort_ascends<A>(s: Seq<A>, le: spec_fn(A, A) -> bool)
    requires
        compares_all(le),
        carries_over(le),
    ensures
        ascending(stable_sort(s, le), le),
    decreases s.len(),
{
    if s.len() > 0 {
        let rest = stable_sort(s.drop_last(), le);
        let x = s.last();
        let k = insertion_point(rest, x, le);
        lemma_sort_ascends(s.drop_last(), le);
        lemma_insertion_point(rest, x, le);
        let result = rest.insert(k, x);
        assert forall|i: int, j: int| 0 <= i < j < result.len() implies le(
            #[trigger] result[i],
            #[trigger] result[j],
        ) by {
            if j < k {
                assert(result[i] == rest[i] && result[j] == rest[j]);
            } else if j == k {
                assert(result[i] == rest[i]);
                if i < k - 1 {
                    assert(le(rest[i], rest[k - 1]));
                }
                assert(le(rest[k - 1], x));
            } else if i < k {
                assert(result[i] == rest[i] && result[j] == rest[j - 1]);
            } else if i == k {
                assert(result[j] == rest[j - 1]);
                assert(!le(rest[j - 1], x));
            } else {
                assert(result[i] == rest[i - 1] && result[j] == rest[j - 1]);
            }
        }
    }
}

/// Sorting keeps ties in order: the elements of a class whose members all
/// come before each other stand in the result as they stood before.
pub proof fn lemma_sort_keeps_ties<A>(s: Seq<A>, le: spec_fn(A, A) -> bool, class: spec_fn(A) -> bool)
    requires
        forall|a: A, b: A| #[trigger] class(a) && #[trigger] class(b) ==> le(a, b),
    ensures
        stable_sort(s, le).filter(class) == s.filter(class),
    decreases s.len(),
{
    if s.len() > 0 {
        let rest = stable_sort(s.drop_last(), le);
        let x = s.last();
        let k = insertion_point(rest, x, le);
        lemma_sort_keeps_ties(s.drop_last(), le, class);
        lemma_insertion_point(rest, x, le);
        let front = rest.subrange(0, k);
        let back = rest.subrange(k, rest.len() as int);
        assert(rest =~= front + back);
        assert(rest.insert(k, x) =~= front.push(x) + back);
        Seq::filter_distributes_over_add(front, back, class);
        Seq::filter_distributes_over_add(front.push(x), back, class);
        front.lemma_filter_push(x, class);
        s.drop_last().lemma_filter_push(x, class);
        assert(s.drop_last().push(x) =~= s);
        if class(x) {
            assert forall|i: int| 0 <= i < back.len() implies !class(#[trigger] back[i]) by {
                assert(back[i] == rest[k + i]);
                assert(!le(rest[k + i], x));
            }
            back.lemma_all_neg_filter_empty(class);
            assert(back.filter(class) =~= Seq::<A>::empty());
            assert(front.filter(class).push(x) + Seq::<A>::empty() =~= front.filter(class).push(x));
            assert(front.filter(class) + Seq::<A>::empty() =~= front.filter(class));
        }
    }
}

} // verus!
