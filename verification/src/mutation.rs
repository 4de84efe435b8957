//! The sequence mutator: substitutes a target number of randomly chosen
//! non-wildcard bases with a different nucleotide each, and reports which
//! positions changed.

use vstd::prelude::*;
use vstd::set_lib::{set_int_range, lemma_int_range, lemma_len_subset, lemma_subset_equality};
use crate::rng::{new_rng, shuffle_indices, choose_of_three};

verus! {

/// ASCII `A`.
pub const BASE_A: u8 = 65;

/// ASCII `T`.
pub const BASE_T: u8 = 84;

/// ASCII `G`.
pub const BASE_G: u8 = 71;

/// ASCII `C`.
pub const BASE_C: u8 = 67;

/// ASCII `N`, the wildcard base: exempt from mutation and from position
/// tracking.
pub const WILDCARD: u8 = 78;

/// A concrete nucleotide symbol: one of A, T, G, C.
pub open spec fn is_nucleotide(b: u8) -> bool {
    b == BASE_A || b == BASE_T || b == BASE_G || b == BASE_C
}

/// A legal sequence symbol: a nucleotide or the wildcard N.
pub open spec fn is_base(b: u8) -> bool {
    is_nucleotide(b) || b == WILDCARD
}

/// Every symbol of the sequence is a legal base.
pub open spec fn valid_sequence(s: Seq<u8>) -> bool {
    forall|i: int| 0 <= i < s.len() ==> is_base(#[trigger] s[i])
}

/// The positions of `s` that hold a non-wildcard base: the only positions a
/// mutation may touch.
pub open spec fn live_set(s: Seq<u8>) -> Set<int> {
    Set::new(|i: int| 0 <= i < s.len() && s[i] != WILDCARD)
}

/// The positions at which two sequences of equal length disagree.
pub open spec fn diff_set(a: Seq<u8>, b: Seq<u8>) -> Set<int> {
    Set::new(|i: int| 0 <= i < a.len() && a[i] != b[i])
}

/// The ascending list of 1-based positions at which `b` disagrees with `a`.
pub open spec fn diff_list(a: Seq<u8>, b: Seq<u8>) -> Seq<usize>
    decreases a.len(),
{
    if a.len() == 0 {
        Seq::<usize>::empty()
    } else if a.last() != b.last() {
        diff_list(a.drop_last(), b.drop_last()).push(a.len() as usize)
    } else {
        diff_list(a.drop_last(), b.drop_last())
    }
}

/// What the mutation of a sequence guarantees: the length is kept, wildcards
/// stay untouched, every changed position holds a nucleotide that differs
/// from the original one, and the number of changed positions is exactly the
/// target, capped by the number of non-wildcard bases.
pub open spec fn seq_mutated(orig: Seq<u8>, target: int, out: Seq<u8>) -> bool {
    &&& out.len() == orig.len()
    &&& forall|i: int| 0 <= i < orig.len() && #[trigger] orig[i] == WILDCARD ==> out[i] == orig[i]
    &&& forall|i: int| 0 <= i < orig.len() && #[trigger] out[i] != orig[i]
        ==> is_nucleotide(out[i]) && is_nucleotide(orig[i])
    &&& diff_set(orig, out).len() == vstd::math::min(target, live_set(orig).len() as int)
}

/// The full contract of the sequence mutator: the sequence is mutated as
/// `seq_mutated` says, and the position list is the ascending 1-based list of
/// changed positions when tracking is on, empty otherwise.
pub open spec fn mutation_valid(
    orig: Seq<u8>,
    target: int,
    track: bool,
    out: Seq<u8>,
    pos: Seq<usize>,
) -> bool {
    &&& seq_mutated(orig, target, out)
    &&& pos == if track {
        diff_list(orig, out)
    } else {
        Seq::<usize>::empty()
    }
}

/// Runtime check for the sequence invariant: callers that receive bytes from
/// outside must test this before handing them to the mutator.
pub fn seq_is_valid(s: &Vec<u8>) -> (r: bool)
    ensures
        r == valid_sequence(s@),
{
    let mut i: usize = 0;
    while i < s.len()
        invariant
            0 <= i <= s@.len(),
            forall|j: int| 0 <= j < i ==> is_base(#[trigger] s@[j]),
        decreases s@.len() - i,
    {
        let b = s[i];
        if !(b == BASE_A || b == BASE_T || b == BASE_G || b == BASE_C || b == WILDCARD) {
            return false;
        }
        i += 1;
    }
    true
}

/// A plain element-wise copy of a byte vector.
fn copy_bytes(v: &Vec<u8>) -> (r: Vec<u8>)
    ensures
        r@ == v@,
{
    let mut r: Vec<u8> = Vec::new();
    let mut i: usize = 0;
    while i < v.len()
        invariant
            0 <= i <= v@.len(),
            r@ == v@.subrange(0, i as int),
        decreases v@.len() - i,
    {
        r.push(v[i]);
        proof {
            assert(r@ =~= v@.subrange(0, i + 1));
        }
        i += 1;
    }
    proof {
        assert(r@ =~= v@);
    }
    r
}

/// Scans two equal-length sequences in order and collects the 1-based
/// positions at which they disagree; the result is `diff_list` exactly.
fn collect_diff_positions(a: &Vec<u8>, b: &Vec<u8>) -> (r: Vec<usize>)
    requires
        a@.len() == b@.len(),
    ensures
        r@ == diff_list(a@, b@),
{
    let mut r: Vec<usize> = Vec::new();
    let mut i: usize = 0;
    while i < a.len()
        invariant
            0 <= i <= a@.len(),
            a@.len() == b@.len(),
            r@ == diff_list(a@.subrange(0, i as int), b@.subrange(0, i as int)),
        decreases a@.len() - i,
    {
        if a[i] != b[i] {
            r.push(i + 1);
        }
        proof {
            let a1 = a@.subrange(0, i + 1);
            let b1 = b@.subrange(0, i + 1);
            assert(a1.drop_last() =~= a@.subrange(0, i as int));
            assert(b1.drop_last() =~= b@.subrange(0, i as int));
            assert(a1.last() == a@[i as int]);
            assert(b1.last() == b@[i as int]);
        }
        i += 1;
    }
    proof {
        assert(a@.subrange(0, a@.len() as int) =~= a@);
        assert(b@.subrange(0, b@.len() as int) =~= b@);
    }
    r
}

/// The sequence mutator. Shuffles the position indices with fresh entropy,
/// walks them in shuffled order, and replaces each non-wildcard base by a
/// uniformly chosen different nucleotide until `num_mut` substitutions are
/// made or the indices are exhausted. When `save_pos` is set, the second
/// component lists the changed positions, 1-based and ascending; otherwise it
/// is empty.
pub fn mutate(sequence: Vec<u8>, num_mut: usize, save_pos: bool) -> (r: (Vec<u8>, Vec<usize>))
    requires
        valid_sequence(sequence@),
    ensures
        mutation_valid(sequence@, num_mut as int, save_pos, r.0@, r.1@),
        valid_sequence(r.0@),
{
    let ghost orig = sequence@;
    let mut sequence = sequence;
    let original: Vec<u8> = if save_pos {
        copy_bytes(&sequence)
    } else {
        Vec::new()
    };
    let seq_len = sequence.len();

    // The index permutation: 0, 1, ..., seq_len - 1, then shuffled.
    let mut idx: Vec<usize> = Vec::new();
    let mut i: usize = 0;
    while i < seq_len
        invariant
            0 <= i <= seq_len,
            idx@.len() == i,
            forall|t: int| 0 <= t < i ==> idx@[t] == t,
        decreases seq_len - i,
    {
        idx.push(i);
        i += 1;
    }
    let ghost idx0 = idx@;
    let mut rng = new_rng();
    shuffle_indices(&mut idx, &mut rng);
    proof {
        broadcast use vstd::seq_lib::group_to_multiset_ensures;

        assert(idx0.no_duplicates());
        idx0.lemma_multiset_has_no_duplicates();
        assert(idx@.to_multiset().len() == idx0.to_multiset().len());
        assert(idx@.len() == seq_len);
        idx@.lemma_multiset_has_no_duplicates_conv();
        assert forall|j: usize| j < seq_len implies idx@.contains(j) by {
            assert(idx0[j as int] == j);
            assert(idx0.contains(j));
            assert(idx0.to_multiset().count(j) > 0);
            assert(idx@.to_multiset().count(j) > 0);
        }
        assert forall|t: int| 0 <= t < seq_len implies idx@[t] < seq_len by {
            assert(idx@.contains(idx@[t]));
            assert(idx@.to_multiset().count(idx@[t]) > 0);
            assert(idx0.to_multiset().count(idx@[t]) > 0);
            assert(idx0.contains(idx@[t]));
            let w = choose|w: int| 0 <= w < idx0.len() && idx0[w] == idx@[t];
            assert(idx0[w] == w);
        }
    }

    let mut num: usize = 0;
    let mut k: usize = 0;
    let ghost mut changed: Set<int> = Set::<int>::empty();
    proof {
        broadcast use vstd::set::axiom_set_empty_len;
    }
    while k < seq_len && num < num_mut
        invariant
            sequence@.len() == seq_len,
            orig.len() == seq_len,
            valid_sequence(orig),
            idx@.len() == seq_len,
            idx@.no_duplicates(),
            forall|t: int| 0 <= t < seq_len ==> idx@[t] < seq_len,
            forall|j: usize| j < seq_len ==> idx@.contains(j),
            0 <= k <= seq_len,
            0 <= num <= num_mut,
            changed.finite(),
            changed.len() == num as int,
            forall|j: int| #[trigger] changed.contains(j)
                ==> 0 <= j < seq_len && orig[j] != WILDCARD,
            forall|j: int| #[trigger] changed.contains(j)
                ==> exists|t: int| 0 <= t < k && idx@[t] as int == j,
            forall|t: int| 0 <= t < k && orig[#[trigger] idx@[t] as int] != WILDCARD
                ==> changed.contains(idx@[t] as int),
            forall|j: int| 0 <= j < seq_len && !changed.contains(j)
                ==> sequence@[j] == orig[j],
            forall|j: int| #[trigger] changed.contains(j)
                ==> is_nucleotide(sequence@[j]) && is_nucleotide(orig[j])
                    && sequence@[j] != orig[j],
        decreases seq_len - k,
    {
        let p = idx[k];
        proof {
            if changed.contains(p as int) {
                let t = choose|t: int| 0 <= t < k && idx@[t] as int == p as int;
                assert(idx@[t] == idx@[k as int]);
                assert(false);
            }
        }
        let b = sequence[p];
        assert(b == orig[p as int]);
        if b == WILDCARD {
            // A wildcard is skipped: it neither mutates nor counts.
        } else {
            let nb = if b == BASE_A {
                choose_of_three(BASE_T, BASE_G, BASE_C, &mut rng)
            } else if b == BASE_T {
                choose_of_three(BASE_A, BASE_G, BASE_C, &mut rng)
            } else if b == BASE_G {
                choose_of_three(BASE_A, BASE_T, BASE_C, &mut rng)
            } else {
                assert(b == BASE_C);
                choose_of_three(BASE_A, BASE_T, BASE_G, &mut rng)
            };
            assert(is_nucleotide(nb) && nb != b);
            sequence.set(p, nb);
            num = num + 1;
            proof {
                vstd::set::axiom_set_insert_len(changed, p as int);
                changed = changed.insert(p as int);
                assert(idx@[k as int] as int == p as int);
            }
        }
        k += 1;
    }

    proof {
        lemma_int_range(0, seq_len as int);
        assert(live_set(orig).subset_of(set_int_range(0, seq_len as int)));
        lemma_len_subset(live_set(orig), set_int_range(0, seq_len as int));
        assert(changed.subset_of(live_set(orig)));
        if num == num_mut {
            lemma_len_subset(changed, live_set(orig));
            assert(changed.len() <= live_set(orig).len());
        } else {
            assert(k == seq_len);
            assert forall|j: int| live_set(orig).contains(j) implies changed.contains(j) by {
                assert(idx@.contains(j as usize));
                let t = choose|t: int| 0 <= t < idx@.len() && idx@[t] == j as usize;
                assert(orig[idx@[t] as int] != WILDCARD);
            }
            assert(changed =~= live_set(orig));
        }
        assert(diff_set(orig, sequence@) =~= changed);
        assert forall|j: int| 0 <= j < seq_len implies is_base(#[trigger] sequence@[j]) by {
            if changed.contains(j) {
            } else {
                assert(sequence@[j] == orig[j]);
            }
        }
    }

    let positions: Vec<usize> = if save_pos {
        collect_diff_positions(&original, &sequence)
    } else {
        Vec::new()
    };
    (sequence, positions)
}

/// The shape of `diff_list`: it is strictly ascending, and it holds a 1-based
/// position exactly when the two sequences disagree there.
pub proof fn lemma_diff_list_props(a: Seq<u8>, b: Seq<u8>)
    requires
        a.len() == b.len(),
        a.len() <= usize::MAX,
    ensures
        forall|t1: int, t2: int| 0 <= t1 < t2 < diff_list(a, b).len()
            ==> diff_list(a, b)[t1] < diff_list(a, b)[t2],
        forall|q: usize| #[trigger] diff_list(a, b).contains(q)
            <==> 1 <= q <= a.len() && b[q as int - 1] != a[q as int - 1],
    decreases a.len(),
{
    broadcast use vstd::seq_lib::group_seq_properties;

    if a.len() == 0 {
        assert forall|q: usize| !diff_list(a, b).contains(q) by {
            assert(diff_list(a, b).len() == 0);
        }
    } else {
        let a0 = a.drop_last();
        let b0 = b.drop_last();
        lemma_diff_list_props(a0, b0);
        let pre = diff_list(a0, b0);
        assert forall|t: int| 0 <= t < pre.len() implies 1 <= #[trigger] pre[t] <= a0.len() by {
            assert(pre.contains(pre[t]));
        }
        if a.last() != b.last() {
            assert(diff_list(a, b) == pre.push(a.len() as usize));
            assert forall|q: usize| #[trigger] diff_list(a, b).contains(q) implies
                1 <= q <= a.len() && b[q as int - 1] != a[q as int - 1] by {
                if q != a.len() as usize {
                    assert(pre.contains(q));
                }
            }
            assert forall|q: usize| 1 <= q <= a.len() && b[q as int - 1] != a[q as int - 1]
                implies #[trigger] diff_list(a, b).contains(q) by {
                if q < a.len() {
                    assert(pre.contains(q));
                    let t = choose|t: int| 0 <= t < pre.len() && pre[t] == q;
                    assert(diff_list(a, b)[t] == q);
                } else {
                    assert(diff_list(a, b).last() == q);
                }
            }
        } else {
            assert(diff_list(a, b) == pre);
            assert forall|q: usize| #[trigger] diff_list(a, b).contains(q) implies
                1 <= q <= a.len() && b[q as int - 1] != a[q as int - 1] by {
                assert(pre.contains(q));
            }
            assert forall|q: usize| 1 <= q <= a.len() && b[q as int - 1] != a[q as int - 1]
                implies #[trigger] diff_list(a, b).contains(q) by {
                assert(q < a.len());
                assert(pre.contains(q));
            }
        }
    }
}

/// Without wildcards and with a target no larger than the length, exactly
/// `target` positions change, and every change replaces a nucleotide by a
/// different valid nucleotide.
pub proof fn lemma_exact_count_without_wildcards(orig: Seq<u8>, target: int, out: Seq<u8>)
    requires
        seq_mutated(orig, target, out),
        forall|i: int| 0 <= i < orig.len() ==> #[trigger] orig[i] != WILDCARD,
        0 <= target <= orig.len(),
    ensures
        diff_set(orig, out).len() == target,
        forall|i: int| 0 <= i < orig.len() && #[trigger] out[i] != orig[i]
            ==> is_nucleotide(out[i]) && is_nucleotide(orig[i]),
{
    assert(live_set(orig) =~= set_int_range(0, orig.len() as int));
    lemma_int_range(0, orig.len() as int);
}

/// A wildcard base is never altered and its position never enters the
/// position list, whatever the target.
pub proof fn lemma_wildcards_untouched(orig: Seq<u8>, target: int, out: Seq<u8>, i: int)
    requires
        seq_mutated(orig, target, out),
        orig.len() <= usize::MAX,
        0 <= i < orig.len(),
        orig[i] == WILDCARD,
    ensures
        out[i] == orig[i],
        !diff_list(orig, out).contains((i + 1) as usize),
{
    lemma_diff_list_props(orig, out);
}

/// The position list is strictly ascending and holds only 1-based positions
/// within the sequence.
pub proof fn lemma_position_list_sorted(orig: Seq<u8>, out: Seq<u8>)
    requires
        out.len() == orig.len(),
        orig.len() <= usize::MAX,
    ensures
        forall|t1: int, t2: int| 0 <= t1 < t2 < diff_list(orig, out).len()
            ==> diff_list(orig, out)[t1] < diff_list(orig, out)[t2],
        forall|q: usize| #[trigger] diff_list(orig, out).contains(q)
            ==> 1 <= q <= orig.len(),
{
    lemma_diff_list_props(orig, out);
}

/// The boundary targets: a target of one changes exactly one position as soon
/// as any non-wildcard base exists, and the full-length target with no
/// wildcards changes every position.
pub proof fn lemma_boundary_targets(orig: Seq<u8>, target: int, out: Seq<u8>)
    requires
        seq_mutated(orig, target, out),
    ensures
        target == 1 && live_set(orig).len() >= 1 ==> diff_set(orig, out).len() == 1,
        (target == orig.len()
            && (forall|i: int| 0 <= i < orig.len() ==> #[trigger] orig[i] != WILDCARD))
            ==> forall|i: int| 0 <= i < orig.len() ==> #[trigger] out[i] != orig[i],
{
    lemma_int_range(0, orig.len() as int);
    if target == orig.len()
        && (forall|i: int| 0 <= i < orig.len() ==> #[trigger] orig[i] != WILDCARD) {
        assert(live_set(orig) =~= set_int_range(0, orig.len() as int));
        assert(diff_set(orig, out).subset_of(set_int_range(0, orig.len() as int)));
        lemma_len_subset(diff_set(orig, out), set_int_range(0, orig.len() as int));
        lemma_subset_equality(diff_set(orig, out), set_int_range(0, orig.len() as int));
        assert forall|i: int| 0 <= i < orig.len() implies #[trigger] out[i] != orig[i] by {
            assert(diff_set(orig, out).contains(i));
        }
    }
}

} // verus!
