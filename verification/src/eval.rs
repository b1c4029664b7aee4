use vstd::prelude::*;

verus! {

/// Wake counts over a corpus: how many positive clips fired at least once,
/// how many negative clips fired at least once, and how many wake events the
/// negative clips fired in all.
pub struct Tally {
    pub pos_detected: usize,
    pub neg_fired: usize,
    pub fp_events: usize,
}

/// Number of counts that are at least one.
pub open spec fn count_fired(counts: Seq<usize>) -> nat
    decreases counts.len(),
{
    if counts.len() == 0 {
        0
    } else {
        count_fired(counts.drop_last()) + if counts.last() >= 1 { 1nat } else { 0nat }
    }
}

/// Sum of the counts.
pub open spec fn total(counts: Seq<usize>) -> nat
    decreases counts.len(),
{
    if counts.len() == 0 {
        0
    } else {
        total(counts.drop_last()) + counts.last() as nat
    }
}

proof fn lemma_fired_bounded(counts: Seq<usize>)
    ensures
        count_fired(counts) <= counts.len(),
    decreases counts.len(),
{
    if counts.len() > 0 {
        lemma_fired_bounded(counts.drop_last());
    }
}

proof fn lemma_total_monotone(counts: Seq<usize>, i: int)
    requires
        0 <= i <= counts.len(),
    ensures
        total(counts.take(i)) <= total(counts),
    decreases counts.len() - i,
{
    if i < counts.len() {
        lemma_total_monotone(counts, i + 1);
        assert(counts.take(i + 1).drop_last() =~= counts.take(i));
    } else {
        assert(counts.take(i) =~= counts);
    }
}

/// The sum of two runs of counts one after the other is the sum of their
/// sums, and the clips that fired in them are those that fired in either.
pub proof fn lemma_tally_append(a: Seq<usize>, b: Seq<usize>)
    ensures
        total(a + b) == total(a) + total(b),
        count_fired(a + b) == count_fired(a) + count_fired(b),
    decreases b.len(),
{
    if b.len() > 0 {
        lemma_tally_append(a, b.drop_last());
        assert((a + b).drop_last() =~= a + b.drop_last());
    } else {
        assert(a + b =~= a);
    }
}

/// A single clip's sum is its count, and it has fired exactly when that count
/// is at least one.
pub proof fn lemma_tally_single(k: usize)
    ensures
        total(seq![k]) == k,
        count_fired(seq![k]) == if k >= 1 { 1nat } else { 0nat },
{
    let c = seq![k];
    assert(c.drop_last() =~= Seq::<usize>::empty());
    assert(c.last() == k);
    assert(total(c.drop_last()) == 0);
    assert(count_fired(c.drop_last()) == 0);
}

/// Every clip's count is at most the sum; a clip with a count of at least
/// one makes the number fired at least one; the sum is at least the number
/// fired, which is at most the number of clips; all counts zero make both
/// zero, and all counts at least one make every clip fired.
pub proof fn lemma_tally_bounds(c: Seq<usize>)
    ensures
        forall|i: int| 0 <= i < c.len() ==> total(c) >= #[trigger] c[i],
        forall|i: int| 0 <= i < c.len() && #[trigger] c[i] >= 1 ==> count_fired(c) >= 1,
        total(c) >= count_fired(c),
        count_fired(c) <= c.len(),
        (forall|i: int| 0 <= i < c.len() ==> #[trigger] c[i] == 0) ==> total(c) == 0 && count_fired(c) == 0,
        (forall|i: int| 0 <= i < c.len() ==> #[trigger] c[i] >= 1) ==> count_fired(c) == c.len(),
    decreases c.len(),
{
    if c.len() > 0 {
        let w = c.drop_last();
        lemma_tally_bounds(w);
        assert forall|i: int| 0 <= i < c.len() implies total(c) >= #[trigger] c[i] by {
            if i < w.len() {
                assert(c[i] == w[i]);
            }
        }
        assert forall|i: int| 0 <= i < c.len() && #[trigger] c[i] >= 1 implies count_fired(c) >= 1 by {
            if i < w.len() {
                assert(c[i] == w[i]);
            }
        }
        if forall|i: int| 0 <= i < c.len() ==> #[trigger] c[i] == 0 {
            assert forall|i: int| 0 <= i < w.len() implies #[trigger] w[i] == 0 by {
                assert(c[i] == w[i]);
            }
            assert(c[c.len() - 1] == 0);
        }
        if forall|i: int| 0 <= i < c.len() ==> #[trigger] c[i] >= 1 {
            assert forall|i: int| 0 <= i < w.len() implies #[trigger] w[i] >= 1 by {
                assert(c[i] == w[i]);
            }
            assert(c[c.len() - 1] >= 1);
        }
    }
}

/// Tallies the wake counts of a threshold's run: `pos` per positive clip,
/// `neg` per negative clip.
pub fn tally(pos: &[usize], neg: &[usize]) -> (t: Tally)
    requires
        total(neg@) <= usize::MAX,
    ensures
        t.pos_detected == count_fired(pos@),
        t.neg_fired == count_fired(neg@),
        t.fp_events == total(neg@),
        t.pos_detected <= pos@.len(),
        t.neg_fired <= neg@.len(),
        t.fp_events >= t.neg_fired,
        forall|i: int| 0 <= i < neg@.len() ==> t.fp_events >= #[trigger] neg@[i],
        forall|i: int| 0 <= i < neg@.len() && #[trigger] neg@[i] >= 1 ==> t.neg_fired >= 1,
        forall|i: int| 0 <= i < pos@.len() && #[trigger] pos@[i] >= 1 ==> t.pos_detected >= 1,
        (forall|i: int| 0 <= i < neg@.len() ==> #[trigger] neg@[i] == 0) ==> t.neg_fired == 0 && t.fp_events == 0,
        (forall|i: int| 0 <= i < pos@.len() ==> #[trigger] pos@[i] == 0) ==> t.pos_detected == 0,
        (forall|i: int| 0 <= i < neg@.len() ==> #[trigger] neg@[i] >= 1) ==> t.neg_fired == neg@.len(),
        (forall|i: int| 0 <= i < pos@.len() ==> #[trigger] pos@[i] >= 1) ==> t.pos_detected == pos@.len(),
{
    let mut pos_detected: usize = 0;
    let mut i: usize = 0;
    while i < pos.len()
        invariant
            i <= pos@.len(),
            pos_detected == count_fired(pos@.take(i as int)),
        decreases pos@.len() - i,
    {
        proof {
            assert(pos@.take(i + 1).drop_last() =~= pos@.take(i as int));
            lemma_fired_bounded(pos@.take(i as int));
        }
        if pos[i] >= 1 {
            pos_detected = pos_detected + 1;
        }
        i = i + 1;
    }
    assert(pos@.take(pos@.len() as int) =~= pos@);
    let mut neg_fired: usize = 0;
    let mut fp_events: usize = 0;
    let mut j: usize = 0;
    while j < neg.len()
        invariant
            j <= neg@.len(),
            total(neg@) <= usize::MAX,
            neg_fired == count_fired(neg@.take(j as int)),
            fp_events == total(neg@.take(j as int)),
        decreases neg@.len() - j,
    {
        proof {
            assert(neg@.take(j + 1).drop_last() =~= neg@.take(j as int));
            lemma_fired_bounded(neg@.take(j as int));
            lemma_total_monotone(neg@, j + 1);
        }
        let n = neg[j];
        if n >= 1 {
            neg_fired = neg_fired + 1;
            fp_events = fp_events + n;
        }
        j = j + 1;
    }
    assert(neg@.take(neg@.len() as int) =~= neg@);
    proof {
        lemma_tally_bounds(pos@);
        lemma_tally_bounds(neg@);
    }
    Tally { pos_detected, neg_fired, fp_events }
}

} // verus!
