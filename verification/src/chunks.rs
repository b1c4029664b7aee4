use vstd::prelude::*;

verus! {

/// The consecutive complete chunks of `n` samples at the front of `q`, in order.
pub open spec fn chunks_of<T>(q: Seq<T>, n: nat) -> Seq<Seq<T>>
    decreases q.len(),
{
    if n == 0 || q.len() < n {
        Seq::empty()
    } else {
        seq![q.take(n as int)] + chunks_of(q.skip(n as int), n)
    }
}

/// What remains of `q` after its complete chunks of `n` samples are taken.
pub open spec fn leftover<T>(q: Seq<T>, n: nat) -> Seq<T>
    decreases q.len(),
{
    if n == 0 || q.len() < n {
        q
    } else {
        leftover(q.skip(n as int), n)
    }
}

/// The chunks of a sequence are its prefix cut into pieces of `n`; what is
/// left is shorter than `n`, and chunks followed by leftover give back `q`.
pub proof fn lemma_chunks_partition<T>(q: Seq<T>, n: nat)
    requires
        n > 0,
    ensures
        leftover(q, n).len() < n,
        chunks_of(q, n).len() == q.len() / n,
        forall|i: int| 0 <= i < chunks_of(q, n).len() ==> #[trigger] chunks_of(q, n)[i].len() == n,
        flatten(chunks_of(q, n)) + leftover(q, n) == q,
    decreases q.len(),
{
    if q.len() < n {
        assert(q.len() / n == 0) by (nonlinear_arith)
            requires q.len() < n, n > 0;
        assert(flatten(chunks_of(q, n)) + leftover(q, n) =~= q);
    } else {
        let rest = q.skip(n as int);
        lemma_chunks_partition(rest, n);
        assert(q.len() / n == rest.len() / n + 1) by (nonlinear_arith)
            requires rest.len() == q.len() - n, q.len() >= n, n > 0;
        let c = chunks_of(q, n);
        assert(c == seq![q.take(n as int)] + chunks_of(rest, n));
        assert forall|i: int| 0 <= i < c.len() implies #[trigger] c[i].len() == n by {
            if i > 0 {
                assert(c[i] == chunks_of(rest, n)[i - 1]);
            }
        }
        assert(flatten(c) =~= q.take(n as int) + flatten(chunks_of(rest, n))) by {
            assert(c.drop_first() =~= chunks_of(rest, n));
        }
        assert(leftover(q, n) == leftover(rest, n));
        assert(q.take(n as int) + rest =~= q);
        assert(flatten(c) + leftover(q, n) =~= q.take(n as int) + (flatten(chunks_of(rest, n)) + leftover(rest, n)));
    }
}

/// The concatenation of a sequence of chunks.
pub open spec fn flatten<T>(cs: Seq<Seq<T>>) -> Seq<T>
    decreases cs.len(),
{
    if cs.len() == 0 {
        Seq::empty()
    } else {
        cs[0] + flatten(cs.drop_first())
    }
}

proof fn lemma_chunks_step<T>(q: Seq<T>, pos: int, n: nat)
    requires
        n > 0,
        0 <= pos,
        pos + n <= q.len(),
    ensures
        chunks_of(q.skip(pos), n) == seq![q.subrange(pos, pos + n)] + chunks_of(q.skip(pos + n), n),
        leftover(q.skip(pos), n) == leftover(q.skip(pos + n), n),
{
    assert(q.skip(pos).take(n as int) =~= q.subrange(pos, pos + n));
    assert(q.skip(pos).skip(n as int) =~= q.skip(pos + n));
}

/// Appends `incoming` to `pending`, removes from the front every complete
/// chunk of `size` samples, and returns those chunks in order; what is left
/// (fewer than `size` samples) stays in `pending`.
pub fn take_chunks<T: Copy>(pending: &mut Vec<T>, incoming: &[T], size: usize) -> (chunks: Vec<Vec<T>>)
    ensures
        chunks@.len() == chunks_of(old(pending)@ + incoming@, size as nat).len(),
        forall|i: int| 0 <= i < chunks@.len() ==>
            #[trigger] chunks@[i]@ == chunks_of(old(pending)@ + incoming@, size as nat)[i],
        final(pending)@ == leftover(old(pending)@ + incoming@, size as nat),
{
    let ghost q0 = old(pending)@ + incoming@;
    let mut k: usize = 0;
    while k < incoming.len()
        invariant
            k <= incoming@.len(),
            pending@ == old(pending)@ + incoming@.subrange(0, k as int),
        decreases incoming@.len() - k,
    {
        pending.push(incoming[k]);
        k = k + 1;
    }
    assert(pending@ =~= q0);
    let ghost q = pending@;
    let mut chunks: Vec<Vec<T>> = Vec::new();
    if size == 0 {
        return chunks;
    }
    let mut pos: usize = 0;
    assert(q.skip(0) =~= q);
    while pending.len() - pos >= size
        invariant
            pending@ == q,
            size > 0,
            pos <= q.len(),
            chunks_of(q, size as nat) =~= Seq::new(chunks@.len(), |i: int| chunks@[i]@) + chunks_of(q.skip(pos as int), size as nat),
            leftover(q, size as nat) == leftover(q.skip(pos as int), size as nat),
        decreases q.len() - pos,
    {
        let mut c: Vec<T> = Vec::new();
        let end = pos + size;
        let mut j: usize = pos;
        while j < end
            invariant
                pending@ == q,
                end == pos + size,
                end <= q.len(),
                pos <= j <= end,
                c@ == q.subrange(pos as int, j as int),
            decreases end - j,
        {
            c.push(pending[j]);
            j = j + 1;
        }
        proof { lemma_chunks_step(q, pos as int, size as nat); }
        let ghost before = Seq::new(chunks@.len(), |i: int| chunks@[i]@);
        chunks.push(c);
        assert(Seq::new(chunks@.len(), |i: int| chunks@[i]@) =~= before.push(q.subrange(pos as int, pos + size)));
        pos = pos + size;
    }
    proof {
        let rest = q.skip(pos as int);
        assert(rest.len() < size);
        assert(chunks_of(rest, size as nat) =~= Seq::<Seq<T>>::empty());
        assert(leftover(rest, size as nat) == rest);
    }
    let mut left: Vec<T> = Vec::new();
    let mut j: usize = pos;
    while j < pending.len()
        invariant
            pending@ == q,
            pos <= j <= q.len(),
            left@ == q.subrange(pos as int, j as int),
        decreases q.len() - j,
    {
        left.push(pending[j]);
        j = j + 1;
    }
    assert(left@ =~= q.skip(pos as int));
    *pending = left;
    proof {
        assert forall|i: int| 0 <= i < chunks@.len() implies
            #[trigger] chunks@[i]@ == chunks_of(q0, size as nat)[i] by {
            assert(Seq::new(chunks@.len(), |i: int| chunks@[i]@)[i] == chunks@[i]@);
        }
    }
    chunks
}

} // verus!
