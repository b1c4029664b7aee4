use vstd::prelude::*;
use crate::chunks::{flatten, leftover, lemma_chunks_partition};
use crate::detector::{
    classified, lemma_last_n_append, lemma_post_keeps_history, lemma_push_keeps_history,
    lemma_vad_sees_every_sample, lemma_vads_keep, run_samples, trailing_silence, vad_chunks,
    DetectorView, PushRecord,
};
use crate::engine::{VadStep, WakeStep};
use crate::ring::{last_n, lemma_ring_holds_latest, ring_push_all};
use crate::sink::SinkCall;

verus! {

/// `longer` begins with `shorter`.
pub open spec fn extends<X>(longer: Seq<X>, shorter: Seq<X>) -> bool {
    &&& longer.len() >= shorter.len()
    &&& forall|j: int|
        #![trigger longer[j]]
        #![trigger shorter[j]]
        0 <= j < shorter.len() ==> longer[j] == shorter[j]
}

/// A sink call that is a wake event carries `pre_roll`; other calls carry none.
pub open spec fn wake_carries<T>(c: SinkCall<T>, pre_roll: Seq<T>) -> bool {
    match c {
        SinkCall::Wake(ev) => ev.pre_roll == pre_roll,
        _ => true,
    }
}

proof fn lemma_wakes_frame<T>(d: DetectorView<T>, wakes: Seq<WakeStep<T>>)
    ensures
        ({
            let e = d.after_wakes(wakes);
            let n = d.calls.len();
            &&& e.ring == d.ring
            &&& e.ring_capacity == d.ring_capacity
            &&& e.vad_log == d.vad_log
            &&& e.vad_q == d.vad_q
            &&& e.pushed == d.pushed
            &&& e.vad_size == d.vad_size
            &&& e.end_silence == d.end_silence
            &&& e.cooldown_len == d.cooldown_len
            &&& e.cooldown == d.cooldown
            &&& e.end_mark == d.end_mark
            &&& e.cooldown_base == d.cooldown_base
            &&& extends(e.calls, d.calls)
            &&& forall|j: int| n <= j < e.calls.len() ==> wake_carries(#[trigger] e.calls[j], d.ring)
            &&& e.calls.len() == n ==> e.calls == d.calls && e.streaming == d.streaming
                && e.trigger_mark == d.trigger_mark && e.silence_run == d.silence_run
            &&& e.calls.len() > n ==> d.armed() && e.streaming && e.trigger_mark == d.vad_log.len()
            &&& d.streaming ==> e.calls.len() == n
        }),
    decreases wakes.len(),
{
    if wakes.len() > 0 {
        let w = wakes.drop_last();
        lemma_wakes_frame(d, w);
        let p = d.after_wakes(w);
        let e = d.after_wakes(wakes);
        if p.armed() && wakes.last().fires {
            assert forall|j: int| d.calls.len() <= j < e.calls.len() implies wake_carries(#[trigger] e.calls[j], d.ring) by {
                if j < p.calls.len() {
                    assert(e.calls[j] == p.calls[j]);
                }
            }
        }
        if e.calls.len() == d.calls.len() {
            assert(e.calls =~= d.calls);
        }
    } else {
        assert(d.after_wakes(wakes) == d);
    }
}

proof fn lemma_finish_frame<T>(d: DetectorView<T>, samples: Seq<T>)
    ensures
        ({
            let e = d.finish_push(samples);
            &&& extends(e.calls, d.calls)
            &&& forall|j: int, x: Seq<T>| d.calls.len() <= j < e.calls.len() ==> #[trigger] wake_carries(e.calls[j], x)
            &&& e.vad_log == d.vad_log
            &&& e.vad_q == d.vad_q
            &&& e.pushed == d.pushed
            &&& e.ring_capacity == d.ring_capacity
            &&& e.end_silence == d.end_silence
            &&& e.cooldown_len == d.cooldown_len
            &&& e.vad_size == d.vad_size
            &&& e.trigger_mark == d.trigger_mark
            &&& !d.streaming ==> e == d
            &&& d.streaming ==> (!e.streaming <==> d.silence_run >= d.end_silence)
            &&& d.streaming && !e.streaming ==> e.end_mark == d.vad_log.len() && e.cooldown_base == d.cooldown_len
            &&& d.streaming ==> e.calls == d.calls + (if samples.len() > 0 {
                seq![SinkCall::Audio(samples)]
            } else {
                Seq::empty()
            }) + (if e.streaming {
                Seq::empty()
            } else {
                seq![SinkCall::<T>::End]
            })
        }),
{
    let e = d.finish_push(samples);
    if d.streaming {
        let audio = if samples.len() > 0 { seq![SinkCall::Audio(samples)] } else { Seq::<SinkCall<T>>::empty() };
        let end = if e.streaming { Seq::<SinkCall<T>>::empty() } else { seq![SinkCall::<T>::End] };
        assert(e.calls =~= d.calls + audio + end);
        assert forall|j: int, x: Seq<T>| d.calls.len() <= j < e.calls.len() implies #[trigger] wake_carries(e.calls[j], x) by {
            if j < d.calls.len() + audio.len() {
                assert(e.calls[j] == audio[j - d.calls.len()]);
            } else {
                assert(e.calls[j] == end[j - d.calls.len() - audio.len()]);
            }
        }
    }
}

/// What a push changes, and what it leaves: it appends its samples to what
/// was pushed and its VAD chunks to the VAD log, only appends to the sink's
/// calls, and every wake event it delivers carries the ring as it stands once
/// the push has entered it.
proof fn lemma_push_frame<T>(d: DetectorView<T>, samples: Seq<T>, vads: Seq<VadStep<T>>, wakes: Seq<WakeStep<T>>)
    ensures
        ({
            let mid = d.fed(samples).after_vads(vads);
            let e = d.after_push(samples, vads, wakes);
            let n = d.calls.len();
            &&& e.pushed == d.pushed + samples
            &&& e.ring_capacity == d.ring_capacity
            &&& e.end_silence == d.end_silence
            &&& e.cooldown_len == d.cooldown_len
            &&& e.vad_size == d.vad_size
            &&& e.vad_log == d.vad_log + vads
            &&& e.vad_q == leftover(d.vad_q + samples, d.vad_size)
            &&& extends(e.calls, d.calls)
            &&& forall|j: int| n <= j < e.calls.len() ==>
                wake_carries(#[trigger] e.calls[j], ring_push_all(d.ring, samples, d.ring_capacity))
            &&& d.streaming ==> e.trigger_mark == d.trigger_mark
            &&& !d.streaming && e.calls.len() == n ==> !e.streaming && e.end_mark == d.end_mark
                && e.cooldown_base == d.cooldown_base
            &&& !d.streaming && e.calls.len() > n ==> mid.armed()
            &&& !d.streaming && e.streaming ==> e.trigger_mark == e.vad_log.len()
            &&& d.streaming && !e.streaming ==> e.end_mark == e.vad_log.len() && e.cooldown_base == e.cooldown_len
        }),
{
    let f = d.fed(samples);
    lemma_vads_keep(f, vads);
    let mid = f.after_vads(vads);
    lemma_wakes_frame(mid, wakes);
    let post = mid.after_wakes(wakes);
    lemma_finish_frame(post, samples);
    let e = post.finish_push(samples);
    assert forall|j: int| d.calls.len() <= j < e.calls.len() implies
        wake_carries(#[trigger] e.calls[j], ring_push_all(d.ring, samples, d.ring_capacity)) by {
        if j < post.calls.len() {
            assert(e.calls[j] == post.calls[j]);
        }
    }
}

/// The state after the first `i + 1` pushes of a run is the state after the
/// first `i` followed by push `i`.
proof fn lemma_run_take<T>(d: DetectorView<T>, pushes: Seq<PushRecord<T>>, i: int)
    requires
        0 <= i < pushes.len(),
    ensures
        d.run(pushes.take(i + 1)) == d.run(pushes.take(i)).step(pushes[i]),
        run_samples(pushes.take(i + 1)) == run_samples(pushes.take(i)) + pushes[i].samples,
{
    assert(pushes.take(i + 1).drop_last() =~= pushes.take(i));
}

proof fn lemma_can_run_take<T>(d: DetectorView<T>, pushes: Seq<PushRecord<T>>, k: int)
    requires
        0 <= k <= pushes.len(),
        d.can_run(pushes),
    ensures
        d.can_run(pushes.take(k)),
{
    assert forall|i: int| 0 <= i < pushes.take(k).len() implies #[trigger] d.run(pushes.take(k).take(i)).can_step(pushes.take(k)[i]) by {
        assert(pushes.take(k).take(i) =~= pushes.take(i));
        assert(d.run(pushes.take(i)).can_step(pushes[i]));
    }
}

/// The sink's calls and the VAD log only grow along a run.
proof fn lemma_run_extends<T>(d: DetectorView<T>, pushes: Seq<PushRecord<T>>, m: int)
    requires
        0 <= m <= pushes.len(),
    ensures
        extends(d.run(pushes).calls, d.run(pushes.take(m)).calls),
        d.run(pushes).vad_log.len() >= d.run(pushes.take(m)).vad_log.len(),
    decreases pushes.len(),
{
    if m == pushes.len() {
        assert(pushes.take(m) =~= pushes);
    } else {
        let w = pushes.drop_last();
        lemma_run_extends(d, w, m);
        assert(w.take(m) =~= pushes.take(m));
        let p = pushes.last();
        lemma_push_frame(d.run(w).sized(p.vad_size, p.wake_size), p.samples, p.vads, p.wakes);
    }
}

/// Across any run of pushes the detector keeps its history
/// (`keeps_history`): what it has been pushed is what it held before
/// followed by the samples of every push, in order; its configuration stays;
/// and the sink's calls and the VAD log only grow.
pub proof fn lemma_run_keeps_history<T>(d: DetectorView<T>, pushes: Seq<PushRecord<T>>)
    requires
        d.keeps_history(),
        d.ring_capacity >= 1,
        d.can_run(pushes),
    ensures
        ({
            let e = d.run(pushes);
            &&& e.keeps_history()
            &&& e.pushed == d.pushed + run_samples(pushes)
            &&& e.ring_capacity == d.ring_capacity
            &&& e.end_silence == d.end_silence
            &&& e.cooldown_len == d.cooldown_len
            &&& extends(e.calls, d.calls)
            &&& extends(e.vad_log, d.vad_log)
        }),
    decreases pushes.len(),
{
    if pushes.len() == 0 {
        assert(d.pushed + run_samples(pushes) =~= d.pushed);
    } else {
        let w = pushes.drop_last();
        let k = w.len() as int;
        assert(pushes.take(k) =~= w);
        lemma_can_run_take(d, pushes, k);
        lemma_run_keeps_history(d, w);
        let b = d.run(w);
        let p = pushes.last();
        assert(d.run(pushes.take(k)).can_step(pushes[k]));
        let s = b.sized(p.vad_size, p.wake_size);
        lemma_push_keeps_history(s, p.samples, p.vads, p.wakes);
        lemma_push_frame(s, p.samples, p.vads, p.wakes);
        assert(d.pushed + run_samples(pushes) =~= (d.pushed + run_samples(w)) + p.samples);
    }
}

proof fn lemma_last_push_pre_roll<T>(d: DetectorView<T>, pushes: Seq<PushRecord<T>>)
    requires
        d.keeps_history(),
        d.ring_capacity >= 1,
        d.can_run(pushes),
        pushes.len() > 0,
    ensures
        forall|j: int| d.run(pushes.drop_last()).calls.len() <= j < d.run(pushes).calls.len() ==>
            wake_carries(#[trigger] d.run(pushes).calls[j], last_n(d.pushed + run_samples(pushes), d.ring_capacity)),
{
    let w = pushes.drop_last();
    let k = w.len() as int;
    assert(pushes.take(k) =~= w);
    lemma_can_run_take(d, pushes, k);
    lemma_run_keeps_history(d, w);
    let b = d.run(w);
    let p = pushes.last();
    let s = b.sized(p.vad_size, p.wake_size);
    lemma_push_frame(s, p.samples, p.vads, p.wakes);
    lemma_ring_holds_latest(b.ring, p.samples, b.ring_capacity);
    lemma_last_n_append(b.pushed, p.samples, b.ring_capacity);
    assert(d.pushed + run_samples(pushes) =~= b.pushed + p.samples);
}

/// Every wake event carries as its pre-roll the latest `ring_capacity`
/// samples of everything pushed up to the end of the push that delivered it,
/// oldest first (all of them while fewer have been pushed). For a detector
/// that starts empty, these are the newest samples of the concatenated 16 kHz
/// output of every push so far, the triggering push included.
pub proof fn lemma_pre_roll_is_latest_audio<T>(d: DetectorView<T>, pushes: Seq<PushRecord<T>>)
    requires
        d.keeps_history(),
        d.ring_capacity >= 1,
        d.can_run(pushes),
    ensures
        forall|k: int, j: int|
            #![trigger d.run(pushes.take(k)), d.run(pushes).calls[j]]
            0 <= k < pushes.len() && d.run(pushes.take(k)).calls.len() <= j < d.run(pushes.take(k + 1)).calls.len()
                ==> wake_carries(
                d.run(pushes).calls[j],
                last_n(d.pushed + run_samples(pushes.take(k + 1)), d.ring_capacity),
            ),
{
    assert forall|k: int, j: int|
        #![trigger d.run(pushes.take(k)), d.run(pushes).calls[j]]
        0 <= k < pushes.len() && d.run(pushes.take(k)).calls.len() <= j < d.run(pushes.take(k + 1)).calls.len()
        implies wake_carries(
            d.run(pushes).calls[j],
            last_n(d.pushed + run_samples(pushes.take(k + 1)), d.ring_capacity),
        ) by {
        let q = pushes.take(k + 1);
        lemma_can_run_take(d, pushes, k + 1);
        assert(q.drop_last() =~= pushes.take(k));
        lemma_last_push_pre_roll(d, q);
        lemma_run_extends(d, pushes, k + 1);
        assert(d.run(pushes).calls[j] == d.run(q).calls[j]);
    }
}

proof fn lemma_trigger_mark_stays<T>(d: DetectorView<T>, pushes: Seq<PushRecord<T>>, t: int, i: int)
    requires
        0 <= t < i <= pushes.len(),
        !d.run(pushes.take(t)).streaming,
        forall|m: int| t < m <= i ==> #[trigger] d.run(pushes.take(m)).streaming,
    ensures
        d.run(pushes.take(i)).trigger_mark == d.run(pushes.take(t + 1)).vad_log.len(),
    decreases i - t,
{
    lemma_run_take(d, pushes, i - 1);
    let b = d.run(pushes.take(i - 1));
    let p = pushes[i - 1];
    lemma_push_frame(b.sized(p.vad_size, p.wake_size), p.samples, p.vads, p.wakes);
    assert(d.run(pushes.take(i)).streaming);
    if i > t + 1 {
        lemma_trigger_mark_stays(d, pushes, t, i - 1);
        assert(d.run(pushes.take(i - 1)).streaming);
    }
}

/// An utterance ends after `end_silence` samples of silence, counted across
/// pushes. Let push `t` start a listening detector streaming, and every later
/// push but the last leave it streaming. Then the last push forwards its
/// samples to the sink as live audio and calls `on_end` after them, as its
/// last call, exactly when the trailing run of non-voice chunks among all the
/// chunks classified since the end of push `t` holds at least `end_silence`
/// samples; `on_end` leaves the detector listening.
pub proof fn lemma_utterance_ends_after_silence<T>(d: DetectorView<T>, pushes: Seq<PushRecord<T>>, t: int)
    requires
        d.keeps_history(),
        d.ring_capacity >= 1,
        d.can_run(pushes),
        0 <= t,
        t + 1 < pushes.len(),
        !d.run(pushes.take(t)).streaming,
        forall|i: int| t < i < pushes.len() ==> #[trigger] d.run(pushes.take(i)).streaming,
    ensures
        ({
            let heard = d.run(pushes).vad_log.skip(d.run(pushes.take(t + 1)).vad_log.len() as int);
            let before = d.run(pushes.drop_last());
            let e = d.run(pushes);
            let p = pushes.last();
            let audio = if p.samples.len() > 0 { seq![SinkCall::Audio(p.samples)] } else { Seq::empty() };
            &&& !e.streaming <==> trailing_silence(heard) >= d.end_silence
            &&& e.calls == before.calls + audio + (if e.streaming {
                Seq::empty()
            } else {
                seq![SinkCall::<T>::End]
            })
        }),
{
    let k = pushes.len() - 1;
    let w = pushes.drop_last();
    assert(pushes.take(k) =~= w);
    lemma_can_run_take(d, pushes, k);
    lemma_run_keeps_history(d, w);
    lemma_trigger_mark_stays(d, pushes, t, k);
    let b = d.run(w);
    assert(d.run(pushes.take(k)).streaming);
    let p = pushes.last();
    assert(d.run(pushes.take(k)).can_step(pushes[k]));
    let s = b.sized(p.vad_size, p.wake_size);
    lemma_post_keeps_history(s, p.samples, p.vads, p.wakes);
    let f = s.fed(p.samples);
    lemma_vads_keep(f, p.vads);
    let mid = f.after_vads(p.vads);
    lemma_wakes_frame(mid, p.wakes);
    let post = mid.after_wakes(p.wakes);
    lemma_finish_frame(post, p.samples);
}

proof fn lemma_classified_append<T>(a: Seq<VadStep<T>>, b: Seq<VadStep<T>>)
    ensures
        classified(a + b) == classified(a) + classified(b),
    decreases b.len(),
{
    if b.len() > 0 {
        lemma_classified_append(a, b.drop_last());
        assert((a + b).drop_last() =~= a + b.drop_last());
    } else {
        assert(a + b =~= a);
    }
}

proof fn lemma_flatten_push<T>(cs: Seq<Seq<T>>, c: Seq<T>)
    ensures
        flatten(cs.push(c)) == flatten(cs) + c,
    decreases cs.len(),
{
    if cs.len() == 0 {
        assert(cs.push(c).drop_first() =~= Seq::<Seq<T>>::empty());
        assert(cs.push(c)[0] == c);
        assert(flatten(cs.push(c).drop_first()) =~= Seq::<T>::empty());
        assert(flatten(cs) + c =~= c + Seq::<T>::empty());
    } else {
        assert(cs.push(c).drop_first() =~= cs.drop_first().push(c));
        lemma_flatten_push(cs.drop_first(), c);
        assert(flatten(cs.push(c)) =~= flatten(cs) + c);
    }
}

proof fn lemma_classified_is_flatten_len<T>(vads: Seq<VadStep<T>>)
    ensures
        classified(vads) == flatten(vad_chunks(vads)).len(),
    decreases vads.len(),
{
    if vads.len() > 0 {
        let w = vads.drop_last();
        lemma_classified_is_flatten_len(w);
        assert(vad_chunks(vads) =~= vad_chunks(w).push(vads.last().chunk));
        lemma_flatten_push(vad_chunks(w), vads.last().chunk);
    } else {
        assert(vad_chunks(vads) =~= Seq::<Seq<T>>::empty());
    }
}

/// What the VAD classifies in a push, together with what is then left in its
/// queue, is what was queued before together with the push.
proof fn lemma_vad_accounting<T>(d: DetectorView<T>, samples: Seq<T>, vads: Seq<VadStep<T>>, wakes: Seq<WakeStep<T>>)
    requires
        d.feeds(samples, vads, wakes),
    ensures
        classified(vads) + d.after_push(samples, vads, wakes).vad_q.len() == d.vad_q.len() + samples.len(),
{
    lemma_push_frame(d, samples, vads, wakes);
    if d.vad_size > 0 {
        lemma_vad_sees_every_sample(d, samples, vads, wakes);
        lemma_classified_is_flatten_len(vads);
    } else {
        assert(vads =~= Seq::<VadStep<T>>::empty());
    }
}

proof fn lemma_quiet_since_end<T>(d: DetectorView<T>, pushes: Seq<PushRecord<T>>, t: int, i: int)
    requires
        d.can_run(pushes),
        0 <= t < i < pushes.len(),
        d.run(pushes.take(t)).streaming,
        !d.run(pushes.take(t + 1)).streaming,
        d.run(pushes.drop_last()).calls.len() == d.run(pushes.take(t + 1)).calls.len(),
    ensures
        ({
            let a = d.run(pushes.take(t + 1));
            let s = d.run(pushes.take(i));
            &&& !s.streaming
            &&& s.calls.len() == a.calls.len()
            &&& s.end_mark == a.vad_log.len()
            &&& s.cooldown_base == a.cooldown_len
            &&& s.cooldown_len == a.cooldown_len
            &&& s.vad_log.len() >= a.vad_log.len()
            &&& classified(s.vad_log.skip(a.vad_log.len() as int)) + s.vad_q.len() + a.pushed.len()
                == a.vad_q.len() + s.pushed.len()
        }),
    decreases i - t,
{
    let a = d.run(pushes.take(t + 1));
    lemma_run_take(d, pushes, i - 1);
    let b = d.run(pushes.take(i - 1));
    let p = pushes[i - 1];
    let sb = b.sized(p.vad_size, p.wake_size);
    lemma_push_frame(sb, p.samples, p.vads, p.wakes);
    if i == t + 1 {
        assert(a.vad_log.skip(a.vad_log.len() as int) =~= Seq::<VadStep<T>>::empty());
    } else {
        lemma_quiet_since_end(d, pushes, t, i - 1);
        let s = d.run(pushes.take(i));
        let k = pushes.len() - 1;
        assert(pushes.drop_last() =~= pushes.take(k));
        lemma_run_extends(d, pushes.take(k), i);
        assert(pushes.take(k).take(i) =~= pushes.take(i));
        assert(s.calls.len() == a.calls.len());
        assert(d.run(pushes.take(i - 1)).can_step(pushes[i - 1]));
        lemma_vad_accounting(sb, p.samples, p.vads, p.wakes);
        let x = a.vad_log.len() as int;
        assert(s.vad_log.skip(x) =~= b.vad_log.skip(x) + p.vads);
        lemma_classified_append(b.vad_log.skip(x), p.vads);
    }
}

/// No wake event before a full cooldown of audio has gone through the
/// voice-activity engine since the end of the latest utterance, however high
/// the wake scores. Let push `t` end an utterance, the pushes after it make
/// no call on the sink, and the last push deliver the next wake event. Then
/// the chunks classified since the end of push `t` hold at least
/// `cooldown_len` samples; so the samples pushed since, together with the
/// fewer than one chunk's worth already waiting for the engine at that end,
/// are at least `cooldown_len`.
pub proof fn lemma_cooldown_holds_off_next_wake<T>(d: DetectorView<T>, pushes: Seq<PushRecord<T>>, t: int)
    requires
        d.keeps_history(),
        d.ring_capacity >= 1,
        d.can_run(pushes),
        0 <= t,
        t + 1 < pushes.len(),
        d.run(pushes.take(t)).streaming,
        !d.run(pushes.take(t + 1)).streaming,
        d.run(pushes.drop_last()).calls.len() == d.run(pushes.take(t + 1)).calls.len(),
        d.run(pushes).calls.len() > d.run(pushes.drop_last()).calls.len(),
    ensures
        ({
            let a = d.run(pushes.take(t + 1));
            let e = d.run(pushes);
            &&& classified(e.vad_log.skip(a.vad_log.len() as int)) >= d.cooldown_len
            &&& (e.pushed.len() - a.pushed.len()) + a.vad_q.len() >= d.cooldown_len
            &&& a.vad_size > 0 ==> a.vad_q.len() < a.vad_size
        }),
{
    let a = d.run(pushes.take(t + 1));
    lemma_can_run_take(d, pushes, t + 1);
    lemma_run_keeps_history(d, pushes.take(t + 1));
    lemma_run_take(d, pushes, t);
    let pt = pushes[t];
    let st = d.run(pushes.take(t)).sized(pt.vad_size, pt.wake_size);
    lemma_push_frame(st, pt.samples, pt.vads, pt.wakes);
    if a.vad_size > 0 {
        lemma_chunks_partition(st.vad_q + pt.samples, st.vad_size);
    }

    let k = pushes.len() - 1;
    let w = pushes.drop_last();
    assert(pushes.take(k) =~= w);
    lemma_quiet_since_end(d, pushes, t, k);
    lemma_can_run_take(d, pushes, k);
    lemma_run_keeps_history(d, w);
    let b = d.run(w);
    let p = pushes.last();
    assert(d.run(pushes.take(k)).can_step(pushes[k]));
    let s = b.sized(p.vad_size, p.wake_size);
    lemma_push_frame(s, p.samples, p.vads, p.wakes);
    lemma_post_keeps_history(s, p.samples, p.vads, p.wakes);
    let f = s.fed(p.samples);
    lemma_vads_keep(f, p.vads);
    let mid = f.after_vads(p.vads);
    lemma_wakes_frame(mid, p.wakes);
    let post = mid.after_wakes(p.wakes);
    lemma_finish_frame(post, p.samples);
    let e = d.run(pushes);
    let x = a.vad_log.len() as int;
    assert(classified(post.vad_log.skip(x)) >= d.cooldown_len);
    lemma_vad_accounting(s, p.samples, p.vads, p.wakes);
    assert(e.vad_log.skip(x) =~= b.vad_log.skip(x) + p.vads);
    lemma_classified_append(b.vad_log.skip(x), p.vads);
}

/// The detector with the record of the resampler's calls set aside.
pub open spec fn apart_from_resampling<T>(d: DetectorView<T>) -> DetectorView<T> {
    DetectorView { resample_log: Seq::empty(), ..d }
}

proof fn lemma_vads_apart<T>(d: DetectorView<T>, vads: Seq<VadStep<T>>)
    ensures
        apart_from_resampling(d).after_vads(vads) == apart_from_resampling(d.after_vads(vads)),
    decreases vads.len(),
{
    if vads.len() > 0 {
        lemma_vads_apart(d, vads.drop_last());
    }
}

proof fn lemma_wakes_apart<T>(d: DetectorView<T>, wakes: Seq<WakeStep<T>>)
    ensures
        apart_from_resampling(d).after_wakes(wakes) == apart_from_resampling(d.after_wakes(wakes)),
    decreases wakes.len(),
{
    if wakes.len() > 0 {
        lemma_wakes_apart(d, wakes.drop_last());
    }
}

proof fn lemma_step_apart<T>(d: DetectorView<T>, p: PushRecord<T>)
    ensures
        apart_from_resampling(d).step(p) == apart_from_resampling(d.step(p)),
        apart_from_resampling(d).can_step(p) == d.can_step(p),
{
    let s = d.sized(p.vad_size, p.wake_size);
    let f = s.fed(p.samples);
    assert(apart_from_resampling(d).sized(p.vad_size, p.wake_size).fed(p.samples) == apart_from_resampling(f));
    lemma_vads_apart(f, p.vads);
    lemma_wakes_apart(f.after_vads(p.vads), p.wakes);
}

/// A push reads nothing of the resampler's record and leaves it as it was.
/// So the laws stated here of `run` hold of pushes made through
/// `Detector::push`, each after one call of the resampler, once that record
/// is set aside: the run from the detector apart from its record is the
/// detector after the run, apart from its record.
pub proof fn lemma_run_apart_from_resampling<T>(d: DetectorView<T>, pushes: Seq<PushRecord<T>>)
    ensures
        apart_from_resampling(d).run(pushes) == apart_from_resampling(d.run(pushes)),
        apart_from_resampling(d).can_run(pushes) == d.can_run(pushes),
        apart_from_resampling(d).keeps_history() == d.keeps_history(),
    decreases pushes.len(),
{
    if pushes.len() > 0 {
        lemma_run_apart_from_resampling(d, pushes.drop_last());
        lemma_step_apart(d.run(pushes.drop_last()), pushes.last());
    }
    let a = apart_from_resampling(d);
    assert forall|i: int|
        #![trigger a.run(pushes.take(i)).can_step(pushes[i])]
        #![trigger d.run(pushes.take(i)).can_step(pushes[i])]
        0 <= i < pushes.len() implies a.run(pushes.take(i)).can_step(pushes[i])
        == d.run(pushes.take(i)).can_step(pushes[i]) by {
        lemma_run_apart_from_resampling(d, pushes.take(i));
        lemma_step_apart(d.run(pushes.take(i)), pushes[i]);
    }
}

} // verus!
