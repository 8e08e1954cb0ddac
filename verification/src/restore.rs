//! Whole streams through the sink: what comes out, in which order, for every
//! order in which the parallel stages may have completed their items.

use crate::item::WorkItem;
use crate::sink::{run_len, OrderedSink, SinkError, SinkModel};
use vstd::prelude::*;
use vstd::set_lib::{lemma_int_range, lemma_set_subset_finite, lemma_subset_equality};

verus! {

/// The sink after `arrivals` have been offered, one by one and in that order,
/// to a sink that started empty.
pub open spec fn sink_after<T>(arrivals: Seq<WorkItem<T>>) -> SinkModel<T>
    decreases arrivals.len(),
{
    if arrivals.len() == 0 {
        SinkModel::start()
    } else {
        sink_after(arrivals.drop_last()).step(arrivals.last())
    }
}

/// Everything the sink has released while `arrivals` were offered, in the
/// order of release.
pub open spec fn emitted<T>(arrivals: Seq<WorkItem<T>>) -> Seq<WorkItem<T>>
    decreases arrivals.len(),
{
    if arrivals.len() == 0 {
        Seq::empty()
    } else {
        emitted(arrivals.drop_last()) + sink_after(arrivals.drop_last()).step_released(
            arrivals.last(),
        )
    }
}

/// No arrival was refused.
pub open spec fn all_accepted<T>(arrivals: Seq<WorkItem<T>>) -> bool
    decreases arrivals.len(),
{
    arrivals.len() == 0 || (all_accepted(arrivals.drop_last()) && sink_after(
        arrivals.drop_last(),
    ).rejects(arrivals.last().sequence) is None)
}

/// No two arrivals carry the same sequence number, and none carries
/// `u64::MAX`.
pub open spec fn distinct_sequences<T>(arrivals: Seq<WorkItem<T>>) -> bool {
    &&& forall|j: int| 0 <= j < arrivals.len() ==> (#[trigger] arrivals[j]).sequence < u64::MAX
    &&& forall|i: int, j: int|
        0 <= i < j < arrivals.len() ==> (#[trigger] arrivals[i]).sequence != (
        #[trigger] arrivals[j]).sequence
}

/// The arrivals are the items numbered `0 .. arrivals.len()` in some order.
pub open spec fn completes_range<T>(arrivals: Seq<WorkItem<T>>) -> bool {
    &&& arrivals.len() <= u64::MAX
    &&& forall|j: int| 0 <= j < arrivals.len() ==> (#[trigger] arrivals[j]).sequence < arrivals.len()
    &&& forall|i: int, j: int|
        0 <= i < j < arrivals.len() ==> (#[trigger] arrivals[i]).sequence != (
        #[trigger] arrivals[j]).sequence
}

/// A run of consecutive keys ends below `u64::MAX`, every number inside it is
/// a key, and the number just past it is not.
pub proof fn lemma_run_len<T>(m: Map<u64, T>, from: u64)
    ensures
        from + run_len(m, from) <= u64::MAX,
        forall|k: u64| from <= k < from + run_len(m, from) ==> #[trigger] m.contains_key(k),
        from + run_len(m, from) < u64::MAX ==> !m.contains_key((from + run_len(m, from)) as u64),
    decreases u64::MAX - from,
{
    if from < u64::MAX && m.contains_key(from) {
        lemma_run_len(m, (from + 1) as u64);
    }
}

/// One accepted arrival: the sink stays well formed, the released items are
/// numbered consecutively from the expected number, and every item that the
/// sink held or received is afterwards either released or still waiting.
pub proof fn lemma_accept<T>(s: SinkModel<T>, item: WorkItem<T>)
    requires
        s.well_formed(),
        s.rejects(item.sequence) is None,
    ensures
        s.after(item).well_formed(),
        s.after(item).expected == s.expected + s.ready(item),
        s.released(item).len() == s.ready(item),
        forall|i: int|
            0 <= i < s.ready(item) ==> (#[trigger] s.released(item)[i]).sequence == s.expected + i,
        forall|i: int|
            0 <= i < s.ready(item) ==> #[trigger] s.released(item)[i] == item || (s.pending.contains_key(
                s.released(item)[i].sequence,
            ) && s.pending[s.released(item)[i].sequence] == s.released(item)[i].payload),
        forall|k: u64| #[trigger]
            s.with(item).contains_key(k) ==> if k < s.after(item).expected {
                s.expected <= k && s.released(item)[k - s.expected] == (WorkItem {
                    sequence: k,
                    payload: s.with(item)[k],
                })
            } else {
                k > s.after(item).expected && s.after(item).pending.contains_key(k) && s.after(
                    item,
                ).pending[k] == s.with(item)[k]
            },
        forall|k: u64| #[trigger]
            s.after(item).pending.contains_key(k) ==> s.with(item).contains_key(k) && s.after(
                item,
            ).pending[k] == s.with(item)[k],
{
    let all = s.with(item);
    lemma_run_len(all, s.expected);
    let n = s.ready(item);
    assert(s.after(item).well_formed()) by {
        assert forall|k: u64| #[trigger] s.after(item).pending.contains_key(k) implies s.after(
            item,
        ).expected < k < u64::MAX by {
            assert(all.contains_key(k));
        }
        assert(all.dom().finite());
        assert(s.after(item).pending.dom().subset_of(all.dom()));
        lemma_set_subset_finite(all.dom(), s.after(item).pending.dom());
    }
    assert forall|i: int| 0 <= i < n implies #[trigger] s.released(item)[i] == item || (
    s.pending.contains_key(s.released(item)[i].sequence) && s.pending[s.released(
        item,
    )[i].sequence] == s.released(item)[i].payload) by {
        let k = (s.expected + i) as u64;
        assert(all.contains_key(k));
    }
}

/// Whatever arrives, in whatever order, the sink stays well formed and has
/// released exactly the items numbered `0 .. expected`, each once and in
/// increasing order; every released or waiting item is one that arrived.
pub proof fn lemma_released_in_order<T>(arrivals: Seq<WorkItem<T>>)
    ensures
        sink_after(arrivals).well_formed(),
        emitted(arrivals).len() == sink_after(arrivals).expected,
        forall|i: int|
            0 <= i < emitted(arrivals).len() ==> (#[trigger] emitted(arrivals)[i]).sequence == i,
        forall|i: int|
            0 <= i < emitted(arrivals).len() ==> arrivals.contains(#[trigger] emitted(arrivals)[i]),
        forall|k: u64| #[trigger]
            sink_after(arrivals).pending.contains_key(k) ==> arrivals.contains(
                WorkItem { sequence: k, payload: sink_after(arrivals).pending[k] },
            ),
    decreases arrivals.len(),
{
    if arrivals.len() > 0 {
        let before = arrivals.drop_last();
        let item = arrivals.last();
        let s = sink_after(before);
        lemma_released_in_order(before);
        assert forall|x: WorkItem<T>| before.contains(x) implies arrivals.contains(x) by {
            let j = choose|j: int| 0 <= j < before.len() && before[j] == x;
            assert(arrivals[j] == x);
        }
        assert(arrivals.contains(item)) by {
            assert(arrivals[arrivals.len() - 1] == item);
        }
        if s.rejects(item.sequence) is None {
            lemma_accept(s, item);
            let out = s.released(item);
            assert forall|i: int| 0 <= i < emitted(arrivals).len() implies arrivals.contains(
                #[trigger] emitted(arrivals)[i],
            ) by {
                if i >= emitted(before).len() {
                    let r = out[i - emitted(before).len()];
                    assert(emitted(arrivals)[i] == r);
                    if r != item {
                        assert(s.pending.contains_key(r.sequence));
                        assert(r == WorkItem { sequence: r.sequence, payload: s.pending[r.sequence] });
                    }
                } else {
                    assert(emitted(arrivals)[i] == emitted(before)[i]);
                }
            }
            assert forall|k: u64| #[trigger]
                sink_after(arrivals).pending.contains_key(k) implies arrivals.contains(
                WorkItem { sequence: k, payload: sink_after(arrivals).pending[k] },
            ) by {
                assert(s.with(item).contains_key(k));
                if k != item.sequence {
                    assert(s.pending.contains_key(k));
                }
            }
        } else {
            assert(emitted(arrivals) =~= emitted(before));
        }
    }
}

/// When no sequence number arrives twice, nothing is refused and nothing is
/// lost: every arrival numbered below the expected number has been released
/// at the position of its number, every other arrival waits in the buffer,
/// and the expected number itself has not arrived.
pub proof fn lemma_distinct_arrivals<T>(arrivals: Seq<WorkItem<T>>)
    requires
        distinct_sequences(arrivals),
    ensures
        all_accepted(arrivals),
        forall|j: int|
            0 <= j < arrivals.len() ==> if (#[trigger] arrivals[j]).sequence < sink_after(
                arrivals,
            ).expected {
                emitted(arrivals)[arrivals[j].sequence as int] == arrivals[j]
            } else {
                &&& arrivals[j].sequence > sink_after(arrivals).expected
                &&& sink_after(arrivals).pending.contains_key(arrivals[j].sequence)
                &&& sink_after(arrivals).pending[arrivals[j].sequence] == arrivals[j].payload
            },
    decreases arrivals.len(),
{
    if arrivals.len() > 0 {
        let before = arrivals.drop_last();
        let item = arrivals.last();
        let s = sink_after(before);
        assert(distinct_sequences(before)) by {
            assert forall|j: int| 0 <= j < before.len() implies (#[trigger] before[j]).sequence
                < u64::MAX by {
                assert(before[j] == arrivals[j]);
            }
            assert forall|i: int, j: int| 0 <= i < j < before.len() implies (
            #[trigger] before[i]).sequence != (#[trigger] before[j]).sequence by {
                assert(before[i] == arrivals[i]);
                assert(before[j] == arrivals[j]);
            }
        }
        lemma_distinct_arrivals(before);
        lemma_released_in_order(before);
        lemma_released_in_order(arrivals);
        assert(item == arrivals[arrivals.len() - 1]);
        assert(s.rejects(item.sequence) is None) by {
            if item.sequence < s.expected {
                let x = emitted(before)[item.sequence as int];
                assert(before.contains(x));
                let j = choose|j: int| 0 <= j < before.len() && before[j] == x;
                assert(arrivals[j] == x);
            }
            if s.pending.contains_key(item.sequence) {
                let x = WorkItem { sequence: item.sequence, payload: s.pending[item.sequence] };
                assert(before.contains(x));
                let j = choose|j: int| 0 <= j < before.len() && before[j] == x;
                assert(arrivals[j] == x);
            }
        }
        lemma_accept(s, item);
        let now = sink_after(arrivals);
        assert forall|j: int| 0 <= j < arrivals.len() implies if (#[trigger] arrivals[j]).sequence
            < now.expected {
            emitted(arrivals)[arrivals[j].sequence as int] == arrivals[j]
        } else {
            &&& arrivals[j].sequence > now.expected
            &&& now.pending.contains_key(arrivals[j].sequence)
            &&& now.pending[arrivals[j].sequence] == arrivals[j].payload
        } by {
            let k = arrivals[j].sequence;
            if j < before.len() {
                assert(before[j] == arrivals[j]);
            }
            if j < before.len() && k < s.expected {
                assert(emitted(arrivals)[k as int] == emitted(before)[k as int]);
            } else {
                assert(s.with(item).contains_key(k));
                assert(s.with(item)[k] == arrivals[j].payload);
                if k < now.expected {
                    assert(emitted(arrivals)[k as int] == s.released(item)[k - s.expected]);
                }
            }
        }
    }
}

/// Among `n` distinct numbers below `n`, every number below `n` occurs.
proof fn lemma_every_number_occurs(ids: Seq<int>, k: int)
    requires
        ids.no_duplicates(),
        forall|j: int| 0 <= j < ids.len() ==> 0 <= #[trigger] ids[j] < ids.len(),
        0 <= k < ids.len(),
    ensures
        ids.contains(k),
{
    let range = Set::new(|i: int| 0 <= i && i < ids.len());
    lemma_int_range(0, ids.len() as int);
    ids.unique_seq_to_set();
    assert(ids.to_set().subset_of(range)) by {
        assert forall|x: int| ids.to_set().contains(x) implies range.contains(x) by {
            let j = choose|j: int| 0 <= j < ids.len() && ids[j] == x;
        }
    }
    lemma_subset_equality(ids.to_set(), range);
    assert(range.contains(k));
}

/// Restoring the order works for every completion order: if the arrivals are
/// the items numbered `0 .. n` in any order whatever, none is refused, the
/// sink releases all `n` of them, the item numbered `i` at position `i`, and
/// nothing is left waiting.
pub proof fn lemma_any_order_is_restored<T>(arrivals: Seq<WorkItem<T>>)
    requires
        completes_range(arrivals),
    ensures
        all_accepted(arrivals),
        emitted(arrivals).len() == arrivals.len(),
        forall|j: int|
            0 <= j < arrivals.len() ==> emitted(arrivals)[(#[trigger] arrivals[j]).sequence as int]
                == arrivals[j],
        forall|i: int|
            0 <= i < arrivals.len() ==> (#[trigger] emitted(arrivals)[i]).sequence == i,
        sink_after(arrivals).expected == arrivals.len(),
        sink_after(arrivals).pending == Map::<u64, T>::empty(),
{
    let n = arrivals.len();
    let s = sink_after(arrivals);
    assert(distinct_sequences(arrivals));
    lemma_distinct_arrivals(arrivals);
    lemma_released_in_order(arrivals);
    if s.expected > n {
        let x = emitted(arrivals)[n as int];
        let j = choose|j: int| 0 <= j < arrivals.len() && arrivals[j] == x;
        assert(arrivals[j].sequence < n);
    }
    if s.expected < n {
        let ids = Seq::new(n, |j: int| arrivals[j].sequence as int);
        assert(ids.no_duplicates()) by {
            assert forall|i: int, j: int| 0 <= i < ids.len() && 0 <= j < ids.len() && i != j implies ids[i]
                != ids[j] by {
                if i < j {
                    assert(arrivals[i].sequence != arrivals[j].sequence);
                } else {
                    assert(arrivals[j].sequence != arrivals[i].sequence);
                }
            }
        }
        assert forall|j: int| 0 <= j < ids.len() implies 0 <= #[trigger] ids[j] < ids.len() by {
            assert(arrivals[j].sequence < n);
        }
        lemma_every_number_occurs(ids, s.expected as int);
        let j = choose|j: int| 0 <= j < ids.len() && ids[j] == s.expected as int;
        assert(arrivals[j].sequence == s.expected);
    }
    assert(s.pending =~= Map::<u64, T>::empty()) by {
        assert forall|k: u64| !s.pending.contains_key(k) by {
            if s.pending.contains_key(k) {
                let x = WorkItem { sequence: k, payload: s.pending[k] };
                let j = choose|j: int| 0 <= j < arrivals.len() && arrivals[j] == x;
                assert(arrivals[j].sequence < n);
            }
        }
    }
}

/// Dropped items are never passed over in silence. When no sequence number
/// arrives twice, the sink releases the arrivals below the first missing
/// number, in increasing order and each once, and keeps every arrival above
/// it waiting; so closing the sink reports the missing number exactly when
/// some arrival lies beyond it.
pub proof fn lemma_first_gap_is_reported<T>(arrivals: Seq<WorkItem<T>>)
    requires
        distinct_sequences(arrivals),
    ensures
        all_accepted(arrivals),
        emitted(arrivals).len() == sink_after(arrivals).expected,
        forall|i: int|
            0 <= i < emitted(arrivals).len() ==> (#[trigger] emitted(arrivals)[i]).sequence == i
                && arrivals.contains(emitted(arrivals)[i]),
        forall|j: int|
            0 <= j < arrivals.len() ==> (#[trigger] arrivals[j]).sequence != sink_after(
                arrivals,
            ).expected,
        forall|j: int|
            0 <= j < arrivals.len() ==> ((#[trigger] arrivals[j]).sequence > sink_after(
                arrivals,
            ).expected <==> sink_after(arrivals).pending.contains_key(arrivals[j].sequence)),
        (sink_after(arrivals).pending.len() > 0) <==> (exists|j: int|
            0 <= j < arrivals.len() && (#[trigger] arrivals[j]).sequence > sink_after(
                arrivals,
            ).expected),
{
    let s = sink_after(arrivals);
    lemma_distinct_arrivals(arrivals);
    lemma_released_in_order(arrivals);
    if s.pending.len() > 0 {
        assert(s.pending.dom().len() > 0);
        let k = s.pending.dom().choose();
        assert(s.pending.contains_key(k));
        let x = WorkItem { sequence: k, payload: s.pending[k] };
        let j = choose|j: int| 0 <= j < arrivals.len() && arrivals[j] == x;
        assert(arrivals[j].sequence > s.expected);
    }
    if exists|j: int| 0 <= j < arrivals.len() && (#[trigger] arrivals[j]).sequence > s.expected {
        let j = choose|j: int| 0 <= j < arrivals.len() && (#[trigger] arrivals[j]).sequence > s.expected;
        assert(s.pending.dom().contains(arrivals[j].sequence));
        assert(s.pending.dom().len() > 0) by {
            if s.pending.dom().len() == 0 {
                s.pending.dom().lemma_len0_is_empty();
            }
        }
    }
}

/// Feeds a whole collection through a fresh sink and closes it: the items
/// come back in sequence order.
///
/// Succeeds exactly when no arrival is refused and nothing is left waiting at
/// the end. The first refusal ends the run with its error; items left waiting
/// end it with the number that is missing.
pub fn collect_ordered<T>(arrivals: Vec<WorkItem<T>>) -> (r: Result<Vec<WorkItem<T>>, SinkError>)
    ensures
        match r {
            Ok(out) => {
                &&& all_accepted(arrivals@)
                &&& sink_after(arrivals@).pending.len() == 0
                &&& out@ == emitted(arrivals@)
            },
            Err(SinkError::Missing { expected, pending }) => {
                &&& all_accepted(arrivals@)
                &&& sink_after(arrivals@).pending.len() > 0
                &&& expected == sink_after(arrivals@).expected
                &&& pending == sink_after(arrivals@).pending.len()
            },
            Err(e) => exists|j: int|
                0 <= j < arrivals@.len() && all_accepted(#[trigger] arrivals@.take(j))
                    && sink_after(arrivals@.take(j)).rejects(arrivals@[j].sequence) == Some(e),
        },
{
    let mut sink: OrderedSink<T> = OrderedSink::new();
    let mut out: Vec<WorkItem<T>> = Vec::new();
    let ghost total = arrivals@;
    for item in it: arrivals
        invariant
            it.seq() == total,
            sink@.well_formed(),
            sink@ == sink_after(total.take(it.index() as int)),
            out@ == emitted(total.take(it.index() as int)),
            all_accepted(total.take(it.index() as int)),
    {
        let ghost j = it.index() as int;
        proof {
            assert(total.take(j + 1).drop_last() =~= total.take(j));
            assert(total.take(j + 1).last() == total[j]);
        }
        match sink.accept(item) {
            Ok(mut batch) => {
                out.append(&mut batch);
            },
            Err(e) => {
                return Err(e);
            },
        }
    }
    proof {
        assert(sink@ == sink_after(total.take(total.len() as int)));
        assert(total.take(total.len() as int) =~= total);
        assert(total == arrivals@);
    }
    match sink.finish() {
        Ok(_) => Ok(out),
        Err(e) => Err(e),
    }
}

} // verus!
