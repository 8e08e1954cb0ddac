use ordered_pipeline::item::{Sequencer, WorkItem};
use ordered_pipeline::reorder::Reorder;
use ordered_pipeline::restore::collect_ordered;
use ordered_pipeline::sink::{OrderedSink, SinkError};

fn item(sequence: u64) -> WorkItem<u64> {
    WorkItem { sequence, payload: sequence * 10 }
}

fn feed(order: &[u64]) -> Vec<u64> {
    let mut sink: OrderedSink<u64> = OrderedSink::new();
    let mut emitted = Vec::new();
    for &sequence in order {
        for out in sink.accept(item(sequence)).unwrap() {
            assert_eq!(out.payload, out.sequence * 10);
            emitted.push(out.sequence);
        }
    }
    assert_eq!(sink.finish(), Ok(order.len() as u64));
    emitted
}

#[test]
fn reassembly_order_2_0_1() {
    assert_eq!(feed(&[2, 0, 1]), vec![0, 1, 2]);
}

#[test]
fn reassembly_order_0_2_1() {
    assert_eq!(feed(&[0, 2, 1]), vec![0, 1, 2]);
}

#[test]
fn reassembly_order_1_0_2() {
    assert_eq!(feed(&[1, 0, 2]), vec![0, 1, 2]);
}

#[test]
fn in_order_arrivals_pass_straight_through() {
    let mut sink: OrderedSink<u64> = OrderedSink::new();
    for sequence in 0..5u64 {
        let out = sink.accept(item(sequence)).unwrap();
        assert_eq!(out.len(), 1);
        assert_eq!(out[0].sequence, sequence);
        assert_eq!(sink.expected(), sequence + 1);
        assert_eq!(sink.pending(), 0);
    }
}

#[test]
fn early_arrivals_wait_and_leave_in_one_burst() {
    let mut sink: OrderedSink<u64> = OrderedSink::new();
    assert!(sink.accept(item(3)).unwrap().is_empty());
    assert!(sink.accept(item(1)).unwrap().is_empty());
    assert!(sink.accept(item(2)).unwrap().is_empty());
    assert_eq!(sink.pending(), 3);
    assert_eq!(sink.expected(), 0);
    let burst = sink.accept(item(0)).unwrap();
    let numbers: Vec<u64> = burst.iter().map(|w| w.sequence).collect();
    let payloads: Vec<u64> = burst.iter().map(|w| w.payload).collect();
    assert_eq!(numbers, vec![0, 1, 2, 3]);
    assert_eq!(payloads, vec![0, 10, 20, 30]);
    assert_eq!(sink.pending(), 0);
    assert_eq!(sink.expected(), 4);
}

#[test]
fn burst_stops_at_the_next_gap() {
    let mut sink: OrderedSink<u64> = OrderedSink::new();
    assert!(sink.accept(item(1)).unwrap().is_empty());
    assert!(sink.accept(item(3)).unwrap().is_empty());
    let burst = sink.accept(item(0)).unwrap();
    let numbers: Vec<u64> = burst.iter().map(|w| w.sequence).collect();
    assert_eq!(numbers, vec![0, 1]);
    assert_eq!(sink.expected(), 2);
    assert_eq!(sink.pending(), 1);
}

#[test]
fn duplicate_of_an_emitted_item_is_refused() {
    let mut sink: OrderedSink<u64> = OrderedSink::new();
    sink.accept(item(0)).unwrap();
    assert_eq!(sink.accept(item(0)).err(), Some(SinkError::Duplicate { sequence: 0 }));
    assert_eq!(sink.expected(), 1);
    assert_eq!(sink.pending(), 0);
}

#[test]
fn duplicate_of_a_waiting_item_is_refused() {
    let mut sink: OrderedSink<u64> = OrderedSink::new();
    sink.accept(item(5)).unwrap();
    assert_eq!(sink.accept(item(5)).err(), Some(SinkError::Duplicate { sequence: 5 }));
    assert_eq!(sink.pending(), 1);
}

#[test]
fn largest_number_is_out_of_range() {
    let mut sink: OrderedSink<u64> = OrderedSink::new();
    let refused = sink.accept(WorkItem { sequence: u64::MAX, payload: 0u64 });
    assert_eq!(refused.err(), Some(SinkError::OutOfRange));
    assert_eq!(sink.pending(), 0);
}

#[test]
fn dropped_item_is_reported_at_the_end() {
    let mut sink: OrderedSink<u64> = OrderedSink::new();
    let mut emitted = Vec::new();
    for sequence in [0u64, 1, 3, 4, 5] {
        for out in sink.accept(item(sequence)).unwrap() {
            emitted.push(out.sequence);
        }
    }
    assert_eq!(emitted, vec![0, 1]);
    assert_eq!(sink.finish(), Err(SinkError::Missing { expected: 2, pending: 3 }));
}

#[test]
fn empty_stream_finishes_cleanly() {
    let sink: OrderedSink<u64> = OrderedSink::new();
    assert_eq!(sink.finish(), Ok(0));
}

#[test]
fn reorder_buffer_stores_replaces_and_removes() {
    let mut buffer: Reorder<&str> = Reorder::new();
    assert!(buffer.is_empty());
    buffer.enqueue(WorkItem { sequence: 7, payload: "seven" });
    buffer.enqueue(WorkItem { sequence: 3, payload: "three" });
    buffer.enqueue(WorkItem { sequence: 7, payload: "again" });
    assert_eq!(buffer.len(), 2);
    assert!(buffer.contains(3));
    assert!(!buffer.contains(4));
    assert!(buffer.remove(4).is_none());
    let taken = buffer.remove(7).unwrap();
    assert_eq!(taken.sequence, 7);
    assert_eq!(taken.payload, "again");
    assert!(buffer.remove(7).is_none());
    assert_eq!(buffer.len(), 1);
    assert!(!buffer.is_empty());
}

#[test]
fn sequencer_counts_from_zero() {
    let mut sequencer = Sequencer::new();
    assert_eq!(sequencer.peek(), 0);
    for expected in 0..4u64 {
        let tagged = sequencer.tag("x").ok().unwrap();
        assert_eq!(tagged.sequence, expected);
        assert_eq!(tagged.payload, "x");
    }
    assert_eq!(sequencer.peek(), 4);
}

#[test]
fn transform_keeps_the_sequence_number() {
    let doubled = WorkItem { sequence: 9, payload: 21u32 }.apply(|x| Some(x * 2)).unwrap();
    assert_eq!(doubled.sequence, 9);
    assert_eq!(doubled.payload, 42);
    let dropped = WorkItem { sequence: 9, payload: 21u32 }.apply(|_| None::<u32>);
    assert!(dropped.is_none());
}

#[test]
fn collect_ordered_restores_any_permutation() {
    let arrivals: Vec<WorkItem<u64>> = [4u64, 0, 3, 1, 2].iter().map(|&s| item(s)).collect();
    let out = collect_ordered(arrivals).ok().unwrap();
    let numbers: Vec<u64> = out.iter().map(|w| w.sequence).collect();
    let payloads: Vec<u64> = out.iter().map(|w| w.payload).collect();
    assert_eq!(numbers, vec![0, 1, 2, 3, 4]);
    assert_eq!(payloads, vec![0, 10, 20, 30, 40]);
}

#[test]
fn collect_ordered_reports_the_first_gap() {
    let arrivals: Vec<WorkItem<u64>> = [2u64, 0, 4].iter().map(|&s| item(s)).collect();
    assert_eq!(
        collect_ordered(arrivals).err(),
        Some(SinkError::Missing { expected: 1, pending: 2 })
    );
}

#[test]
fn collect_ordered_reports_a_duplicate() {
    let arrivals: Vec<WorkItem<u64>> = [1u64, 0, 1].iter().map(|&s| item(s)).collect();
    assert_eq!(collect_ordered(arrivals).err(), Some(SinkError::Duplicate { sequence: 1 }));
}

#[test]
fn sequencer_takes_up_a_stream_where_told() {
    let mut sequencer = Sequencer::starting_at(41);
    assert_eq!(sequencer.peek(), 41);
    assert_eq!(sequencer.tag(()).ok().unwrap().sequence, 41);
    assert_eq!(sequencer.peek(), 42);
}

#[test]
fn sequencer_never_issues_the_largest_number() {
    let mut sequencer = Sequencer::starting_at(u64::MAX - 1);
    let last = sequencer.tag("last").ok().unwrap();
    assert_eq!(last.sequence, u64::MAX - 1);
    assert_eq!(sequencer.peek(), u64::MAX);
    assert_eq!(sequencer.tag("one too many").err(), Some("one too many"));
    assert_eq!(sequencer.peek(), u64::MAX);
}

#[test]
fn sink_runs_up_to_the_last_number_a_generator_can_issue() {
    let mut sequencer = Sequencer::starting_at(u64::MAX - 2);
    let first = sequencer.tag(1u8).ok().unwrap();
    let second = sequencer.tag(2u8).ok().unwrap();
    let mut sink: OrderedSink<u8> = OrderedSink::new();
    assert!(sink.accept(second).unwrap().is_empty());
    assert!(sink.accept(first).unwrap().is_empty());
    assert_eq!(sink.expected(), 0);
    assert_eq!(sink.finish(), Err(SinkError::Missing { expected: 0, pending: 2 }));
}

#[test]
fn failing_transform_names_the_item_it_failed_on() {
    let item = WorkItem { sequence: 17, payload: "not a number" };
    let failure = item.try_apply(|text: &str| text.parse::<u32>().map(Some)).err().unwrap();
    assert_eq!(failure.sequence, 17);
    assert!(failure.cause.to_string().contains("invalid digit"));
}

#[test]
fn fallible_transform_forwards_and_filters() {
    let parsed = WorkItem { sequence: 4, payload: "12" }
        .try_apply(|text: &str| text.parse::<u32>().map(Some))
        .ok()
        .unwrap()
        .unwrap();
    assert_eq!(parsed.sequence, 4);
    assert_eq!(parsed.payload, 12);
    let filtered = WorkItem { sequence: 5, payload: 3u8 }
        .try_apply(|_| Ok::<Option<u8>, ()>(None))
        .ok()
        .unwrap();
    assert!(filtered.is_none());
}
