use mockwork::seq_id::LineId as SeqLineId;
use mockwork::utils::{IdCounter, NoneIter, TakeIter};
use mockwork::{SeqId, SequencialGenerator, SequencialId};

#[test]
fn seq_id_starts_at_one_and_counts_up() {
    let first = SeqId::first();
    assert_eq!(first.0, 1);
    assert_eq!(first.next().0, 2);
    assert_eq!(SeqId(41).next().0, 42);
}

#[test]
fn seq_id_wraps_round_to_one() {
    assert_eq!(SeqId(u32::MAX).next().0, 1);
}

#[test]
fn seq_line_id_any_is_the_greatest() {
    assert_eq!(SeqLineId::any().0, u32::MAX);
    assert_eq!(SeqLineId::first().0, 1);
    assert_eq!(SeqLineId(7).next().0, 8);
}

#[test]
fn sequencial_generator_hands_out_in_turn() {
    let mut g: SequencialGenerator<SeqId> = SequencialGenerator::new();
    assert_eq!(g.value().0, 1);
    g.next();
    assert_eq!(g.value().0, 2);
    let v = g.next().value();
    assert_eq!(v.0, 3);
    assert_eq!(g.value().0, 3);
}

#[test]
fn id_counter_counts_from_one() {
    let mut ids = IdCounter::new();
    assert_eq!(ids.next_id(), 1);
    assert_eq!(ids.next_id(), 2);
    assert_eq!(ids.next_id(), 3);
}

#[test]
fn take_iter_yields_once() {
    let mut it = TakeIter::new(5u8);
    assert_eq!(it.next(), Some(5));
    assert_eq!(it.next(), None);
    assert_eq!(it.next(), None);
}

#[test]
fn none_iter_yields_nothing() {
    let mut it: NoneIter<u8> = NoneIter::new();
    assert_eq!(it.next(), None);
}
