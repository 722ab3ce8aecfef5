//! Digit-level behaviour of the engine: expansions, cursor movement,
//! exhaustion, and lockstep composition.

use halton::composite::Composite;
use halton::radix::number;
use halton::sequence::Sequence;
use halton::HaltonError;

fn digits_of(base: u8, index: u64) -> Vec<u8> {
    number(base, index).expect("valid base").digits
}

#[test]
fn number_zero_index_is_empty() {
    for base in [2u8, 3, 5, 7, 16, 255] {
        assert_eq!(digits_of(base, 0), Vec::<u8>::new());
    }
}

#[test]
fn number_small_binary_expansions() {
    assert_eq!(digits_of(2, 1), vec![1]);
    assert_eq!(digits_of(2, 2), vec![0, 1]);
    assert_eq!(digits_of(2, 3), vec![1, 1]);
    assert_eq!(digits_of(2, 4), vec![0, 0, 1]);
    assert_eq!(digits_of(2, 5), vec![1, 0, 1]);
}

#[test]
fn number_other_bases() {
    assert_eq!(digits_of(3, 1), vec![1]);
    assert_eq!(digits_of(3, 5), vec![2, 1]);
    assert_eq!(digits_of(10, 19), vec![9, 1]);
    assert_eq!(digits_of(255, 254), vec![254]);
}

#[test]
fn number_rejects_base_below_two() {
    assert_eq!(number(0, 7), Err(HaltonError::InvalidBase));
    assert_eq!(number(1, 0), Err(HaltonError::InvalidBase));
}

#[test]
fn number_is_deterministic_digit_for_digit() {
    for index in 0..50u64 {
        assert_eq!(digits_of(7, index), digits_of(7, index));
    }
}

#[test]
fn sequence_new_rejects_base_below_two() {
    assert_eq!(Sequence::new(1), Err(HaltonError::InvalidBase));
    assert!(Sequence::new(2).is_ok());
}

#[test]
fn sequence_agrees_with_core() {
    let mut seq = Sequence::new(5).unwrap();
    for index in 1..=20u64 {
        let produced = seq.next().expect("far from exhaustion");
        let direct = number(5, index).unwrap();
        assert_eq!(produced, direct);
    }
}

#[test]
fn sequence_skip_matches_repeated_next() {
    let mut skipped = Sequence::new(3).unwrap();
    skipped.skip(9);
    let after_skip = skipped.next().unwrap();

    let mut stepped = Sequence::new(3).unwrap();
    let mut last = None;
    for _ in 0..10 {
        last = stepped.next();
    }
    assert_eq!(Some(after_skip), last);
}

#[test]
fn sequence_remaining_counts_down() {
    let mut seq = Sequence::new(2).unwrap();
    assert_eq!(seq.remaining(), Some(u64::MAX));
    seq.next();
    assert_eq!(seq.remaining(), Some(u64::MAX - 1));
    seq.skip(10);
    assert_eq!(seq.remaining(), Some(u64::MAX - 11));
}

#[test]
fn sequence_exhaustion_is_sticky() {
    let mut seq = Sequence::new(2).unwrap();
    seq.skip(u64::MAX);
    assert_eq!(seq.remaining(), Some(0));
    assert_eq!(seq.next(), None);
    assert_eq!(seq.next(), None);
    assert_eq!(seq.next(), None);
    assert_eq!(seq.remaining(), Some(0));
}

#[test]
fn sequence_skip_clamps_at_the_end() {
    let mut seq = Sequence::new(2).unwrap();
    seq.skip(u64::MAX - 1);
    seq.skip(u64::MAX);
    assert_eq!(seq.remaining(), Some(0));
    assert_eq!(seq.next(), None);
}

#[test]
fn take_leaves_the_original_untouched() {
    let mut seq = Sequence::new(2).unwrap();
    let taken = seq.take(4);
    assert_eq!(taken.len(), 4);
    for (offset, value) in taken.iter().enumerate() {
        assert_eq!(*value, number(2, 1 + offset as u64).unwrap());
    }
    // The receiver's cursor has not moved: the next value is still the first.
    assert_eq!(seq.next(), Some(number(2, 1).unwrap()));
}

#[test]
fn take_stops_at_exhaustion() {
    let mut seq = Sequence::new(2).unwrap();
    seq.skip(u64::MAX - 2);
    let taken = seq.take(10);
    assert_eq!(taken.len(), 2);
    assert_eq!(taken[0], number(2, u64::MAX - 1).unwrap());
    assert_eq!(taken[1], number(2, u64::MAX).unwrap());
}

#[test]
fn composite_rejects_empty_and_bad_bases() {
    assert_eq!(Composite::new(&vec![]), Err(HaltonError::NoBases));
    assert_eq!(Composite::new(&vec![2, 1, 5]), Err(HaltonError::InvalidBase));
    assert_eq!(Composite::pair(2, 0), Err(HaltonError::InvalidBase));
    assert_eq!(Composite::triple(2, 3, 1), Err(HaltonError::InvalidBase));
    assert_eq!(Composite::from_generators(vec![]), Err(HaltonError::NoBases));
}

#[test]
fn composite_advances_all_axes_in_lockstep() {
    let mut comp = Composite::pair(2, 3).unwrap();
    let first = comp.next().expect("both axes fresh");
    assert_eq!(first, vec![number(2, 1).unwrap(), number(3, 1).unwrap()]);
    let second = comp.next().expect("both axes fresh");
    assert_eq!(second, vec![number(2, 2).unwrap(), number(3, 2).unwrap()]);
}

#[test]
fn composite_triple_produces_three_values_per_step() {
    let mut comp = Composite::triple(2, 3, 5).unwrap();
    let step = comp.next().unwrap();
    assert_eq!(
        step,
        vec![
            number(2, 1).unwrap(),
            number(3, 1).unwrap(),
            number(5, 1).unwrap()
        ]
    );
}

#[test]
fn composite_many_axes() {
    let mut comp = Composite::new(&vec![2, 3, 5, 7]).unwrap();
    let step = comp.next().unwrap();
    assert_eq!(step.len(), 4);
    for (axis, base) in [2u8, 3, 5, 7].into_iter().enumerate() {
        assert_eq!(step[axis], number(base, 1).unwrap());
    }
}

#[test]
fn composite_short_circuits_on_an_exhausted_axis() {
    let mut exhausted = Sequence::new(3).unwrap();
    exhausted.skip(u64::MAX);
    let alive = Sequence::new(2).unwrap();
    let mut comp = Composite::from_generators(vec![alive, exhausted]).unwrap();

    assert_eq!(comp.next(), None);
    // The axis before the exhausted one was advanced and not rolled back...
    assert_eq!(comp.seqs[0].current_index, 1);
    // ...and the exhausted one was left where it was.
    assert_eq!(comp.seqs[1].current_index, u64::MAX);
    // The signal repeats.
    assert_eq!(comp.next(), None);
    assert_eq!(comp.seqs[0].current_index, 2);
}

#[test]
fn composite_remaining_is_the_smallest_axis_count() {
    let mut comp = Composite::pair(2, 3).unwrap();
    assert_eq!(comp.remaining(), Some(u64::MAX));
    comp.seqs[1].skip(42);
    assert_eq!(comp.remaining(), Some(u64::MAX - 42));
}
