use seqtools::itertools::{ExtendedIterator, Extract, GroupBy, LazyCycle, Tee, VecSource};

fn source(items: &[u64]) -> VecSource {
    VecSource::new(items.to_vec())
}

fn drain<I: ExtendedIterator>(mut it: I) -> Vec<u64> {
    let mut out = Vec::new();
    while let Some(v) = it.next() {
        out.push(v);
    }
    out
}

#[test]
fn vec_source_yields_in_order_then_exhausts() {
    let mut s = source(&[10, 20]);
    assert_eq!(s.next(), Some(10));
    assert_eq!(s.next(), Some(20));
    assert_eq!(s.next(), None);
    assert_eq!(s.next(), None);
}

#[test]
fn cycle_replays_source() {
    // Source [1,2,5]: five polls yield 1,2,5,1,2.
    let mut c = LazyCycle::new(source(&[1, 2, 5]));
    let got: Vec<u64> = (0..5).map(|_| c.next().unwrap()).collect();
    assert_eq!(got, vec![1, 2, 5, 1, 2]);
}

#[test]
fn cycle_three_full_replays() {
    // 3N polls yield the source three times over.
    let src = [7u64, 8, 9];
    let mut c = LazyCycle::new(source(&src));
    let got: Vec<u64> = (0..9).map(|_| c.next().unwrap()).collect();
    let mut expected = Vec::new();
    for _ in 0..3 {
        expected.extend_from_slice(&src);
    }
    assert_eq!(got, expected);
}

#[test]
fn cycle_of_empty_source_is_always_exhausted() {
    let mut c = LazyCycle::new(source(&[]));
    assert_eq!(c.next(), None);
    assert_eq!(c.next(), None);
    assert_eq!(c.next(), None);
}

#[test]
fn cycle_of_single_element() {
    let mut c = LazyCycle::new(source(&[42]));
    assert_eq!(c.next(), Some(42));
    assert_eq!(c.next(), Some(42));
    assert_eq!(c.next(), Some(42));
}

#[test]
fn extract_middle_element() {
    // Source [1,2,3,4,5], index 2: extracted 3, remainder 1,2,4,5.
    let (extracted, rest) = Extract::new(source(&[1, 2, 3, 4, 5]), 2);
    assert_eq!(extracted, Some(3));
    assert_eq!(drain(rest), vec![1, 2, 4, 5]);
}

#[test]
fn extract_first_element() {
    let (extracted, rest) = Extract::new(source(&[1, 2, 3]), 0);
    assert_eq!(extracted, Some(1));
    assert_eq!(drain(rest), vec![2, 3]);
}

#[test]
fn extract_last_element() {
    let (extracted, rest) = Extract::new(source(&[1, 2, 3]), 2);
    assert_eq!(extracted, Some(3));
    assert_eq!(drain(rest), vec![1, 2]);
}

#[test]
fn extract_past_the_end_returns_nothing_and_keeps_all() {
    let (extracted, rest) = Extract::new(source(&[1, 2]), 5);
    assert_eq!(extracted, None);
    assert_eq!(drain(rest), vec![1, 2]);
}

#[test]
fn extract_at_the_exact_length_returns_nothing() {
    let (extracted, rest) = Extract::new(source(&[1, 2]), 2);
    assert_eq!(extracted, None);
    assert_eq!(drain(rest), vec![1, 2]);
}

#[test]
fn extract_from_empty_source() {
    let (extracted, rest) = Extract::new(source(&[]), 0);
    assert_eq!(extracted, None);
    assert_eq!(drain(rest), Vec::<u64>::new());
}

#[test]
fn extract_is_itself_a_sequence() {
    // The remainder can be wrapped again: extract 2 from [1,2,3,4], then
    // cycle the remainder 1,3,4 forever.
    let (extracted, rest) = Extract::new(source(&[1, 2, 3, 4]), 1);
    assert_eq!(extracted, Some(2));
    let mut c = LazyCycle::new(rest);
    let got: Vec<u64> = (0..6).map(|_| c.next().unwrap()).collect();
    assert_eq!(got, vec![1, 3, 4, 1, 3, 4]);
}

#[test]
fn fork_alternating_polls() {
    // Source [1,2]: poll first (1), second (1), first (2), second (2).
    let mut t = Tee::new(source(&[1, 2]));
    assert_eq!(t.next_first(), Some(1));
    assert_eq!(t.next_second(), Some(1));
    assert_eq!(t.next_first(), Some(2));
    assert_eq!(t.next_second(), Some(2));
    assert_eq!(t.next_first(), None);
    assert_eq!(t.next_second(), None);
}

#[test]
fn fork_one_handle_drains_before_the_other_starts() {
    let src = [4u64, 5, 6];
    let mut t = Tee::new(source(&src));
    let mut first = Vec::new();
    while let Some(v) = t.next_first() {
        first.push(v);
    }
    let mut second = Vec::new();
    while let Some(v) = t.next_second() {
        second.push(v);
    }
    assert_eq!(first, src.to_vec());
    assert_eq!(second, src.to_vec());
}

#[test]
fn fork_uneven_interleaving() {
    let mut t = Tee::new(source(&[1, 2, 3, 4]));
    assert_eq!(t.next_second(), Some(1));
    assert_eq!(t.next_second(), Some(2));
    assert_eq!(t.next_second(), Some(3));
    assert_eq!(t.next_first(), Some(1));
    assert_eq!(t.next_second(), Some(4));
    assert_eq!(t.next_second(), None);
    assert_eq!(t.next_first(), Some(2));
    assert_eq!(t.next_first(), Some(3));
    assert_eq!(t.next_first(), Some(4));
    assert_eq!(t.next_first(), None);
}

#[test]
fn fork_of_empty_source() {
    let mut t = Tee::new(source(&[]));
    assert_eq!(t.next_first(), None);
    assert_eq!(t.next_second(), None);
    assert_eq!(t.next_first(), None);
}

#[test]
fn group_by_threshold_key() {
    // Source [1,2,3,4,5], key "< 3 ? 10000 : 5000": exactly two groups.
    let mut g = GroupBy::new(source(&[1, 2, 3, 4, 5]), |x| if x < 3 { 10000 } else { 5000 });
    assert_eq!(g.next(), Some((10000, vec![1, 2])));
    assert_eq!(g.next(), Some((5000, vec![3, 4, 5])));
    assert_eq!(g.next(), None);
}

#[test]
fn group_by_regroups_a_returning_key() {
    // Runs are by adjacency: an earlier key coming back opens a new group.
    let mut g = GroupBy::new(source(&[1, 1, 2, 1]), |x| x);
    assert_eq!(g.next(), Some((1, vec![1, 1])));
    assert_eq!(g.next(), Some((2, vec![2])));
    assert_eq!(g.next(), Some((1, vec![1])));
    assert_eq!(g.next(), None);
}

#[test]
fn group_by_empty_source() {
    let mut g = GroupBy::new(source(&[]), |x| x);
    assert_eq!(g.next(), None);
}
