use shade::history::SampleHistory;

#[test]
fn empty_history_reads_nothing() {
    let history: SampleHistory<f64> = SampleHistory::new(10, 0.0);
    assert_eq!(history.total_samples_pushed(), 0);
    assert_eq!(history.neighbours(0), None);
}

#[test]
fn reads_back_what_was_pushed() {
    let mut history = SampleHistory::new(10, 0.0);
    for value in [1.0, 2.0, 3.0, 4.0] {
        history.push(value);
    }
    assert_eq!(history.neighbours(0), Some((4.0, 3.0)));
    assert_eq!(history.neighbours(2), Some((2.0, 1.0)));
    assert_eq!(history.neighbours(3), None);
}

#[test]
fn wraps_around_capacity() {
    let mut history = SampleHistory::new(4, 0u32);
    for value in 1..=10u32 {
        history.push(value);
    }
    assert_eq!(history.total_samples_pushed(), 10);
    assert_eq!(history.neighbours(0), Some((10, 9)));
    assert_eq!(history.neighbours(2), Some((8, 7)));
    assert_eq!(history.neighbours(3), None);
}

#[test]
fn small_capacity_is_raised() {
    let mut history = SampleHistory::new(1, 0i64);
    for value in 1..=4 {
        history.push(value);
    }
    assert_eq!(history.neighbours(2), Some((2, 1)));
}

#[test]
fn push_ages_every_value() {
    let mut history = SampleHistory::new(6, 0u8);
    history.push(10);
    history.push(20);
    history.push(30);
    let before = history.neighbours(0);
    history.push(40);
    assert_eq!(history.neighbours(1), before);
    assert_eq!(history.neighbours(0), Some((40, 30)));
}
