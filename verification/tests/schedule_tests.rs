use shade::schedule::{
    BlockCursor, EngineClock, RingoutCounter, sub_step_count, MAX_BLOCK_SIZE, RINGOUT_STEPS,
};

#[test]
fn blocks_without_events() {
    let mut cursor = BlockCursor::new(150);
    let mut blocks = Vec::new();
    while cursor.has_more() {
        blocks.push((cursor.start(), cursor.end()));
        cursor.advance();
    }
    assert_eq!(blocks, vec![(0, 64), (64, 128), (128, 150)]);
}

#[test]
fn empty_buffer_has_no_block() {
    let cursor = BlockCursor::new(0);
    assert!(!cursor.has_more());
    assert_eq!(cursor.end(), 0);
}

#[test]
fn event_cuts_block() {
    let mut cursor = BlockCursor::new(100);
    assert!(cursor.is_due(0));
    assert!(!cursor.is_due(10));
    assert!(cursor.cut_at(10));
    assert_eq!((cursor.start(), cursor.end()), (0, 10));
    cursor.advance();
    assert_eq!((cursor.start(), cursor.end()), (10, 10 + MAX_BLOCK_SIZE));
    assert!(cursor.is_due(10));
    assert!(!cursor.cut_at(90));
}

#[test]
fn engine_clock_interpolation_pair() {
    let mut clock = EngineClock::new(0.0f64);
    let base_step = 3u64;
    let mut step = 0;
    while clock.needs_engine_step(base_step) {
        clock.record_engine_step(step as f64 * 10.0);
        step += 1;
    }
    assert_eq!(clock.engine_steps_rendered(), 5);
    assert_eq!(clock.interpolation_pair(base_step), (30.0, 40.0));
    clock.finish_output_sample();
    assert_eq!(clock.output_samples_rendered(), 1);
    clock.reset(0.0);
    assert_eq!(clock.engine_steps_rendered(), 0);
    assert_eq!(clock.output_samples_rendered(), 0);
}

#[test]
fn engine_clock_ring_wraps() {
    let mut clock = EngineClock::new(0u32);
    for value in 0..20u32 {
        clock.record_engine_step(value);
    }
    assert_eq!(clock.interpolation_pair(15), (15, 16));
    assert_eq!(clock.interpolation_pair(18), (18, 19));
}

#[test]
fn ringout_after_last_voice() {
    let mut counter = RingoutCounter::new();
    assert!(!counter.begin_step(false));
    assert!(counter.begin_step(true));
    let mut simulated = 0u64;
    for _ in 0..(RINGOUT_STEPS + 100) {
        if counter.begin_step(false) {
            simulated += 1;
        }
    }
    assert_eq!(simulated, RINGOUT_STEPS);
    counter.begin_step(true);
    counter.reset();
    assert!(!counter.begin_step(false));
}

#[test]
fn sub_steps() {
    assert_eq!(sub_step_count(true, 32), 32);
    assert_eq!(sub_step_count(false, 32), 1);
    assert_eq!(sub_step_count(true, 16), 16);
}
