use office2pdf::heading::HeadingCounterContext;

#[test]
fn counters_increment_and_deeper_levels_restart() {
    let mut ctx = HeadingCounterContext::new();
    assert_eq!(ctx.advance(1, 0, 1), vec![1]);
    assert_eq!(ctx.advance(1, 0, 1), vec![2]);
    assert_eq!(ctx.advance(1, 1, 1), vec![2, 1]);
    assert_eq!(ctx.advance(1, 1, 1), vec![2, 2]);
    assert_eq!(ctx.advance(1, 2, 1), vec![2, 2, 1]);
    assert_eq!(ctx.advance(1, 0, 1), vec![3]);
    assert_eq!(ctx.advance(1, 1, 1), vec![3, 1]);
}

#[test]
fn first_advance_uses_start_value() {
    let mut ctx = HeadingCounterContext::new();
    assert_eq!(ctx.advance(4, 0, 5), vec![5]);
    assert_eq!(ctx.advance(4, 0, 5), vec![6]);
    assert_eq!(ctx.advance(4, 1, 0), vec![6, 0]);
    assert_eq!(ctx.advance(4, 1, 0), vec![6, 1]);
    let mut fresh = HeadingCounterContext::new();
    assert_eq!(fresh.advance(1, 0, 0), vec![0]);
}

#[test]
fn untouched_parent_levels_read_zero() {
    let mut ctx = HeadingCounterContext::new();
    assert_eq!(ctx.advance(1, 2, 1), vec![0, 0, 1]);
}

#[test]
fn schemes_are_independent() {
    let mut ctx = HeadingCounterContext::new();
    assert_eq!(ctx.advance(1, 0, 1), vec![1]);
    assert_eq!(ctx.advance(2, 0, 1), vec![1]);
    assert_eq!(ctx.advance(1, 0, 1), vec![2]);
    assert_eq!(ctx.advance(2, 0, 1), vec![2]);
}

#[test]
fn levels_beyond_eight_are_ignored() {
    let mut ctx = HeadingCounterContext::new();
    assert!(ctx.advance(1, 9, 1).is_empty());
    assert_eq!(ctx.advance(1, 8, 1), vec![0, 0, 0, 0, 0, 0, 0, 0, 1]);
}

#[test]
fn counter_saturates_at_max() {
    let mut ctx = HeadingCounterContext::new();
    assert_eq!(ctx.advance(3, 0, u32::MAX), vec![u32::MAX]);
    assert_eq!(ctx.advance(3, 0, u32::MAX), vec![u32::MAX]);
}
