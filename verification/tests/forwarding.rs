use channel_node::forwarding::delay_bounds;
use channel_node::forwarding::forward_delay;
use channel_node::forwarding::DelayError;

#[test]
fn bounds_are_the_least_delay_and_five_times_it() {
    assert_eq!(delay_bounds(1), Ok((1, 5)));
    assert_eq!(delay_bounds(100), Ok((100, 500)));
    assert_eq!(delay_bounds(u64::MAX / 5), Ok((u64::MAX / 5, u64::MAX)));
}

#[test]
fn zero_delay_has_no_bounds() {
    assert_eq!(delay_bounds(0), Err(DelayError::EmptyRange));
    assert_eq!(forward_delay(0), Err(DelayError::EmptyRange));
}

#[test]
fn too_long_a_delay_overflows() {
    assert_eq!(delay_bounds(u64::MAX / 5 + 1), Err(DelayError::Overflow));
    assert_eq!(forward_delay(u64::MAX), Err(DelayError::Overflow));
}

#[test]
fn delay_lies_within_the_bounds() {
    for _ in 0..2000 {
        let delay = forward_delay(100).unwrap();
        assert!((100..500).contains(&delay));
    }
    for _ in 0..200 {
        assert_eq!(forward_delay(1).map(|d| (1..5).contains(&d)), Ok(true));
    }
}

#[test]
fn delay_is_not_always_the_least() {
    let mut above = false;
    for _ in 0..200 {
        if forward_delay(1_000_000).unwrap() > 1_000_000 {
            above = true;
        }
    }
    assert!(above);
}
