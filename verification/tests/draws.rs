use buttsbot::chance::pick;

#[test]
fn zero_picks_the_first_position() {
    for count in [1usize, 2, 3, 10, 1000, usize::MAX] {
        assert_eq!(pick(0, count), 0);
    }
}

#[test]
fn pick_scales_and_rounds_down() {
    assert_eq!(pick(0x7FFF_FFFF, 2), 0);
    assert_eq!(pick(0x8000_0000, 2), 1);
    assert_eq!(pick(u32::MAX, 2), 1);
    assert_eq!(pick(0x5555_5555, 3), 0);
    assert_eq!(pick(0x5555_5556, 3), 1);
    assert_eq!(pick(0xAAAA_AAAA, 3), 1);
    assert_eq!(pick(0xAAAA_AAAB, 3), 2);
    assert_eq!(pick(u32::MAX, 3), 2);
    assert_eq!(pick(0x4000_0000, 10), 2);
    assert_eq!(pick(u32::MAX, 1), 0);
}

#[test]
fn pick_stays_below_the_count() {
    for count in [1usize, 2, 3, 7, 30, 4096] {
        for draw in [0u32, 1, 12345, 0x7FFF_FFFF, 0x8000_0000, u32::MAX - 1, u32::MAX] {
            assert!(pick(draw, count) < count);
        }
    }
    assert_eq!(pick(u32::MAX, usize::MAX), usize::MAX - (1 << 32));
}

#[test]
fn pick_among_none_is_zero() {
    assert_eq!(pick(0, 0), 0);
    assert_eq!(pick(u32::MAX, 0), 0);
}

#[test]
fn larger_draws_pick_no_earlier_position() {
    let draws = [0u32, 1, 0x1000_0000, 0x7FFF_FFFF, 0x8000_0000, 0xF000_0000, u32::MAX];
    for count in [1usize, 2, 3, 5, 100] {
        for pair in draws.windows(2) {
            assert!(pick(pair[0], count) <= pick(pair[1], count));
        }
    }
}

#[test]
fn every_position_is_picked() {
    for count in [1usize, 2, 3, 5, 17] {
        for k in 0..count {
            let draw = ((k as u64 * (1u64 << 32) + count as u64 - 1) / count as u64) as u32;
            assert_eq!(pick(draw, count), k);
        }
    }
}
