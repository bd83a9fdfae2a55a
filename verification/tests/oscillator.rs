use checkerboard::oscillator::Oscillator;

#[test]
fn rises_from_lower_limit_to_upper_limit() {
    // lower_limit=10, upper_limit=25, scale=10, rising: each of the
    // first 15 ticks adds one, so the 15th returns 25; the direction
    // turns on the tick after the limit is reached, so the 16th
    // returns 24, falling.
    let mut o = Oscillator::new(10, 25);
    let mut last = 0u32;
    for _ in 0..15 {
        last = o.tick();
    }
    assert_eq!(last, 25);
    assert_eq!(o.scale, 25);
    assert_eq!(o.tick(), 24);
    assert!(!o.increasing);
    assert_eq!(o.scale, 24);
}

#[test]
fn full_cycle_returns_to_start() {
    // One full period of 2 * (upper_limit - lower_limit) ticks brings
    // the wave back to the same scale.
    let mut o = Oscillator::new(3, 7);
    let mut seen = Vec::new();
    for _ in 0..8 {
        seen.push(o.tick());
    }
    assert_eq!(seen, vec![4, 5, 6, 7, 6, 5, 4, 3]);
    for _ in 0..8 {
        o.tick();
    }
    assert_eq!(o.scale, 3);
    assert!(!o.increasing);
}

#[test]
fn visits_every_value_in_both_directions() {
    let mut o = Oscillator::new(2, 6);
    let mut rising = Vec::new();
    let mut falling = Vec::new();
    for _ in 0..16 {
        let s = o.tick();
        if o.increasing {
            rising.push(s);
        } else {
            falling.push(s);
        }
    }
    for v in 3..=6u32 {
        assert!(rising.contains(&v));
    }
    for v in 2..=5u32 {
        assert!(falling.contains(&v));
    }
}

#[test]
fn stays_in_band_once_inside() {
    let mut o = Oscillator::new(4, 9);
    for _ in 0..100 {
        let s = o.tick();
        assert!(4 <= s && s <= 9);
    }
}

#[test]
fn increase_upper_limit_is_unconditional() {
    let mut o = Oscillator::new(10, 25);
    o.increase_upper_limit();
    assert_eq!(o.upper_limit, 26);
    assert_eq!(o.lower_limit, 10);
    assert_eq!(o.scale, 10);
}

#[test]
fn decrease_upper_limit_refuses_to_touch_lower_limit() {
    let mut o = Oscillator::new(10, 11);
    o.decrease_upper_limit();
    assert_eq!(o.upper_limit, 11);
    let mut o = Oscillator::new(10, 12);
    o.decrease_upper_limit();
    assert_eq!(o.upper_limit, 11);
}

#[test]
fn increase_lower_limit_refuses_to_touch_upper_limit() {
    let mut o = Oscillator::new(10, 11);
    o.increase_lower_limit();
    assert_eq!(o.lower_limit, 10);
    let mut o = Oscillator::new(10, 12);
    o.increase_lower_limit();
    assert_eq!(o.lower_limit, 11);
}

#[test]
fn decrease_lower_limit_stops_at_one() {
    // Pressing "decrease lower_limit" at the floor of 1 is a silent
    // no-op: the limit stays 1.
    let mut o = Oscillator::new(1, 25);
    o.decrease_lower_limit();
    assert_eq!(o.lower_limit, 1);
    let mut o = Oscillator::new(2, 25);
    o.decrease_lower_limit();
    assert_eq!(o.lower_limit, 1);
}

#[test]
fn limits_never_cross_under_any_adjustment() {
    let mut o = Oscillator::new(2, 4);
    for round in 0..200u32 {
        match round % 4 {
            0 => o.decrease_lower_limit(),
            1 => o.increase_lower_limit(),
            2 => o.decrease_upper_limit(),
            _ => o.increase_upper_limit(),
        }
        assert!(o.lower_limit >= 1);
        assert!(o.lower_limit < o.upper_limit);
    }
}

#[test]
fn converges_into_band_from_above() {
    // A scale above the band falls one step per tick until it reaches
    // the band, then oscillates inside it.
    let mut o = Oscillator::new(3, 5);
    o.scale = 9;
    o.increasing = true;
    assert_eq!(o.tick(), 8);
    assert_eq!(o.tick(), 7);
    assert_eq!(o.tick(), 6);
    assert_eq!(o.tick(), 5);
    assert_eq!(o.tick(), 4);
    assert_eq!(o.tick(), 3);
    assert_eq!(o.tick(), 4);
}
