use mud_core::tick::{Tick, TickDuration};

#[test]
fn large_tick_every_eighth() {
    let mut t = Tick::zero();
    assert!(t.is_large_tick());
    for _ in 0..8 {
        assert_eq!(t.is_large_tick(), t.0 % 8 == 0);
        t = t.increase();
    }
    assert!(t.is_large_tick());
}

#[test]
fn millis_to_ticks() {
    assert_eq!(TickDuration::from_millis(1500).0, 12);
    assert_eq!(TickDuration::from_millis(3000).0, 24);
    assert_eq!(TickDuration::from_millis(30000).0, 240);
}

#[test]
fn on_division_fires_once_per_window() {
    for period in [1i64, 3, 8, 12] {
        for offset in 0..period {
            for start in [0i64, 1, 5, 97, 1000] {
                let fired: Vec<i64> = (start..start + period)
                    .filter(|t| Tick(*t).is_on_division(TickDuration(period), TickDuration(offset)))
                    .collect();
                assert_eq!(fired.len(), 1, "period {} offset {} start {}", period, offset, start);
                assert_eq!(fired[0] % period, offset);
            }
        }
    }
}

#[test]
fn on_division_exact_values() {
    assert!(Tick(24).is_on_division(TickDuration(12), TickDuration(0)));
    assert!(!Tick(25).is_on_division(TickDuration(12), TickDuration(0)));
    assert!(Tick(25).is_on_division(TickDuration(12), TickDuration(1)));
    assert!(Tick(-7).is_on_division(TickDuration(4), TickDuration(-3)));
    assert!(!Tick(-7).is_on_division(TickDuration(4), TickDuration(1)));
}

#[test]
fn random_offset_stays_below_period() {
    for period in [1i64, 2, 12, 240] {
        for _ in 0..200 {
            let offset = TickDuration(period).random_offset();
            assert!(0 <= offset.0 && offset.0 < period);
        }
    }
    let seen: std::collections::HashSet<i64> =
        (0..400).map(|_| TickDuration(4).random_offset().0).collect();
    assert_eq!(seen.len(), 4);
}

#[test]
fn clock_arithmetic() {
    assert_eq!(Tick::zero().0, 0);
    assert_eq!(Tick(7).increase().0, 8);
    assert_eq!(Tick(7).add(TickDuration(240)).0, 247);
    assert_eq!(Tick(7).add(TickDuration(-9)).0, -2);
    assert_eq!(TickDuration::zero().0, 0);
    assert_eq!(TickDuration::from_millis(124).0, 0);
    assert_eq!(TickDuration::from_millis(125).0, 1);
    assert_eq!(TickDuration::from_millis(-250).0, -2);
    assert_eq!(TickDuration::from_millis(-260).0, -2);
    assert!(Tick(3) == Tick(3));
    assert!(TickDuration(3) != TickDuration(4));
}
