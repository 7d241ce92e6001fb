use fand::control::{ControlLoop, Phase};

#[test]
fn nothing_runs_without_a_fan() {
    assert!(ControlLoop::new(0).is_none());
}

#[test]
fn a_cycle_serves_every_fan_in_order_then_sleeps_then_invalidates() {
    let mut control = ControlLoop::new(3).unwrap();
    let mut seen = Vec::new();
    for _ in 0..10 {
        seen.push(control.current());
        control.advance();
    }
    assert_eq!(
        seen,
        [
            Phase::Serve(0),
            Phase::Serve(1),
            Phase::Serve(2),
            Phase::Sleep,
            Phase::Invalidate,
            Phase::Serve(0),
            Phase::Serve(1),
            Phase::Serve(2),
            Phase::Sleep,
            Phase::Invalidate,
        ]
    );
}

#[test]
fn a_single_fan_has_a_cycle_of_three_steps() {
    let mut control = ControlLoop::new(1).unwrap();
    for _ in 0..4 {
        assert_eq!(control.current(), Phase::Serve(0));
        control.advance();
        assert_eq!(control.current(), Phase::Sleep);
        control.advance();
        assert_eq!(control.current(), Phase::Invalidate);
        control.advance();
    }
}

#[test]
fn the_readings_are_invalidated_once_per_cycle() {
    for fans in 1..20usize {
        let mut control = ControlLoop::new(fans).unwrap();
        let mut served = vec![0u32; fans];
        let mut invalidated = 0;
        for _ in 0..(fans + 2) * 7 {
            match control.current() {
                Phase::Serve(i) => served[i] += 1,
                Phase::Sleep => {}
                Phase::Invalidate => invalidated += 1,
            }
            control.advance();
        }
        assert_eq!(invalidated, 7);
        assert!(served.iter().all(|&n| n == 7));
        assert_eq!(control.current(), Phase::Serve(0));
    }
}
