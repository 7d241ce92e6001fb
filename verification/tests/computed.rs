use fand::computed::{
    announce, cache_invalidate, power_of_number, Access, CachedResult, Computed, Evaluation,
    Sources,
};
use fand::fan::FanPower;
use fand::source::nvidia::NvidiaError;
use fand::source::{Source, SourceError, Temperature};
use std::cell::{Cell, RefCell};
use std::rc::Rc;

/// A sensor that hands out the readings it was given, one per query, and
/// counts the queries.
struct Fake {
    calls: Rc<Cell<u32>>,
    readings: RefCell<Vec<Result<f32, SourceError>>>,
}

impl Fake {
    fn new(readings: Vec<Result<f32, SourceError>>) -> (Fake, Rc<Cell<u32>>) {
        let calls = Rc::new(Cell::new(0));
        let mut readings = readings;
        readings.reverse();
        (Fake { calls: calls.clone(), readings: RefCell::new(readings) }, calls)
    }
}

impl Source for Fake {
    fn try_get_temperature(&self) -> Result<Temperature, SourceError> {
        self.calls.set(self.calls.get() + 1);
        match self.readings.borrow_mut().pop() {
            Some(Ok(celsius)) => Ok(Temperature::from_celsius(celsius.to_bits())),
            Some(Err(error)) => Err(error),
            None => Err(SourceError::DeviceNotFound),
        }
    }
}

fn celsius(t: Temperature) -> f32 {
    f32::from_bits(t.celsius())
}

fn power(result: f64) -> u8 {
    power_of_number(result.to_bits()).value()
}

fn reference(result: f64) -> u8 {
    if result.is_nan() {
        return 255;
    }
    let limited = f64::min(f64::max(0.0, result), 1.0);
    (limited * 255.0) as u8
}

#[test]
fn clamping() {
    assert_eq!(power(-5.0), 0);
    assert_eq!(power(2.0), 255);
    assert_eq!(power(0.5), 127);
}

#[test]
fn scaling_drops_what_stands_after_the_point() {
    assert_eq!(power(0.45), 114);
    assert_eq!(power(0.0), 0);
    assert_eq!(power(-0.0), 0);
    assert_eq!(power(1.0), 255);
    assert_eq!(power(0.999_999_999), 254);
    assert_eq!(power(1.0 / 255.0), 1);
    assert_eq!(power(0.003_9), 0);
    assert_eq!(power(0.2), 51);
    assert_eq!(power(f64::from_bits(0.2f64.to_bits() - 1)), 50);
}

#[test]
fn limits_of_the_number_line() {
    assert_eq!(power(f64::INFINITY), 255);
    assert_eq!(power(f64::NEG_INFINITY), 0);
    assert_eq!(power(f64::MAX), 255);
    assert_eq!(power(f64::MIN), 0);
    assert_eq!(power(f64::MIN_POSITIVE), 0);
    assert_eq!(power(f64::from_bits(1)), 0);
}

#[test]
fn level_rises_with_result() {
    let mut results: Vec<f64> = vec![f64::NEG_INFINITY, f64::MIN, -1.0, -0.0, 0.0, f64::MIN_POSITIVE];
    for step in 0..=4096u32 {
        results.push(step as f64 / 4096.0);
    }
    for level in 0..=255u32 {
        let edge = level as f64 / 255.0;
        results.push(f64::from_bits(edge.to_bits().wrapping_sub(1)));
        results.push(edge);
        results.push(f64::from_bits(edge.to_bits() + 1));
    }
    results.extend([1.5, 2.0, f64::MAX, f64::INFINITY]);
    results.retain(|r| !r.is_nan());
    results.sort_by(|a, b| a.total_cmp(b));
    let mut last = 0;
    for result in results {
        let level = power(result);
        assert!(last <= level, "{result}");
        last = level;
    }
    assert_eq!(last, 255);
}

#[test]
fn what_is_no_number_gives_full_speed() {
    assert_eq!(power(f64::NAN), 255);
    assert_eq!(power(-f64::NAN), 255);
    assert_eq!(power(0.0 / 0.0), 255);
    assert_eq!(power(f64::from_bits(0x7ff8_0000_0000_0000)), 255);
    assert_eq!(power(f64::from_bits(0x7ff0_0000_0000_0001)), 255);
    assert_eq!(power(f64::from_bits(0xfff0_0000_0000_0001)), 255);
    assert_eq!(power(f64::from_bits(0xffff_ffff_ffff_ffff)), 255);
    let (fake, _) = Fake::new(vec![]);
    let mut engine = Sources::null();
    let formula = Computed::new("0/0", &mut engine, vec![("s1".to_string(), fake)]);
    let level = formula.try_compute(Evaluation::Number((0.0f64 / 0.0).to_bits()));
    assert_eq!(level.unwrap().value(), 255);
    assert_eq!(formula.compute(Evaluation::Number(f64::NAN.to_bits())).value(), 255);
}

#[test]
fn a_repeated_name_is_bound_once() {
    let (first, first_calls) = Fake::new(vec![Ok(1.0), Ok(3.0)]);
    let (second, second_calls) = Fake::new(vec![Ok(2.0)]);
    let (other, _) = Fake::new(vec![Ok(9.0)]);
    let mut engine = Sources::null();
    engine.init(vec![
        ("a".to_string(), first),
        ("b".to_string(), other),
        ("a".to_string(), second),
    ]);
    assert_eq!(engine.len(), 2);
    assert_eq!(engine.name(0), "a");
    assert_eq!(engine.name(1), "b");
    assert!(matches!(engine.value("a"), Some(CachedResult::Fresh(t)) if celsius(t) == 1.0));
    assert!(matches!(engine.value("b"), Some(CachedResult::Fresh(t)) if celsius(t) == 9.0));
    cache_invalidate(&mut engine);
    assert!(matches!(engine.value("a"), Some(CachedResult::Fresh(t)) if celsius(t) == 3.0));
    assert_eq!(first_calls.get(), 2);
    assert_eq!(second_calls.get(), 0);
}

#[test]
fn each_name_reaches_its_own_sensor() {
    let (low, low_calls) = Fake::new(vec![Ok(10.0)]);
    let (high, high_calls) = Fake::new(vec![Ok(90.0)]);
    let mut engine = Sources::null();
    engine.init(vec![("low".to_string(), low), ("high".to_string(), high)]);
    assert_eq!(engine.name(0), "low");
    assert_eq!(engine.name(1), "high");
    assert!(matches!(engine.value("high"), Some(CachedResult::Fresh(t)) if celsius(t) == 90.0));
    assert_eq!((low_calls.get(), high_calls.get()), (0, 1));
    assert!(matches!(engine.value("low"), Some(CachedResult::Fresh(t)) if celsius(t) == 10.0));
    assert_eq!((low_calls.get(), high_calls.get()), (1, 1));
    assert!(engine.value("none").is_none());
    assert_eq!((low_calls.get(), high_calls.get()), (1, 1));
}

#[test]
fn product_is_rounded_as_doubles_are() {
    // The exact product lies just below 128 and rounds to 128.
    let significand: u64 = ((128u128 << 53) / 255) as u64;
    assert_eq!((128u128 << 53) - 255 * significand as u128, 16);
    let result = significand as f64 / (1u64 << 53) as f64;
    assert!(result < 128.0 / 255.0 + 1e-9);
    assert_eq!(reference(result), 128);
    assert_eq!(power(result), 128);
}

#[test]
fn agrees_with_double_arithmetic() {
    let mut state: u64 = 0x9e37_79b9_7f4a_7c15;
    for _ in 0..200_000 {
        state = state.wrapping_mul(6364136223846793005).wrapping_add(1442695040888963407);
        let fraction = state >> 12;
        for exponent in 1010u64..=1024 {
            let bits = (exponent << 52) | fraction;
            assert_eq!(power_of_number(bits).value(), reference(f64::from_bits(bits)), "{bits:#x}");
        }
    }
    for level in 0..=255u32 {
        for numerator in [level as f64, level as f64 + 0.5] {
            let result = numerator / 255.0;
            for bits in [result.to_bits().wrapping_sub(1), result.to_bits(), result.to_bits() + 1] {
                assert_eq!(
                    power_of_number(bits).value(),
                    reference(f64::from_bits(bits)),
                    "{bits:#x}"
                );
            }
        }
    }
}

#[test]
fn failsafe() {
    let (fake, _) = Fake::new(vec![]);
    let mut engine = Sources::null();
    let formula = Computed::new("s1 / 100", &mut engine, vec![("s1".to_string(), fake)]);
    assert_eq!(formula.compute(Evaluation::NotNumber).value(), 255);
    assert_eq!(formula.compute(Evaluation::Raised("boom".to_string())).value(), 255);
    assert_eq!(formula.compute(Evaluation::Number(0.45f64.to_bits())).value(), 114);

    assert_eq!(formula.try_compute(Evaluation::NotNumber).unwrap().value(), 255);
    let error = formula.try_compute(Evaluation::Raised("boom".to_string())).unwrap_err();
    assert_eq!(error.message, "boom");
    assert_eq!(
        formula.try_compute(Evaluation::Number(2.0f64.to_bits())).unwrap().value(),
        FanPower::full_speed().value()
    );
}

#[test]
fn formula_is_kept_as_written() {
    let mut engine: Sources<Fake> = Sources::null();
    let formula = Computed::new("  not even ( valid", &mut engine, vec![]);
    assert_eq!(formula.formula(), "  not even ( valid");
}

#[test]
fn first_formula_binds_the_sensors() {
    let (first, _) = Fake::new(vec![Ok(1.0)]);
    let (second, _) = Fake::new(vec![Ok(2.0)]);
    let mut engine = Sources::null();
    assert!(engine.is_null());
    Computed::new("a", &mut engine, vec![("a".to_string(), first)]);
    assert!(!engine.is_null());
    Computed::new("b", &mut engine, vec![("b".to_string(), second)]);
    assert_eq!(engine.len(), 1);
    assert_eq!(engine.name(0), "a");
    assert!(engine.value("b").is_none());
    assert!(matches!(engine.value("a"), Some(CachedResult::Fresh(t)) if celsius(t) == 1.0));
}

#[test]
fn cache_consistency() {
    let (fake, calls) = Fake::new(vec![Ok(45.0), Ok(99.0)]);
    let mut engine = Sources::null();
    engine.init(vec![("s".to_string(), fake)]);
    assert!(matches!(engine.value("s"), Some(CachedResult::Fresh(t)) if celsius(t) == 45.0));
    assert!(matches!(engine.value("s"), Some(CachedResult::Cached(t)) if celsius(t) == 45.0));
    assert!(matches!(engine.value("s"), Some(CachedResult::Cached(t)) if celsius(t) == 45.0));
    assert_eq!(calls.get(), 1);
}

#[test]
fn cache_invalidation() {
    let (fake, calls) = Fake::new(vec![Ok(45.0), Ok(99.0)]);
    let mut engine = Sources::null();
    engine.init(vec![("s".to_string(), fake)]);
    assert!(engine.value("s").is_some());
    assert_eq!(calls.get(), 1);
    engine.cache_invalidate();
    assert!(matches!(engine.value("s"), Some(CachedResult::Fresh(t)) if celsius(t) == 99.0));
    assert_eq!(calls.get(), 2);
    cache_invalidate(&mut engine);
    assert!(matches!(engine.value("s"), Some(CachedResult::Failed(SourceError::DeviceNotFound))));
    assert_eq!(calls.get(), 3);
}

#[test]
fn each_sensor_has_its_own_place_in_the_cache() {
    let (a, calls_a) = Fake::new(vec![Ok(10.0), Ok(11.0)]);
    let (b, calls_b) = Fake::new(vec![Ok(20.0), Ok(21.0)]);
    let mut engine = Sources::null();
    engine.init(vec![("a".to_string(), a), ("b".to_string(), b)]);
    assert_eq!(engine.find("a"), Some(0));
    assert_eq!(engine.find("b"), Some(1));
    assert_eq!(engine.find("c"), None);
    assert!(matches!(engine.value("b"), Some(CachedResult::Fresh(t)) if celsius(t) == 20.0));
    assert!(matches!(engine.value("a"), Some(CachedResult::Fresh(t)) if celsius(t) == 10.0));
    assert!(matches!(engine.value("b"), Some(CachedResult::Cached(t)) if celsius(t) == 20.0));
    assert!(matches!(engine.value("a"), Some(CachedResult::Cached(t)) if celsius(t) == 10.0));
    assert!(engine.value("c").is_none());
    assert_eq!((calls_a.get(), calls_b.get()), (1, 1));
}

#[test]
fn of_two_sensors_with_one_name_the_first_counts() {
    let (first, calls_first) = Fake::new(vec![Ok(1.0)]);
    let (second, calls_second) = Fake::new(vec![Ok(2.0)]);
    let mut engine = Sources::null();
    engine.init(vec![("s".to_string(), first), ("s".to_string(), second)]);
    assert_eq!(engine.find("s"), Some(0));
    assert!(matches!(engine.value("s"), Some(CachedResult::Fresh(t)) if celsius(t) == 1.0));
    assert_eq!((calls_first.get(), calls_second.get()), (1, 0));
}

#[test]
fn failure_is_not_cached() {
    let (fake, calls) = Fake::new(vec![Err(SourceError::Parse), Ok(30.0)]);
    let mut engine = Sources::null();
    engine.init(vec![("s".to_string(), fake)]);
    assert!(matches!(engine.value("s"), Some(CachedResult::Failed(SourceError::Parse))));
    assert!(matches!(engine.value("s"), Some(CachedResult::Fresh(t)) if celsius(t) == 30.0));
    assert!(matches!(engine.value("s"), Some(CachedResult::Cached(t)) if celsius(t) == 30.0));
    assert_eq!(calls.get(), 2);
}

#[test]
fn settle_keeps_a_temperature_and_drops_a_failure() {
    let (fake, calls) = Fake::new(vec![Ok(1.0)]);
    let mut engine = Sources::null();
    engine.init(vec![("s".to_string(), fake)]);
    let failed = engine.settle(0, Err(SourceError::Io("gone".to_string())));
    assert!(matches!(failed, CachedResult::Failed(SourceError::Io(m)) if m == "gone"));
    let kept = engine.settle(0, Ok(Temperature::from_celsius(7.5f32.to_bits())));
    assert!(matches!(kept, CachedResult::Fresh(t) if celsius(t) == 7.5));
    assert!(matches!(engine.value("s"), Some(CachedResult::Cached(t)) if celsius(t) == 7.5));
    assert_eq!(calls.get(), 0);
}

#[test]
fn accessor_hands_out_numbers_and_aborts_on_failure() {
    let (good, _) = Fake::new(vec![Ok(45.0)]);
    let (bad, _) = Fake::new(vec![Err(SourceError::Io("No such file".to_string()))]);
    let mut engine = Sources::null();
    engine.init(vec![("good".to_string(), good), ("bad".to_string(), bad)]);
    assert!(matches!(engine.accessor("good"), Access::Number(t) if celsius(t) == 45.0));
    assert!(matches!(engine.accessor("good"), Access::Number(t) if celsius(t) == 45.0));
    assert!(matches!(engine.accessor("other"), Access::Undefined));
    match engine.accessor("bad") {
        Access::Throw(message) => {
            assert_eq!(message, "cannot get temperature for bad: No such file")
        }
        other => panic!("{other:?}"),
    }
}

#[test]
fn announce_names_the_sensor_and_the_failure() {
    assert!(matches!(announce("s", None), Access::Undefined));
    let parse = announce("s1", Some(CachedResult::Failed(SourceError::Parse)));
    assert!(
        matches!(parse, Access::Throw(m) if m == "cannot get temperature for s1: the reading is not a number")
    );
    let missing = announce("gpu", Some(CachedResult::Failed(SourceError::DeviceNotFound)));
    assert!(matches!(missing, Access::Throw(m) if m == "cannot get temperature for gpu: device not found"));
    let status = NvidiaError::from_status(15).unwrap();
    let lost = SourceError::Driver(status, "GPU is lost".to_string());
    let driver = announce("gpu", Some(CachedResult::Failed(lost)));
    assert!(matches!(driver, Access::Throw(m) if m == "cannot get temperature for gpu: GPU is lost"));
}

#[test]
fn engine_without_sensors_knows_no_name() {
    let mut engine: Sources<Fake> = Sources::null();
    assert!(engine.is_null());
    assert_eq!(engine.len(), 0);
    assert!(engine.value("s").is_none());
    assert!(matches!(engine.accessor("s"), Access::Undefined));
}
