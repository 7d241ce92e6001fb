//! Formulas, and the duty level that the result of a formula stands for.

use crate::binary64::{
    exponent, exponent_of, fraction, fraction_of, is_nan, lemma_fields_make_pattern, not_above,
    sign, sign_of, EXPONENT_OF_ONE, EXPONENT_TOP, HIDDEN_BIT,
};
use crate::fan::{lemma_from_level, FanPower};
use crate::rounding::{lemma_round_half_even_monotone, round_half_even};
use crate::source::{Source, SourceError, Temperature};
use vstd::arithmetic::power2::pow2;
use vstd::bits::lemma_u64_shr_is_div;
use vstd::prelude::*;
use vstd::string::*;

verus! {

/// What running a formula gave.
#[derive(Debug)]
pub enum Evaluation {
    /// The formula gave a number: the 64-bit pattern of a double.
    Number(u64),
    /// The formula gave something that is not a number.
    NotNumber,
    /// The formula raised; the text says what.
    Raised(String),
}

/// A formula that could not be evaluated.
#[derive(Debug)]
pub struct EvaluationError {
    pub message: String,
}

/// The exponent field of 2^-8, the least value whose scaled product can reach one.
pub const EXPONENT_OF_256TH: u64 = 1015;

/// The spacing of doubles around a product of `60` or `61` bits, in units
/// of the product's last bit: a double keeps 53 bits of it.
pub open spec fn product_unit(product: nat) -> nat {
    if product < 0x1000_0000_0000_0000 {
        128
    } else {
        256
    }
}

/// The duty level that a numeric result stands for: the result is limited to
/// the range from 0.0 to 1.0, multiplied by 255.0 as doubles are multiplied
/// (the product is rounded to the nearest double, to the even one of two
/// that are equally near), and what stands after the point is dropped.
///
/// A pattern that stands for no number cannot be limited to a range: it
/// gives 255, full speed, whatever its sign bit. A negative result and
/// either zero give 0; a result of 1.0 or more gives 255. A result `r` below
/// 2^-8 gives 0, since `255 * r` stays below one. Any other `r` is `m * 2^-k`
/// with the 53-bit significand `m` and `k` from 53 to 60: the level is the
/// rounded `255 * m` divided by `2^k`.
pub open spec fn scaled_power(bits: u64) -> nat {
    let e = exponent(bits);
    if is_nan(bits) {
        255
    } else if sign(bits) == 1 {
        0
    } else if e >= EXPONENT_OF_ONE {
        255
    } else if e < EXPONENT_OF_256TH {
        0
    } else {
        let product: nat = 255 * (HIDDEN_BIT as nat + fraction(bits));
        round_half_even(product, product_unit(product)) / pow2((1075 - e) as nat)
    }
}

/// The duty level to apply for an outcome: full speed unless the formula
/// gave a number, and full speed too where what it gave as a number is a
/// pattern that stands for none.
pub open spec fn power_of(outcome: Evaluation) -> nat {
    match outcome {
        Evaluation::Number(bits) => scaled_power(bits),
        Evaluation::NotNumber => 255,
        Evaluation::Raised(_) => 255,
    }
}

/// The duty level that the numeric result with the pattern `bits` stands for.
pub fn power_of_number(bits: u64) -> (power: FanPower)
    ensures
        power.level() == scaled_power(bits),
{
    let negative = sign_of(bits);
    let e = exponent_of(bits);
    let f = fraction_of(bits);
    let level: u8 = if e == EXPONENT_TOP && f != 0 {
        255
    } else if negative {
        0
    } else if e >= EXPONENT_OF_ONE {
        255
    } else if e < EXPONENT_OF_256TH {
        0
    } else {
        let product: u64 = 255 * (HIDDEN_BIT + f);
        let unit: u64 = if product < 0x1000_0000_0000_0000 {
            128
        } else {
            256
        };
        let below = product / unit;
        let rest = product % unit;
        let kept: u64 = if 2 * rest < unit || (2 * rest == unit && below % 2 == 0) {
            below * unit
        } else {
            (below + 1) * unit
        };
        assert(kept == round_half_even(product as nat, product_unit(product as nat)));
        let shift: u64 = 1075 - e;
        assert(kept <= 0x1fe0_0000_0000_0000);
        assert(kept >> shift <= 255) by (bit_vector)
            requires
                kept <= 0x1fe0_0000_0000_0000,
                53 <= shift <= 60,
        ;
        proof {
            lemma_u64_shr_is_div(kept, shift);
        }
        (kept >> shift) as u8
    };
    proof {
        lemma_from_level(level);
    }
    FanPower::from(level)
}

/// A level is owed to every outcome, and whatever is not a number gives
/// full speed: a formula that raised, a result of another kind, and a
/// numeric result whose pattern stands for no number.
pub proof fn lemma_failsafe(outcome: Evaluation)
    ensures
        power_of(outcome) <= 255,
        !(outcome is Number) ==> power_of(outcome) == 255,
        outcome matches Evaluation::Number(bits) && is_nan(bits) ==> power_of(outcome) == 255,
{
    if let Evaluation::Number(bits) = outcome {
        lemma_scaled_power_bounded(bits);
    }
}

/// The level of a result between 2^-8 and 1.0 is the whole part of the
/// exact product of the result and 255, or that and one more: rounding the
/// product to a double never takes it below a whole number that it had
/// reached, and carries it at most up to the next one.
pub proof fn lemma_scaled_power_near_exact(bits: u64)
    requires
        sign(bits) == 0,
        EXPONENT_OF_256TH <= exponent(bits) < EXPONENT_OF_ONE,
    ensures
        (255 * (HIDDEN_BIT + fraction(bits))) / (pow2((1075 - exponent(bits)) as nat) as int)
            <= scaled_power(bits) <= (255 * (HIDDEN_BIT + fraction(bits))) / (pow2(
            (1075 - exponent(bits)) as nat,
        ) as int) + 1,
{
    let e = exponent(bits);
    let n: nat = 255 * (HIDDEN_BIT as nat + fraction(bits));
    let unit = product_unit(n);
    let places: nat = if n < 0x1000_0000_0000_0000 {
        7
    } else {
        8
    };
    let down = (1075 - e) as nat;
    let rest = (down - places) as nat;
    vstd::arithmetic::power2::lemma2_to64();
    vstd::arithmetic::power2::lemma_pow2_adds(places, rest);
    vstd::arithmetic::power2::lemma_pow2_pos(rest);
    vstd::arithmetic::power2::lemma_pow2_pos(down);
    let c = pow2(rest) as int;
    let u = unit as int;
    assert(pow2(down) == u * c);
    let below = (n / unit) as int;
    let kept = round_half_even(n, unit) as int;
    assert(kept == below * u || kept == (below + 1) * u);
    vstd::arithmetic::div_mod::lemma_div_denominator(n as int, u, c);
    vstd::arithmetic::div_mod::lemma_div_denominator(kept, u, c);
    vstd::arithmetic::div_mod::lemma_div_by_multiple(below, u);
    vstd::arithmetic::div_mod::lemma_div_by_multiple(below + 1, u);
    vstd::arithmetic::div_mod::lemma_div_is_ordered(below, below + 1, c);
    assert((below + 1) / c <= below / c + 1) by (nonlinear_arith)
        requires
            c >= 1,
            below >= 0,
    ;
}

/// No result stands for more than full speed.
pub proof fn lemma_scaled_power_bounded(bits: u64)
    ensures
        scaled_power(bits) <= 255,
{
    let e = exponent(bits);
    if !is_nan(bits) && sign(bits) != 1 && EXPONENT_OF_256TH <= e < EXPONENT_OF_ONE {
        let product: nat = 255 * (HIDDEN_BIT as nat + fraction(bits));
        let kept = round_half_even(product, product_unit(product));
        assert(product < 0x1fe0_0000_0000_0000);
        assert(kept <= 0x1fe0_0000_0000_0000) by {
            if product < 0x1000_0000_0000_0000 {
                assert(product / 128 < 0x3fc0_0000_0000_00);
            } else {
                assert(product / 256 < 0x1fe0_0000_0000_00);
            }
        }
        let k = kept as u64;
        let shift = (1075 - e) as u64;
        assert(k >> shift <= 255) by (bit_vector)
            requires
                k <= 0x1fe0_0000_0000_0000,
                53 <= shift <= 60,
        ;
        lemma_u64_shr_is_div(k, shift);
    }
}

/// The level rises with the result: of two results that are numbers, the
/// one that is not above the other gives a level that is not above the
/// other's.
pub proof fn lemma_level_rises_with_result(low: u64, high: u64)
    requires
        !is_nan(low),
        !is_nan(high),
        not_above(low, high),
    ensures
        scaled_power(low) <= scaled_power(high),
{
    let el = exponent(low);
    let eh = exponent(high);
    lemma_fields_make_pattern(low);
    lemma_fields_make_pattern(high);
    lemma_scaled_power_bounded(low);
    lemma_scaled_power_bounded(high);
    if sign(low) == 0 && sign(high) == 0 && EXPONENT_OF_256TH <= el && eh < EXPONENT_OF_ONE {
        assert(low as nat <= high as nat);
        assert(el <= eh);
        let pl: nat = 255 * (HIDDEN_BIT as nat + fraction(low));
        let ph: nat = 255 * (HIDDEN_BIT as nat + fraction(high));
        let kl = round_half_even(pl, product_unit(pl));
        let kh = round_half_even(ph, product_unit(ph));
        assert(kl <= 0x1fe0_0000_0000_0000) by {
            if pl < 0x1000_0000_0000_0000 {
                assert(pl / 128 < 0x3fc0_0000_0000_00);
            } else {
                assert(pl / 256 < 0x1fe0_0000_0000_00);
            }
        }
        assert(kh <= 0x1fe0_0000_0000_0000) by {
            if ph < 0x1000_0000_0000_0000 {
                assert(ph / 128 < 0x3fc0_0000_0000_00);
            } else {
                assert(ph / 256 < 0x1fe0_0000_0000_00);
            }
        }
        assert(kh >= 0xff0_0000_0000_0000) by {
            if ph < 0x1000_0000_0000_0000 {
                assert(ph / 128 >= 0x1fe0_0000_0000_00);
            } else {
                assert(ph / 256 >= 0xff0_0000_0000_00);
            }
        }
        let sl = (1075 - el) as u64;
        let sh = (1075 - eh) as u64;
        let xl = kl as u64;
        let xh = kh as u64;
        lemma_u64_shr_is_div(xl, sl);
        lemma_u64_shr_is_div(xh, sh);
        if el == eh {
            assert(pl <= ph);
            assert(kl <= kh) by {
                if product_unit(pl) == product_unit(ph) {
                    lemma_round_half_even_monotone(pl, ph, product_unit(pl));
                } else {
                    assert(pl / 128 < 0x20_0000_0000_0000);
                    assert(ph / 256 >= 0x10_0000_0000_0000);
                }
            }
            assert(xl >> sl <= xh >> sh) by (bit_vector)
                requires
                    xl <= xh,
                    sl == sh,
                    53 <= sh <= 60,
            ;
        } else {
            assert(xl >> sl <= xh >> sh) by (bit_vector)
                requires
                    xl <= 0x1fe0_0000_0000_0000,
                    xh >= 0xff0_0000_0000_0000,
                    53 <= sh < sl <= 60,
            ;
        }
    } else if sign(low) == 0 && sign(high) == 0 {
        assert(low as nat <= high as nat);
        assert(el <= eh);
    } else if sign(low) == 0 {
        assert(low == 0);
    }
}

/// What the engine has for one variable of a formula.
#[derive(Debug)]
pub enum CachedResult<T, E> {
    /// The value that the sensor gave when this access asked it.
    Fresh(T),
    /// The value that the sensor gave earlier in the same cycle.
    Cached(T),
    /// The sensor was asked and failed.
    Failed(E),
}

/// What an access hands to the formula that made it.
#[derive(Debug)]
pub enum Access {
    /// The name is no sensor's: the variable stays undefined.
    Undefined,
    /// The temperature of the sensor.
    Number(Temperature),
    /// The sensor failed: the formula is aborted with this message.
    Throw(String),
}

/// Where the engine stands on a name before an access.
pub enum Lookup {
    /// No sensor has the name.
    Unknown,
    /// The sensor has been read in this cycle.
    Hit(Temperature),
    /// The sensor at this position has not been read in this cycle.
    Miss(int),
}

/// The names of the sensors of a registry, in its order.
pub open spec fn names_of<S>(map: Seq<(String, S)>) -> Seq<Seq<char>> {
    Seq::new(map.len(), |i: int| map[i].0@)
}

/// The sensors of a registry, in its order.
pub open spec fn sensors_of<S>(map: Seq<(String, S)>) -> Seq<S> {
    Seq::new(map.len(), |i: int| map[i].1)
}

/// The sensor that a name is bound to. Of two sensors with one name the
/// first is bound to it, and the other is out of reach.
pub open spec fn bound<S>(names: Seq<Seq<char>>, sensors: Seq<S>, name: Seq<char>) -> Option<S> {
    match names.index_of_first(name) {
        None => None,
        Some(i) => Some(sensors[i]),
    }
}

/// A registry binds what `map` gives: it has the names of `map`, each of
/// them once, and each is bound to the first sensor that `map` gives under
/// it. A `map` in which no name occurs twice is taken as it stands.
pub open spec fn binds<S>(names: Seq<Seq<char>>, sensors: Seq<S>, map: Seq<(String, S)>) -> bool {
    &&& names.no_duplicates()
    &&& sensors.len() == names.len()
    &&& forall|name: Seq<char>| names.contains(name) <==> names_of(map).contains(name)
    &&& forall|name: Seq<char>|
        bound(names, sensors, name) == bound(names_of(map), sensors_of(map), name)
    &&& names_of(map).no_duplicates() ==> names == names_of(map) && sensors == sensors_of(map)
}

/// Where a name stands, given the names of the sensors and what has been
/// read of each in this cycle. Of two sensors with one name the first counts.
pub open spec fn lookup(
    names: Seq<Seq<char>>,
    readings: Seq<Option<Temperature>>,
    name: Seq<char>,
) -> Lookup {
    match names.index_of_first(name) {
        None => Lookup::Unknown,
        Some(i) => match readings[i] {
            Some(t) => Lookup::Hit(t),
            None => Lookup::Miss(i),
        },
    }
}

/// No sensor has been read in this cycle.
pub open spec fn all_unread(readings: Seq<Option<Temperature>>) -> bool {
    forall|i: int| 0 <= i < readings.len() ==> #[trigger] readings[i] is None
}

/// What an access to `name` may return, and what it leaves in the cache.
/// A name that is no sensor's gives nothing. A sensor that has been read in
/// this cycle gives that reading again. Any other sensor is asked: its
/// temperature is returned and kept, or its failure is returned and nothing
/// is kept.
pub open spec fn value_post(
    names: Seq<Seq<char>>,
    before: Seq<Option<Temperature>>,
    name: Seq<char>,
    result: Option<CachedResult<Temperature, SourceError>>,
    after: Seq<Option<Temperature>>,
) -> bool {
    match lookup(names, before, name) {
        Lookup::Unknown => result is None && after == before,
        Lookup::Hit(t) => result == Some(
            CachedResult::<Temperature, SourceError>::Cached(t),
        ) && after == before,
        Lookup::Miss(i) => match result {
            Some(CachedResult::Fresh(t)) => after == before.update(i, Some(t)),
            Some(CachedResult::Failed(_)) => after == before,
            _ => false,
        },
    }
}

/// Which sensor an access has asked, and for what: a temperature that is
/// fresh is one that the sensor bound to `name` gave when it was asked, and
/// a failure is one that this sensor answered with. No other sensor stands
/// behind what an access returns.
pub open spec fn asked<S: Source>(
    names: Seq<Seq<char>>,
    sensors: Seq<S>,
    name: Seq<char>,
    result: Option<CachedResult<Temperature, SourceError>>,
) -> bool {
    match result {
        Some(CachedResult::Fresh(t)) => bound(names, sensors, name) matches Some(sensor)
            && call_ensures(
            S::try_get_temperature,
            (&sensor,),
            Ok::<Temperature, SourceError>(t),
        ),
        Some(CachedResult::Failed(e)) => bound(names, sensors, name) matches Some(sensor)
            && call_ensures(
            S::try_get_temperature,
            (&sensor,),
            Err::<Temperature, SourceError>(e),
        ),
        _ => true,
    }
}

/// The message that aborts a formula whose sensor failed.
pub open spec fn failure_text(name: Seq<char>, error: SourceError) -> Seq<char> {
    "cannot get temperature for "@ + name + ": "@ + error.message_text()
}

/// What an access hands to the formula, for what the engine has for the name.
pub open spec fn announced(
    name: Seq<char>,
    result: Option<CachedResult<Temperature, SourceError>>,
    access: Access,
) -> bool {
    match result {
        None => access is Undefined,
        Some(CachedResult::Fresh(t)) => access == Access::Number(t),
        Some(CachedResult::Cached(t)) => access == Access::Number(t),
        Some(CachedResult::Failed(e)) => access matches Access::Throw(message) && message@
            == failure_text(name, e),
    }
}

/// What an access hands to the formula, for what the engine has for the
/// name: nothing for a name that is no sensor's, the temperature where there
/// is one, and a message that names the sensor and its failure otherwise.
pub fn announce(name: &str, result: Option<CachedResult<Temperature, SourceError>>) -> (access:
    Access)
    ensures
        announced(name@, result, access),
{
    match result {
        None => Access::Undefined,
        Some(CachedResult::Fresh(t)) => Access::Number(t),
        Some(CachedResult::Cached(t)) => Access::Number(t),
        Some(CachedResult::Failed(e)) => {
            let mut message = String::from_str("cannot get temperature for ");
            message.append(name);
            message.append(": ");
            let words = e.message();
            message.append(words.as_str());
            Access::Throw(message)
        },
    }
}

/// The sensors that formulas may name, and what has been read of each in the
/// running cycle.
pub struct Sources<S> {
    inited: bool,
    entries: Vec<(String, S)>,
    cache: Vec<Option<Temperature>>,
}

impl<S: Source> Sources<S> {
    /// Whether the sensors have been bound.
    pub closed spec fn inited(&self) -> bool {
        self.inited
    }

    /// The names of the sensors, in the order of the registry.
    pub closed spec fn names(&self) -> Seq<Seq<char>> {
        names_of(self.entries@)
    }

    /// The sensors, in the order of the registry: the sensor at a position
    /// goes by the name at that position.
    pub closed spec fn sensors(&self) -> Seq<S> {
        sensors_of(self.entries@)
    }

    /// What has been read of each sensor in this cycle.
    pub closed spec fn readings(&self) -> Seq<Option<Temperature>> {
        self.cache@
    }

    /// Each sensor has its name and its place in the cache, no name occurs
    /// twice, and an engine without bound sensors knows no name.
    pub open spec fn wf(&self) -> bool {
        &&& self.names().no_duplicates()
        &&& self.sensors().len() == self.names().len()
        &&& self.readings().len() == self.names().len()
        &&& !self.inited() ==> self.names().len() == 0
    }

    /// The engine before its sensors are bound.
    pub fn null() -> (engine: Self)
        ensures
            !engine.inited(),
            engine.wf(),
    {
        Sources { inited: false, entries: Vec::new(), cache: Vec::new() }
    }

    /// Whether the sensors are still to be bound.
    pub fn is_null(&self) -> (null: bool)
        ensures
            null == !self.inited(),
    {
        !self.inited
    }

    /// Binds the sensors, once and for all: each sensor that `map` gives,
    /// under the name that `map` gives it. Nothing has been read of them
    /// yet. Where `map` gives several sensors one name, the first of them
    /// is bound to the name and the others are dropped; a `map` without
    /// such names is taken as it stands, in its order.
    pub fn init(&mut self, map: Vec<(String, S)>)
        requires
            !old(self).inited(),
        ensures
            final(self).inited(),
            final(self).wf(),
            binds(final(self).names(), final(self).sensors(), map@),
            all_unread(final(self).readings()),
    {
        let ghost given = map@;
        let mut rest = map;
        self.entries = Vec::new();
        self.cache = Vec::new();
        let ghost mut at: int = 0;
        assert(given.take(0) =~= Seq::<(String, S)>::empty());
        assert(given.skip(0) =~= given);
        assert(names_of(given.take(0)) =~= self.names());
        assert(sensors_of(given.take(0)) =~= self.sensors());
        while rest.len() > 0
            invariant
                0 <= at <= given.len(),
                rest@ == given.skip(at),
                self.names().no_duplicates(),
                self.sensors().len() == self.names().len(),
                self.cache.len() == self.names().len(),
                all_unread(self.cache@),
                forall|name: Seq<char>|
                    bound(self.names(), self.sensors(), name) == bound(
                        names_of(given.take(at)),
                        sensors_of(given.take(at)),
                        name,
                    ),
                names_of(given.take(at)).no_duplicates() ==> self.names() == names_of(
                    given.take(at),
                ) && self.sensors() == sensors_of(given.take(at)),
            decreases rest.len(),
        {
            let ghost names = self.names();
            let ghost sensors = self.sensors();
            let ghost seen = given.take(at);
            let (name, sensor) = rest.remove(0);
            proof {
                assert(rest@ =~= given.skip(at + 1));
                assert(given.take(at + 1) =~= seen.push((name, sensor)));
                assert(names_of(seen.push((name, sensor))) =~= names_of(seen).push(name@));
                assert(sensors_of(seen.push((name, sensor))) =~= sensors_of(seen).push(sensor));
                assert forall|other: Seq<char>|
                    bound(names_of(given.take(at + 1)), sensors_of(given.take(at + 1)), other)
                        == bound_after_push(names_of(seen), sensors_of(seen), name@, sensor, other) by {
                    lemma_bound_after_push(names_of(seen), sensors_of(seen), name@, sensor, other);
                }
                names.index_of_first_ensures(name@);
                names_of(seen).index_of_first_ensures(name@);
                assert(bound(names, sensors, name@) == bound(
                    names_of(seen),
                    sensors_of(seen),
                    name@,
                ));
            }
            match self.find(name.as_str()) {
                Some(_) => {
                    proof {
                        assert(names_of(seen).contains(name@));
                        assert forall|other: Seq<char>|
                            bound(names, sensors, other) == bound_after_push(
                                names_of(seen),
                                sensors_of(seen),
                                name@,
                                sensor,
                                other,
                            ) by {
                            names_of(seen).index_of_first_ensures(other);
                            assert(bound(names, sensors, other) == bound(
                                names_of(seen),
                                sensors_of(seen),
                                other,
                            ));
                        }
                        lemma_repeated_after_push(names_of(seen), name@);
                    }
                },
                None => {
                    self.entries.push((name, sensor));
                    self.cache.push(None);
                    proof {
                        assert(self.names() =~= names.push(name@));
                        assert(self.sensors() =~= sensors.push(sensor));
                        assert(!names.contains(name@));
                        lemma_distinct_after_push(names, name@);
                        assert forall|other: Seq<char>|
                            bound(self.names(), self.sensors(), other) == bound_after_push(
                                names_of(seen),
                                sensors_of(seen),
                                name@,
                                sensor,
                                other,
                            ) by {
                            lemma_bound_after_push(names, sensors, name@, sensor, other);
                            names.index_of_first_ensures(other);
                            names_of(seen).index_of_first_ensures(other);
                            assert(bound(names, sensors, other) == bound(
                                names_of(seen),
                                sensors_of(seen),
                                other,
                            ));
                        }
                        if names_of(given.take(at + 1)).no_duplicates() {
                            lemma_distinct_before_push(names_of(seen), name@);
                        }
                    }
                },
            }
            proof {
                at = at + 1;
            }
        }
        assert(given.take(at) =~= given);
        assert forall|name: Seq<char>|
            self.names().contains(name) <==> names_of(given).contains(name) by {
            self.names().index_of_first_ensures(name);
            names_of(given).index_of_first_ensures(name);
            assert(bound(self.names(), self.sensors(), name) == bound(
                names_of(given),
                sensors_of(given),
                name,
            ));
        }
        self.inited = true;
    }

    /// Number of sensors.
    pub fn len(&self) -> (n: usize)
        ensures
            n == self.names().len(),
    {
        self.entries.len()
    }

    /// The name of the sensor at a position of the registry.
    pub fn name(&self, index: usize) -> (name: &str)
        requires
            index < self.names().len(),
        ensures
            name@ == self.names()[index as int],
    {
        self.entries[index].0.as_str()
    }

    /// Forgets what has been read: the cycle is over, and the next access
    /// to any sensor asks the sensor. The sensors stay bound as they are.
    pub fn cache_invalidate(&mut self)
        requires
            old(self).wf(),
        ensures
            final(self).wf(),
            final(self).inited() == old(self).inited(),
            final(self).names() == old(self).names(),
            final(self).sensors() == old(self).sensors(),
            all_unread(final(self).readings()),
    {
        let mut at: usize = 0;
        while at < self.cache.len()
            invariant
                at <= self.cache.len(),
                self.cache.len() == old(self).cache.len(),
                self.entries == old(self).entries,
                self.inited == old(self).inited,
                forall|i: int| 0 <= i < at ==> #[trigger] self.cache@[i] is None,
            decreases self.cache.len() - at,
        {
            self.cache[at] = None;
            at = at + 1;
        }
    }

    /// The position of the sensor with the given name: of the first one,
    /// where several have it.
    pub fn find(&self, name: &str) -> (position: Option<usize>)
        ensures
            match position {
                Some(i) => self.names().index_of_first(name@) == Some(i as int),
                None => self.names().index_of_first(name@) is None,
            },
    {
        let wanted = String::from_str(name);
        let mut at: usize = 0;
        while at < self.entries.len()
            invariant
                at <= self.entries.len(),
                wanted@ == name@,
                forall|j: int| 0 <= j < at ==> #[trigger] self.names()[j] != name@,
            decreases self.entries.len() - at,
        {
            if self.entries[at].0 == wanted {
                proof {
                    lemma_first_index(self.names(), name@, at as int);
                }
                return Some(at);
            }
            at = at + 1;
        }
        proof {
            self.names().index_of_first_ensures(name@);
        }
        None
    }

    /// Takes in what the sensor at `index` answered: a temperature is kept
    /// for the rest of the cycle, a failure is not.
    pub fn settle(&mut self, index: usize, reading: Result<Temperature, SourceError>) -> (result:
        CachedResult<Temperature, SourceError>)
        requires
            old(self).wf(),
            index < old(self).names().len(),
        ensures
            final(self).wf(),
            final(self).inited() == old(self).inited(),
            final(self).names() == old(self).names(),
            final(self).sensors() == old(self).sensors(),
            match reading {
                Ok(t) => result == CachedResult::<Temperature, SourceError>::Fresh(t)
                    && final(self).readings() == old(self).readings().update(
                    index as int,
                    Some(t),
                ),
                Err(e) => result == CachedResult::<Temperature, SourceError>::Failed(e)
                    && final(self).readings() == old(self).readings(),
            },
    {
        match reading {
            Ok(t) => {
                self.cache[index] = Some(t);
                CachedResult::Fresh(t)
            },
            Err(e) => CachedResult::Failed(e),
        }
    }

    /// The temperature of the sensor with the given name, read at most once
    /// in a cycle: what was read earlier in the cycle is returned again, and
    /// only a sensor that has not been read since the cache was last
    /// invalidated is asked. A name that is no sensor's gives nothing.
    ///
    /// Whether a sensor that is asked answers is the sensor's matter. What
    /// it answers is what this access returns: a fresh temperature and a
    /// failure both come from the sensor that is bound to `name`, and from
    /// no other. The sensors stay bound as they are.
    pub fn value(&mut self, name: &str) -> (result: Option<CachedResult<Temperature, SourceError>>)
        requires
            old(self).wf(),
        ensures
            final(self).wf(),
            final(self).inited() == old(self).inited(),
            final(self).names() == old(self).names(),
            final(self).sensors() == old(self).sensors(),
            value_post(
                old(self).names(),
                old(self).readings(),
                name@,
                result,
                final(self).readings(),
            ),
            asked(old(self).names(), old(self).sensors(), name@, result),
    {
        match self.find(name) {
            None => None,
            Some(index) => {
                proof {
                    self.names().index_of_first_ensures(name@);
                }
                match self.cache[index] {
                    Some(t) => Some(CachedResult::Cached(t)),
                    None => {
                        let reading = self.entries[index].1.try_get_temperature();
                        Some(self.settle(index, reading))
                    },
                }
            },
        }
    }

    /// What a formula gets when it reads the variable `name`: the access to
    /// the sensor of that name, as the formula sees it.
    pub fn accessor(&mut self, name: &str) -> (access: Access)
        requires
            old(self).wf(),
        ensures
            final(self).wf(),
            final(self).inited() == old(self).inited(),
            final(self).names() == old(self).names(),
            final(self).sensors() == old(self).sensors(),
            exists|result: Option<CachedResult<Temperature, SourceError>>|
                #[trigger] value_post(
                    old(self).names(),
                    old(self).readings(),
                    name@,
                    result,
                    final(self).readings(),
                ) && asked(old(self).names(), old(self).sensors(), name@, result) && announced(
                    name@,
                    result,
                    access,
                ),
    {
        let result = self.value(name);
        let ghost seen = result;
        let access = announce(name, result);
        assert(value_post(
            old(self).names(),
            old(self).readings(),
            name@,
            seen,
            self.readings(),
        ) && asked(old(self).names(), old(self).sensors(), name@, seen) && announced(
            name@,
            seen,
            access,
        ));
        access
    }
}

/// Forgets what the engine has read: the cycle is over. The sensors stay
/// bound as they are.
pub fn cache_invalidate<S: Source>(engine: &mut Sources<S>)
    requires
        old(engine).wf(),
    ensures
        final(engine).wf(),
        final(engine).inited() == old(engine).inited(),
        final(engine).names() == old(engine).names(),
        final(engine).sensors() == old(engine).sensors(),
        all_unread(final(engine).readings()),
{
    engine.cache_invalidate();
}

/// The first position at which a name stands is the position of the name.
pub proof fn lemma_first_index(names: Seq<Seq<char>>, name: Seq<char>, i: int)
    requires
        0 <= i < names.len(),
        names[i] == name,
        forall|j: int| 0 <= j < i ==> #[trigger] names[j] != name,
    ensures
        names.index_of_first(name) == Some(i),
{
    names.index_of_first_ensures(name);
    assert(names.contains(name));
    let found = names.index_of_first(name)->0;
    if found < i {
        assert(names[found] != name);
    }
    if i < found {
        assert(names[i] != name);
    }
}

/// What a name is bound to after one more sensor was added at the end of a
/// registry: what it was bound to before, and a name that was not bound is
/// bound only if it is the name of the new sensor, to that sensor.
pub open spec fn bound_after_push<S>(
    names: Seq<Seq<char>>,
    sensors: Seq<S>,
    added: Seq<char>,
    sensor: S,
    name: Seq<char>,
) -> Option<S> {
    if names.contains(name) {
        bound(names, sensors, name)
    } else if name == added {
        Some(sensor)
    } else {
        None
    }
}

/// A sensor that is added at the end of a registry takes no name from a
/// sensor that stands before it.
pub proof fn lemma_bound_after_push<S>(
    names: Seq<Seq<char>>,
    sensors: Seq<S>,
    added: Seq<char>,
    sensor: S,
    name: Seq<char>,
)
    requires
        sensors.len() == names.len(),
    ensures
        bound(names.push(added), sensors.push(sensor), name) == bound_after_push(
            names,
            sensors,
            added,
            sensor,
            name,
        ),
{
    let longer = names.push(added);
    names.index_of_first_ensures(name);
    longer.index_of_first_ensures(name);
    if names.contains(name) {
        let i = names.index_of_first(name)->0;
        assert(longer[i] == name);
        assert forall|j: int| 0 <= j < i implies #[trigger] longer[j] != name by {
            assert(names[j] != name);
        }
        lemma_first_index(longer, name, i);
    } else if name == added {
        assert(longer[names.len() as int] == name);
        assert forall|j: int| 0 <= j < names.len() implies #[trigger] longer[j] != name by {
            assert(names[j] == longer[j]);
        }
        lemma_first_index(longer, name, names.len() as int);
    } else {
        if longer.contains(name) {
            let i = choose|i: int| 0 <= i < longer.len() && longer[i] == name;
            assert(names[i] == name);
        }
    }
}

/// Names stay distinct when one is added that was not among them.
pub proof fn lemma_distinct_after_push(names: Seq<Seq<char>>, added: Seq<char>)
    requires
        names.no_duplicates(),
        !names.contains(added),
    ensures
        names.push(added).no_duplicates(),
{
    let longer = names.push(added);
    assert forall|i: int, j: int|
        0 <= i < longer.len() && 0 <= j < longer.len() && i != j implies longer[i] != longer[j] by {
        if i < names.len() && j < names.len() {
            assert(names[i] != names[j]);
        } else if i < names.len() {
            assert(names[i] != added);
        } else {
            assert(names[j] != added);
        }
    }
}

/// Names that are distinct with one more at their end were distinct before.
pub proof fn lemma_distinct_before_push(names: Seq<Seq<char>>, added: Seq<char>)
    requires
        names.push(added).no_duplicates(),
    ensures
        names.no_duplicates(),
        !names.contains(added),
{
    let longer = names.push(added);
    assert forall|i: int, j: int|
        0 <= i < names.len() && 0 <= j < names.len() && i != j implies names[i] != names[j] by {
        assert(longer[i] != longer[j]);
    }
    if names.contains(added) {
        let i = choose|i: int| 0 <= i < names.len() && names[i] == added;
        assert(longer[i] != longer[names.len() as int]);
    }
}

/// A name that is added a second time makes the names repeat.
pub proof fn lemma_repeated_after_push(names: Seq<Seq<char>>, added: Seq<char>)
    requires
        names.contains(added),
    ensures
        !names.push(added).no_duplicates(),
{
    if names.push(added).no_duplicates() {
        lemma_distinct_before_push(names, added);
    }
}

/// In a registry in which no name occurs twice, as in a mapping from names
/// to sensors, every sensor is bound to its name: formulas reach each of them.
pub proof fn lemma_distinct_names_bind_every_sensor<S>(
    names: Seq<Seq<char>>,
    sensors: Seq<S>,
    i: int,
)
    requires
        names.no_duplicates(),
        sensors.len() == names.len(),
        0 <= i < names.len(),
    ensures
        bound(names, sensors, names[i]) == Some(sensors[i]),
{
    names.index_of_first_ensures(names[i]);
    assert(names.contains(names[i]));
}

/// The formula of one fan: an expression over the names of the sensors.
#[derive(Debug)]
pub struct Computed {
    formula: String,
}

impl Computed {
    /// The expression.
    pub closed spec fn text(&self) -> Seq<char> {
        self.formula@
    }

    /// Keeps a formula for repeated evaluation, without looking into it.
    /// The first formula binds the sensors to the engine: each name to the
    /// first sensor that `map` gives under it. For any later formula the
    /// engine stays as it is, names, sensors and readings, and `map` is
    /// dropped.
    pub fn new<S: Source>(value: &str, engine: &mut Sources<S>, map: Vec<(String, S)>) -> (computed:
        Self)
        requires
            old(engine).wf(),
        ensures
            computed.text() == value@,
            final(engine).inited(),
            final(engine).wf(),
            old(engine).inited() ==> final(engine).names() == old(engine).names()
                && final(engine).sensors() == old(engine).sensors() && final(engine).readings()
                == old(engine).readings(),
            !old(engine).inited() ==> binds(final(engine).names(), final(engine).sensors(), map@)
                && all_unread(final(engine).readings()),
    {
        if engine.is_null() {
            engine.init(map);
        }
        Computed { formula: String::from_str(value) }
    }

    /// The expression to run.
    pub fn formula(&self) -> (text: &str)
        ensures
            text@ == self.text(),
    {
        self.formula.as_str()
    }

    /// The duty level for what running the formula gave. A formula that
    /// raised is an error, with what it raised. A result that is not a
    /// number gives full speed, and so does a numeric result whose pattern
    /// stands for no number. A number is limited to the range from 0.0 to
    /// 1.0 and scaled to the levels from 0 to 255, without rounding up.
    pub fn try_compute(&self, outcome: Evaluation) -> (result: Result<FanPower, EvaluationError>)
        ensures
            match outcome {
                Evaluation::Raised(message) => result matches Err(error) && error.message
                    == message,
                _ => result matches Ok(power) && power.level() == power_of(outcome),
            },
    {
        match outcome {
            Evaluation::Raised(message) => Err(EvaluationError { message }),
            Evaluation::NotNumber => Ok(FanPower::full_speed()),
            Evaluation::Number(bits) => Ok(power_of_number(bits)),
        }
    }

    /// The duty level to drive the fan with, whatever running the formula
    /// gave: the level that the result stands for, and full speed where the
    /// formula raised or gave no number.
    pub fn compute(&self, outcome: Evaluation) -> (power: FanPower)
        ensures
            power.level() == power_of(outcome),
    {
        match self.try_compute(outcome) {
            Ok(power) => power,
            Err(_) => FanPower::full_speed(),
        }
    }
}

/// The temperature that an access gave, where it gave one.
pub open spec fn temperature_of(result: Option<CachedResult<Temperature, SourceError>>) -> Option<
    Temperature,
> {
    match result {
        Some(CachedResult::Fresh(t)) => Some(t),
        Some(CachedResult::Cached(t)) => Some(t),
        _ => None,
    }
}

/// Two accesses to one sensor with no invalidation between them see the same
/// temperature: once a sensor has given a temperature, the next access
/// returns that temperature from the cache and leaves the cache as it is.
pub proof fn lemma_cache_consistency(
    names: Seq<Seq<char>>,
    before: Seq<Option<Temperature>>,
    between: Seq<Option<Temperature>>,
    after: Seq<Option<Temperature>>,
    name: Seq<char>,
    first: Option<CachedResult<Temperature, SourceError>>,
    second: Option<CachedResult<Temperature, SourceError>>,
)
    requires
        before.len() == names.len(),
        value_post(names, before, name, first, between),
        value_post(names, between, name, second, after),
        temperature_of(first) is Some,
    ensures
        second == Some(
            CachedResult::<Temperature, SourceError>::Cached(temperature_of(first)->0),
        ),
        after == between,
{
    names.index_of_first_ensures(name);
}

/// An access to any name leaves what the cache holds for every sensor that
/// has been read in this cycle: until the cache is invalidated, a sensor
/// that has given a temperature keeps giving it.
pub proof fn lemma_cache_keeps(
    names: Seq<Seq<char>>,
    before: Seq<Option<Temperature>>,
    after: Seq<Option<Temperature>>,
    accessed: Seq<char>,
    result: Option<CachedResult<Temperature, SourceError>>,
    name: Seq<char>,
)
    requires
        before.len() == names.len(),
        value_post(names, before, accessed, result, after),
        lookup(names, before, name) is Hit,
    ensures
        lookup(names, after, name) == lookup(names, before, name),
        after.len() == before.len(),
{
    names.index_of_first_ensures(name);
    names.index_of_first_ensures(accessed);
}

/// After an invalidation the next access to a sensor asks the sensor: it
/// returns what the sensor that is bound to the name answers now, a fresh
/// temperature or a failure, and never a temperature from the cache.
pub proof fn lemma_invalidation_forces_reading<S: Source>(
    names: Seq<Seq<char>>,
    sensors: Seq<S>,
    before: Seq<Option<Temperature>>,
    after: Seq<Option<Temperature>>,
    name: Seq<char>,
    result: Option<CachedResult<Temperature, SourceError>>,
)
    requires
        before.len() == names.len(),
        all_unread(before),
        names.contains(name),
        value_post(names, before, name, result, after),
        asked(names, sensors, name, result),
    ensures
        bound(names, sensors, name) matches Some(sensor) && match result {
            Some(CachedResult::Fresh(t)) => call_ensures(
                S::try_get_temperature,
                (&sensor,),
                Ok::<Temperature, SourceError>(t),
            ),
            Some(CachedResult::Failed(e)) => call_ensures(
                S::try_get_temperature,
                (&sensor,),
                Err::<Temperature, SourceError>(e),
            ),
            _ => false,
        },
{
    names.index_of_first_ensures(name);
    let i = names.index_of_first(name)->0;
    assert(before[i] is None);
}

/// A run of accesses with no invalidation between them: `states` holds the
/// cache before the first access and after each one.
pub open spec fn is_cycle(
    names: Seq<Seq<char>>,
    states: Seq<Seq<Option<Temperature>>>,
    accesses: Seq<Seq<char>>,
    results: Seq<Option<CachedResult<Temperature, SourceError>>>,
) -> bool {
    &&& states.len() == accesses.len() + 1
    &&& results.len() == accesses.len()
    &&& states[0].len() == names.len()
    &&& forall|k: int|
        #![trigger accesses[k]]
        0 <= k < accesses.len() ==> value_post(
            names,
            states[k],
            accesses[k],
            results[k],
            states[k + 1],
        )
}

/// The cache has a place for every sensor all through a cycle.
pub proof fn lemma_cycle_lengths(
    names: Seq<Seq<char>>,
    states: Seq<Seq<Option<Temperature>>>,
    accesses: Seq<Seq<char>>,
    results: Seq<Option<CachedResult<Temperature, SourceError>>>,
    k: int,
)
    requires
        is_cycle(names, states, accesses, results),
        0 <= k <= accesses.len(),
    ensures
        states[k].len() == names.len(),
    decreases k,
{
    if k > 0 {
        lemma_cycle_lengths(names, states, accesses, results, k - 1);
        let name = accesses[k - 1];
        names.index_of_first_ensures(name);
        assert(value_post(names, states[k - 1], name, results[k - 1], states[k - 1 + 1]));
    }
}

/// Once an access has given a temperature, the cache holds it for the rest
/// of the cycle.
pub proof fn lemma_cycle_keeps(
    names: Seq<Seq<char>>,
    states: Seq<Seq<Option<Temperature>>>,
    accesses: Seq<Seq<char>>,
    results: Seq<Option<CachedResult<Temperature, SourceError>>>,
    first: int,
    k: int,
)
    requires
        is_cycle(names, states, accesses, results),
        0 <= first < k <= accesses.len(),
        temperature_of(results[first]) is Some,
    ensures
        lookup(names, states[k], accesses[first]) == Lookup::Hit(temperature_of(results[first])->0),
    decreases k - first,
{
    let name = accesses[first];
    names.index_of_first_ensures(name);
    if k == first + 1 {
        lemma_cycle_lengths(names, states, accesses, results, first);
        assert(value_post(names, states[first], name, results[first], states[first + 1]));
    } else {
        lemma_cycle_keeps(names, states, accesses, results, first, k - 1);
        lemma_cycle_lengths(names, states, accesses, results, k - 1);
        let between = accesses[k - 1];
        assert(value_post(names, states[k - 1], between, results[k - 1], states[k - 1 + 1]));
        lemma_cache_keeps(names, states[k - 1], states[k], between, results[k - 1], name);
    }
}

/// Within one cycle a sensor gives one temperature: after an access that
/// gave a temperature, every later access to the same sensor returns that
/// temperature from the cache, whatever was accessed in between and
/// whatever the sensor would say if it were asked again.
pub proof fn lemma_one_reading_per_cycle(
    names: Seq<Seq<char>>,
    states: Seq<Seq<Option<Temperature>>>,
    accesses: Seq<Seq<char>>,
    results: Seq<Option<CachedResult<Temperature, SourceError>>>,
    first: int,
    later: int,
)
    requires
        is_cycle(names, states, accesses, results),
        0 <= first < later < accesses.len(),
        accesses[first] == accesses[later],
        temperature_of(results[first]) is Some,
    ensures
        results[later] == Some(
            CachedResult::<Temperature, SourceError>::Cached(temperature_of(results[first])->0),
        ),
{
    lemma_cycle_keeps(names, states, accesses, results, first, later);
    assert(value_post(names, states[later], accesses[later], results[later], states[later + 1]));
}

} // verus!
