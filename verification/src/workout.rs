//! Workout plans that depend on an expensive calculation, in five variants
//! that differ in how often they run it.
//!
//! The calculation is a callable that the caller supplies; every contract
//! here speaks of what that callable may return.

use crate::cache_dynamic::CacheDynamic;
use crate::cache_non_dynamic::CacheNonDynamic;
use rand::Rng;
use vstd::prelude::*;

verus! {

/// The intensity that [`workout`] plans for.
pub const INTENSITY: u32 = 10;

/// Below this intensity the plan is push-ups and sit-ups.
pub const HIGH_INTENSITY: u32 = 25;

/// The random numbers that [`workout`] draws are below this bound.
pub const RANDOM_NUMBERS: u32 = 4;

/// At high intensity this random number means a break.
pub const BREAK_NUMBER: u32 = 3;

/// What to do today.
#[derive(Clone, Copy, Debug, PartialEq, Eq)]
pub enum Workout {
    /// Push-ups first, sit-ups next.
    PushUpsAndSitUps { push_ups: u32, sit_ups: u32 },
    /// A day off.
    Break,
    /// A run of so many minutes.
    Run { minutes: u32 },
}

/// `workout` is the plan for `intensity` and `random_number`: its shape is
/// decided by the two numbers, and every number in it is a result of
/// `calculation` for `intensity`.
pub open spec fn planned<F: Fn(u32) -> u32>(
    calculation: F,
    intensity: u32,
    random_number: u32,
    workout: Workout,
) -> bool {
    match workout {
        Workout::PushUpsAndSitUps { push_ups, sit_ups } => {
            &&& intensity < HIGH_INTENSITY
            &&& call_ensures(calculation, (intensity,), push_ups)
            &&& call_ensures(calculation, (intensity,), sit_ups)
        },
        Workout::Break => intensity >= HIGH_INTENSITY && random_number == BREAK_NUMBER,
        Workout::Run { minutes } => {
            &&& intensity >= HIGH_INTENSITY
            &&& random_number != BREAK_NUMBER
            &&& call_ensures(calculation, (intensity,), minutes)
        },
    }
}

/// The plan for `intensity` and `random_number` needs a result of the
/// calculation.
pub open spec fn needs_calculation(intensity: u32, random_number: u32) -> bool {
    intensity < HIGH_INTENSITY || random_number != BREAK_NUMBER
}

/// Every number in `workout` is `result`.
pub open spec fn made_of(workout: Workout, result: u32) -> bool {
    match workout {
        Workout::PushUpsAndSitUps { push_ups, sit_ups } => push_ups == result && sit_ups == result,
        Workout::Break => true,
        Workout::Run { minutes } => minutes == result,
    }
}

/// Plans from the calculation itself: it runs once for every number in the
/// plan, twice for push-ups and sit-ups.
pub fn generate_workout_simple<F: Fn(u32) -> u32>(
    calculation: F,
    intensity: u32,
    random_number: u32,
) -> (workout: Workout)
    requires
        needs_calculation(intensity, random_number) ==> call_requires(calculation, (intensity,)),
    ensures
        planned(calculation, intensity, random_number, workout),
{
    if intensity < HIGH_INTENSITY {
        let push_ups = calculation(intensity);
        let sit_ups = calculation(intensity);
        Workout::PushUpsAndSitUps { push_ups, sit_ups }
    } else if random_number == BREAK_NUMBER {
        Workout::Break
    } else {
        Workout::Run { minutes: calculation(intensity) }
    }
}

/// Plans from one result that is calculated up front, also where the plan
/// turns out to need none.
pub fn generate_workout_variable<F: Fn(u32) -> u32>(
    calculation: F,
    intensity: u32,
    random_number: u32,
) -> (workout: Workout)
    requires
        call_requires(calculation, (intensity,)),
    ensures
        planned(calculation, intensity, random_number, workout),
        exists|result: u32| #[trigger]
            call_ensures(calculation, (intensity,), result) && made_of(workout, result),
{
    let expensive_result = calculation(intensity);
    if intensity < HIGH_INTENSITY {
        Workout::PushUpsAndSitUps { push_ups: expensive_result, sit_ups: expensive_result }
    } else if random_number == BREAK_NUMBER {
        Workout::Break
    } else {
        Workout::Run { minutes: expensive_result }
    }
}

/// Plans through a closure around the calculation: nothing runs before a
/// number is needed, but the closure still runs once for every number.
pub fn generate_workout_closure_bad<F: Fn(u32) -> u32>(
    calculation: F,
    intensity: u32,
    random_number: u32,
) -> (workout: Workout)
    requires
        needs_calculation(intensity, random_number) ==> call_requires(calculation, (intensity,)),
    ensures
        planned(calculation, intensity, random_number, workout),
{
    let calculation = &calculation;
    let expensive_closure = |num: u32| -> (result: u32)
        requires
            call_requires(calculation, (num,)),
        ensures
            call_ensures(calculation, (num,), result),
        { calculation(num) };
    if intensity < HIGH_INTENSITY {
        let push_ups = expensive_closure(intensity);
        let sit_ups = expensive_closure(intensity);
        Workout::PushUpsAndSitUps { push_ups, sit_ups }
    } else if random_number == BREAK_NUMBER {
        Workout::Break
    } else {
        Workout::Run { minutes: expensive_closure(intensity) }
    }
}

/// Plans through a [`CacheNonDynamic`]: the calculation runs when the first
/// number is needed, and every number in the plan is that one result.
pub fn generate_workout_closure_memorization_non_dynamic<F: Fn(u32) -> u32>(
    calculation: F,
    intensity: u32,
    random_number: u32,
) -> (workout: Workout)
    requires
        needs_calculation(intensity, random_number) ==> call_requires(calculation, (intensity,)),
    ensures
        planned(calculation, intensity, random_number, workout),
        exists|result: u32| made_of(workout, result),
{
    let mut cached_result = CacheNonDynamic::new(calculation);
    if intensity < HIGH_INTENSITY {
        let push_ups = cached_result.value(intensity);
        let sit_ups = cached_result.value(intensity);
        proof {
            assert(made_of(Workout::PushUpsAndSitUps { push_ups, sit_ups }, push_ups));
        }
        Workout::PushUpsAndSitUps { push_ups, sit_ups }
    } else if random_number == BREAK_NUMBER {
        proof {
            assert(made_of(Workout::Break, 0));
        }
        Workout::Break
    } else {
        let minutes = cached_result.value(intensity);
        proof {
            assert(made_of(Workout::Run { minutes }, minutes));
        }
        Workout::Run { minutes }
    }
}

/// Plans through a [`CacheDynamic`] and looks the result up once more at the
/// end. Returns the plan and the result of that last lookup, which is the
/// number that the plan is made of.
pub fn generate_workout_closure_memorization_dynamic<F: Fn(u32) -> u32>(
    calculation: F,
    intensity: u32,
    random_number: u32,
) -> (planned_and_result: (Workout, u32))
    requires
        call_requires(calculation, (intensity,)),
    ensures
        planned(calculation, intensity, random_number, planned_and_result.0),
        call_ensures(calculation, (intensity,), planned_and_result.1),
        made_of(planned_and_result.0, planned_and_result.1),
{
    let mut cached_result = CacheDynamic::new(calculation);
    let workout = if intensity < HIGH_INTENSITY {
        let push_ups = cached_result.value(intensity);
        let sit_ups = cached_result.value(intensity);
        Workout::PushUpsAndSitUps { push_ups, sit_ups }
    } else if random_number == BREAK_NUMBER {
        Workout::Break
    } else {
        Workout::Run { minutes: cached_result.value(intensity) }
    };
    (workout, cached_result.value(intensity))
}

/// A closure whose parameter and result have no written type gets them from
/// its first use, here `String`: it hands back the string it is given.
pub fn mismatched_types_closure() -> (s: String)
    ensures
        s@ == "hello"@,
{
    let example_closure = |x: String| -> (r: String)
        ensures
            r == x,
        { x };
    example_closure("hello".to_owned())
}

/// Draws a number with `rand::thread_rng().gen_range(low..high)`.
///
/// Trusted: for a range of `u32` that is not empty, `gen_range` returns a
/// number of that range, its lower end included and its upper end not. It
/// panics on an empty range, which `requires` leaves out. Nothing is claimed
/// about which number comes: two draws may differ.
#[verifier::external_body]
fn random_in_range(low: u32, high: u32) -> (n: u32)
    requires
        low < high,
    ensures
        low <= n < high,
{
    rand::thread_rng().gen_range(low..high)
}

/// The five plans of one session, with the numbers they were made for, and
/// the string of [`mismatched_types_closure`].
pub struct Session {
    pub intensity: u32,
    pub random_number: u32,
    pub simple: Workout,
    pub variable: Workout,
    pub closure_bad: Workout,
    pub memorization_non_dynamic: Workout,
    pub memorization_dynamic: Workout,
    pub last_lookup: u32,
    pub text: String,
}

/// `session` holds, for its intensity and its random number, the plan of
/// each of the five variants.
pub open spec fn session_planned<F: Fn(u32) -> u32>(calculation: F, session: Session) -> bool {
    let intensity = session.intensity;
    let random_number = session.random_number;
    &&& planned(calculation, intensity, random_number, session.simple)
    &&& planned(calculation, intensity, random_number, session.variable)
    &&& planned(calculation, intensity, random_number, session.closure_bad)
    &&& planned(calculation, intensity, random_number, session.memorization_non_dynamic)
    &&& planned(calculation, intensity, random_number, session.memorization_dynamic)
    &&& exists|result: u32| made_of(session.variable, result)
    &&& exists|result: u32| made_of(session.memorization_non_dynamic, result)
    &&& made_of(session.memorization_dynamic, session.last_lookup)
    &&& call_ensures(calculation, (intensity,), session.last_lookup)
}

/// Plans one session at intensity [`INTENSITY`] with a random number drawn
/// below [`RANDOM_NUMBERS`], once in each of the five variants. At that
/// intensity every plan is push-ups and sit-ups, whatever number is drawn.
pub fn workout<F: Fn(u32) -> u32>(calculation: F) -> (session: Session)
    requires
        call_requires(calculation, (INTENSITY,)),
    ensures
        session.intensity == INTENSITY,
        session.random_number < RANDOM_NUMBERS,
        session_planned(calculation, session),
        session.simple is PushUpsAndSitUps,
        session.variable is PushUpsAndSitUps,
        session.closure_bad is PushUpsAndSitUps,
        session.memorization_non_dynamic is PushUpsAndSitUps,
        session.memorization_dynamic is PushUpsAndSitUps,
        session.text@ == "hello"@,
{
    let intensity = INTENSITY;
    let random_number = random_in_range(0, RANDOM_NUMBERS);
    let simple = generate_workout_simple(&calculation, intensity, random_number);
    let variable = generate_workout_variable(&calculation, intensity, random_number);
    let closure_bad = generate_workout_closure_bad(&calculation, intensity, random_number);
    let memorization_non_dynamic = generate_workout_closure_memorization_non_dynamic(
        &calculation,
        intensity,
        random_number,
    );
    let (memorization_dynamic, last_lookup) = generate_workout_closure_memorization_dynamic(
        &calculation,
        intensity,
        random_number,
    );
    let text = mismatched_types_closure();
    Session {
        intensity,
        random_number,
        simple,
        variable,
        closure_bad,
        memorization_non_dynamic,
        memorization_dynamic,
        last_lookup,
        text,
    }
}

} // verus!
