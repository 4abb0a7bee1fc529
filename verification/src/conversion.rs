//! The route between stress measures.
//!
//! The three measures lie on a line: Cauchy, first Piola-Kirchhoff, second
//! Piola-Kirchhoff. A stress or a tangent given in one of them reaches
//! another by the steps between neighbours, taken in order. Each model is
//! written down in one measure only; the steps are the same for all of them.

use vstd::prelude::*;
use crate::model::Measure;

verus! {

/// One step between neighbouring measures.
#[derive(Clone, Copy, Debug, PartialEq, Eq, Structural)]
pub enum Conversion {
    /// `P = J sigma F^-T`
    CauchyToFirst,
    /// `S = F^-1 P`
    FirstToSecond,
    /// `P = F S`
    SecondToFirst,
    /// `sigma = J^-1 P F^T`
    FirstToCauchy,
}

impl Conversion {
    /// The measure that a step starts from.
    pub open spec fn source(self) -> Measure {
        match self {
            Conversion::CauchyToFirst => Measure::Cauchy,
            Conversion::FirstToSecond => Measure::FirstPiolaKirchhoff,
            Conversion::SecondToFirst => Measure::SecondPiolaKirchhoff,
            Conversion::FirstToCauchy => Measure::FirstPiolaKirchhoff,
        }
    }

    /// The measure that a step arrives at.
    pub open spec fn target(self) -> Measure {
        match self {
            Conversion::CauchyToFirst => Measure::FirstPiolaKirchhoff,
            Conversion::FirstToSecond => Measure::SecondPiolaKirchhoff,
            Conversion::SecondToFirst => Measure::FirstPiolaKirchhoff,
            Conversion::FirstToCauchy => Measure::Cauchy,
        }
    }

    /// The step that undoes this one.
    pub open spec fn inverse(self) -> Conversion {
        match self {
            Conversion::CauchyToFirst => Conversion::FirstToCauchy,
            Conversion::FirstToSecond => Conversion::SecondToFirst,
            Conversion::SecondToFirst => Conversion::FirstToSecond,
            Conversion::FirstToCauchy => Conversion::CauchyToFirst,
        }
    }

    /// The step that undoes this one.
    pub fn reversed(&self) -> (step: Conversion)
        ensures
            step == self.inverse(),
    {
        match self {
            Conversion::CauchyToFirst => Conversion::FirstToCauchy,
            Conversion::FirstToSecond => Conversion::SecondToFirst,
            Conversion::SecondToFirst => Conversion::FirstToSecond,
            Conversion::FirstToCauchy => Conversion::CauchyToFirst,
        }
    }
}

/// The place of a measure on the line.
pub open spec fn position(measure: Measure) -> int {
    match measure {
        Measure::Cauchy => 0,
        Measure::FirstPiolaKirchhoff => 1,
        Measure::SecondPiolaKirchhoff => 2,
    }
}

/// The steps that lead from one measure to another, in the order in which
/// they are applied.
pub open spec fn route(from: Measure, to: Measure) -> Seq<Conversion> {
    match (from, to) {
        (Measure::Cauchy, Measure::FirstPiolaKirchhoff) => seq![Conversion::CauchyToFirst],
        (Measure::Cauchy, Measure::SecondPiolaKirchhoff) => seq![
            Conversion::CauchyToFirst,
            Conversion::FirstToSecond,
        ],
        (Measure::FirstPiolaKirchhoff, Measure::Cauchy) => seq![Conversion::FirstToCauchy],
        (Measure::FirstPiolaKirchhoff, Measure::SecondPiolaKirchhoff) => seq![
            Conversion::FirstToSecond,
        ],
        (Measure::SecondPiolaKirchhoff, Measure::Cauchy) => seq![
            Conversion::SecondToFirst,
            Conversion::FirstToCauchy,
        ],
        (Measure::SecondPiolaKirchhoff, Measure::FirstPiolaKirchhoff) => seq![
            Conversion::SecondToFirst,
        ],
        _ => Seq::empty(),
    }
}

/// Whether a sequence of steps leads from `from` to `to`, each step starting
/// where the one before it arrived.
pub open spec fn connects(steps: Seq<Conversion>, from: Measure, to: Measure) -> bool
    decreases steps.len(),
{
    if steps.len() == 0 {
        from == to
    } else {
        steps[0].source() == from && connects(steps.drop_first(), steps[0].target(), to)
    }
}

/// The steps that lead from one measure to another.
pub fn conversions(from: Measure, to: Measure) -> (steps: Vec<Conversion>)
    ensures
        steps@ == route(from, to),
{
    let mut steps: Vec<Conversion> = Vec::new();
    match (from, to) {
        (Measure::Cauchy, Measure::FirstPiolaKirchhoff) => {
            steps.push(Conversion::CauchyToFirst);
        },
        (Measure::Cauchy, Measure::SecondPiolaKirchhoff) => {
            steps.push(Conversion::CauchyToFirst);
            steps.push(Conversion::FirstToSecond);
        },
        (Measure::FirstPiolaKirchhoff, Measure::Cauchy) => {
            steps.push(Conversion::FirstToCauchy);
        },
        (Measure::FirstPiolaKirchhoff, Measure::SecondPiolaKirchhoff) => {
            steps.push(Conversion::FirstToSecond);
        },
        (Measure::SecondPiolaKirchhoff, Measure::Cauchy) => {
            steps.push(Conversion::SecondToFirst);
            steps.push(Conversion::FirstToCauchy);
        },
        (Measure::SecondPiolaKirchhoff, Measure::FirstPiolaKirchhoff) => {
            steps.push(Conversion::SecondToFirst);
        },
        _ => {},
    }
    assert(steps@ =~= route(from, to));
    steps
}

/// The route between two measures leads from the first to the second, and
/// takes one step for each place that lies between them.
pub proof fn lemma_route_connects(from: Measure, to: Measure)
    ensures
        connects(route(from, to), from, to),
        route(from, to).len() == if position(from) <= position(to) {
            position(to) - position(from)
        } else {
            position(from) - position(to)
        },
{
    let steps = route(from, to);
    if steps.len() == 1 {
        assert(steps.drop_first().len() == 0);
        assert(connects(steps.drop_first(), steps[0].target(), to));
    } else if steps.len() == 2 {
        let rest = steps.drop_first();
        assert(rest.len() == 1);
        assert(rest[0] == steps[1]);
        assert(rest.drop_first().len() == 0);
        assert(connects(rest.drop_first(), rest[0].target(), to));
        assert(connects(rest, steps[0].target(), to));
    }
}

/// The way back is the way there, undone step by step from its end.
pub proof fn lemma_route_back(from: Measure, to: Measure)
    ensures
        route(to, from).len() == route(from, to).len(),
        forall|i: int|
            0 <= i < route(from, to).len() ==> #[trigger] route(to, from)[i] == route(
                from,
                to,
            )[route(from, to).len() - 1 - i].inverse(),
{
}

/// A measure is reached from itself without a step.
pub proof fn lemma_route_none(measure: Measure)
    ensures
        route(measure, measure) == Seq::<Conversion>::empty(),
{
}

/// Whether `result` is what comes of `start` when the steps are applied to it
/// one after another, where `apply` does one step.
pub open spec fn carried<T, F: Fn(Conversion, T) -> T>(
    apply: F,
    steps: Seq<Conversion>,
    start: T,
    result: T,
) -> bool
    decreases steps.len(),
{
    if steps.len() == 0 {
        result == start
    } else {
        exists|before: T|
            carried(apply, steps.drop_last(), start, before) && #[trigger] call_ensures(
                apply,
                (steps.last(), before),
                result,
            )
    }
}

/// Takes a quantity given in one measure to another measure, along the route
/// between the two. What a step does to the quantity is the caller's.
pub fn follow<T, F: Fn(Conversion, T) -> T>(from: Measure, to: Measure, start: T, apply: F) -> (result:
    T)
    requires
        forall|step: Conversion, given: T| call_requires(apply, (step, given)),
    ensures
        carried(apply, route(from, to), start, result),
{
    let steps = conversions(from, to);
    let mut current = start;
    let mut done: usize = 0;
    while done < steps.len()
        invariant
            done <= steps@.len(),
            steps@ == route(from, to),
            forall|step: Conversion, given: T| call_requires(apply, (step, given)),
            carried(apply, steps@.take(done as int), start, current),
        decreases steps@.len() - done,
    {
        let step = steps[done];
        let next = apply(step, current);
        proof {
            let taken = steps@.take(done + 1);
            assert(taken.drop_last() =~= steps@.take(done as int));
            assert(taken.last() == step);
            assert(call_ensures(apply, (taken.last(), current), next));
        }
        current = next;
        done += 1;
    }
    assert(steps@.take(done as int) =~= steps@);
    current
}

/// What `carried` says of a single step.
proof fn lemma_carried_one<T, F: Fn(Conversion, T) -> T>(
    apply: F,
    steps: Seq<Conversion>,
    start: T,
    result: T,
)
    requires
        steps.len() == 1,
        carried(apply, steps, start, result),
    ensures
        call_ensures(apply, (steps[0], start), result),
{
    let before = choose|before: T|
        carried(apply, steps.drop_last(), start, before) && #[trigger] call_ensures(
            apply,
            (steps.last(), before),
            result,
        );
    assert(steps.drop_last().len() == 0);
    assert(before == start);
}

/// What `carried` says of two steps: the quantity in between.
proof fn lemma_carried_two<T, F: Fn(Conversion, T) -> T>(
    apply: F,
    steps: Seq<Conversion>,
    start: T,
    result: T,
) -> (between: T)
    requires
        steps.len() == 2,
        carried(apply, steps, start, result),
    ensures
        call_ensures(apply, (steps[0], start), between),
        call_ensures(apply, (steps[1], between), result),
{
    let between = choose|before: T|
        carried(apply, steps.drop_last(), start, before) && #[trigger] call_ensures(
            apply,
            (steps.last(), before),
            result,
        );
    assert(steps.drop_last().len() == 1);
    assert(steps.drop_last()[0] == steps[0]);
    lemma_carried_one(apply, steps.drop_last(), start, between);
    between
}

/// Where each step is undone by its inverse, a quantity taken to another
/// measure and back is the quantity that was given.
pub proof fn lemma_there_and_back<T, F: Fn(Conversion, T) -> T>(
    apply: F,
    from: Measure,
    to: Measure,
    start: T,
    there: T,
    back: T,
)
    requires
        forall|step: Conversion, given: T, taken: T, returned: T|
            #[trigger] call_ensures(apply, (step, given), taken) && #[trigger] call_ensures(
                apply,
                (step.inverse(), taken),
                returned,
            ) ==> returned == given,
        carried(apply, route(from, to), start, there),
        carried(apply, route(to, from), there, back),
    ensures
        back == start,
{
    let forth = route(from, to);
    let home = route(to, from);
    lemma_route_back(from, to);
    if forth.len() == 1 {
        lemma_carried_one(apply, forth, start, there);
        lemma_carried_one(apply, home, there, back);
        assert(home[0] == forth[0].inverse());
    } else if forth.len() == 2 {
        let outward = lemma_carried_two(apply, forth, start, there);
        let inward = lemma_carried_two(apply, home, there, back);
        assert(home[0] == forth[1].inverse());
        assert(home[1] == forth[0].inverse());
        assert(inward == outward);
    }
}

} // verus!
