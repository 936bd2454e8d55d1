//! Newton's method root-finding as a lazily stepped sequence.
//!
//! A [`Newton`] value holds the current approximation to a root of a
//! user-supplied function together with that function and its derivative.
//! Each call of [`Newton::next`] performs one update
//! `x_{n+1} = x_n - f(x_n) / f'(x_n)` and produces the freshly computed
//! value, so the first produced value is the one *after* one update of the
//! initial guess. The sequence is infinite: a step never signals exhaustion.
//!
//! The type is generic over the numeric type `T` (anything that can be
//! subtracted, divided and cheaply copied) and over the two callables, which
//! may be named functions or closures. The specification of a step is stated
//! against `spec_fn` models of the callables and against the `sub_spec` /
//! `div_spec` interpretations that `T`'s subtraction and division carry.

use vstd::prelude::*;

verus! {

use std::ops::Div;
use std::ops::Sub;
use vstd::std_specs::ops::DivSpec;
use vstd::std_specs::ops::SubSpec;

/// One Newton update of `x`, at the specification level: `x - f(x) / df(x)`,
/// where subtraction and division are read through `T`'s own `sub_spec` and
/// `div_spec` interpretations.
pub open spec fn newton_step<T: Div<Output = T> + Sub<Output = T> + Copy>(
    f: spec_fn(T) -> T,
    df: spec_fn(T) -> T,
    x: T,
) -> T {
    x.sub_spec(f(x).div_spec(df(x)))
}

/// The approximation reached from `x0` by exactly `n` Newton updates.
pub open spec fn newton_trajectory<T: Div<Output = T> + Sub<Output = T> + Copy>(
    f: spec_fn(T) -> T,
    df: spec_fn(T) -> T,
    x0: T,
    n: nat,
) -> T
    decreases n,
{
    if n == 0 {
        x0
    } else {
        newton_step(f, df, newton_trajectory(f, df, x0, (n - 1) as nat))
    }
}

/// `g` behaves like the mathematical function `m`: every value `g` can return
/// on `x` equals `m(x)`. A callable with this property is deterministic, and
/// `m` is the one function it computes.
pub open spec fn models<T, G: Fn(T) -> T>(g: G, m: spec_fn(T) -> T) -> bool {
    forall|x: T, r: T| #[trigger] call_ensures(g, (x,), r) ==> r == m(x)
}

/// Unfolds [`newton_trajectory`] by one step at the end: the approximation
/// after `n >= 1` updates is one update of the approximation after `n - 1`.
pub proof fn lemma_trajectory_unfold<T: Div<Output = T> + Sub<Output = T> + Copy>(
    f: spec_fn(T) -> T,
    df: spec_fn(T) -> T,
    x0: T,
    n: nat,
)
    requires
        n >= 1,
    ensures
        newton_trajectory(f, df, x0, n) == newton_step(
            f,
            df,
            newton_trajectory(f, df, x0, (n - 1) as nat),
        ),
{
}

/// Determinism of a step: when the callables model the mathematical
/// functions `fm` and `dm`, the update rule admits exactly one outcome —
/// whatever values `fx` and `dfx` the callables actually returned at `x`,
/// the computed step equals `newton_step(fm, dm, x)`. Together with
/// [`newton_trajectory`] this makes the whole produced sequence a pure
/// function of the initial guess, the two models and the step count.
pub proof fn lemma_step_deterministic<T, F, DF>(
    g: F,
    dg: DF,
    fm: spec_fn(T) -> T,
    dm: spec_fn(T) -> T,
    x: T,
    fx: T,
    dfx: T,
) where
    T: Div<Output = T> + Sub<Output = T> + Copy,
    F: Fn(T) -> T,
    DF: Fn(T) -> T,

    requires
        models(g, fm),
        models(dg, dm),
        call_ensures(g, (x,), fx),
        call_ensures(dg, (x,), dfx),
    ensures
        x.sub_spec(fx.div_spec(dfx)) == newton_step(fm, dm, x),
{
}

/// Exact fixed-point law, on the exact integer type `i64`: for a function
/// behaving as `x |-> x - c` with derivative one at the points the trajectory
/// visits, every approximation after the first update equals the root `c`
/// exactly — one update lands on `c` and every further update stays there.
/// The hypotheses on `fm` at `x0` ask `x0 - c` to be representable; an `x0`
/// and `c` whose difference overflows `i64` admit no such `fm`.
pub proof fn lemma_exact_fixed_point(
    fm: spec_fn(i64) -> i64,
    dm: spec_fn(i64) -> i64,
    c: i64,
    x0: i64,
    n: nat,
)
    requires
        fm(x0) == x0 - c,
        fm(c) == 0,
        dm(x0) == 1,
        dm(c) == 1,
        n >= 1,
    ensures
        newton_trajectory(fm, dm, x0, n) == c,
    decreases n,
{
    lemma_trajectory_unfold(fm, dm, x0, n);
    if n > 1 {
        lemma_exact_fixed_point(fm, dm, c, x0, (n - 1) as nat);
    }
}

/// Successive Newton's-method approximations to a root of `func`, produced
/// one per step on demand.
///
/// The instance is a forward-only cursor: stepping mutates the current
/// approximation in place, and replaying the sequence takes a fresh instance
/// built from the same initial guess and callables.
#[verifier::reject_recursive_types(T)]
pub struct Newton<T, F, DF> where
    T: Div<Output = T> + Sub<Output = T> + Copy,
    F: Fn(T) -> T,
    DF: Fn(T) -> T,
{
    current: T,
    func: F,
    derivative: DF,
}

impl<T, F, DF> Newton<T, F, DF> where
    T: Div<Output = T> + Sub<Output = T> + Copy,
    F: Fn(T) -> T,
    DF: Fn(T) -> T,
{
    /// The current approximation: the initial guess until the first step,
    /// afterwards the value computed by the most recent step.
    pub closed spec fn current(self) -> T {
        self.current
    }

    /// The function whose root is sought.
    pub closed spec fn func(self) -> F {
        self.func
    }

    /// The derivative of [`Self::func`].
    pub closed spec fn derivative(self) -> DF {
        self.derivative
    }

    /// Whether one step may be taken from the current state: `T`'s
    /// subtraction and division obey their specifications, both callables
    /// accept the current approximation, and whatever values they can return
    /// admit the division and the subtraction of the update rule (for an
    /// exact integer type, say, the derivative value must be non-zero and the
    /// update must not overflow). The approximator checks none of this at run
    /// time; the caller establishes it for the domain it explores.
    pub open spec fn step_ready(self) -> bool {
        &&& T::obeys_sub_spec()
        &&& T::obeys_div_spec()
        &&& call_requires(self.func(), (self.current(),))
        &&& call_requires(self.derivative(), (self.current(),))
        &&& forall|fx: T, dfx: T|
            (#[trigger] call_ensures(self.func(), (self.current(),), fx)
                && #[trigger] call_ensures(self.derivative(), (self.current(),), dfx))
                ==> fx.div_req(dfx) && self.current().sub_req(fx.div_spec(dfx))
    }

    /// Whether a step may be taken from *every* state: [`Self::step_ready`]
    /// for any value the current approximation could take. This asks the
    /// callables to be total and the update rule's division and subtraction
    /// to be admissible everywhere, which is what a caller that takes many
    /// steps without inspecting the intermediate values relies on.
    pub open spec fn always_ready(self) -> bool {
        &&& T::obeys_sub_spec()
        &&& T::obeys_div_spec()
        &&& forall|x: T| #[trigger] call_requires(self.func(), (x,))
        &&& forall|x: T| #[trigger] call_requires(self.derivative(), (x,))
        &&& forall|x: T, fx: T, dfx: T|
            (#[trigger] call_ensures(self.func(), (x,), fx)
                && #[trigger] call_ensures(self.derivative(), (x,), dfx))
                ==> fx.div_req(dfx) && x.sub_req(fx.div_spec(dfx))
    }

    /// Creates a new approximator whose current approximation is
    /// `initial_guess`.
    ///
    /// - `func` is the function to find a root of,
    /// - `derivative` is its derivative.
    ///
    /// No validation happens here: a guess outside the domain the callables
    /// accept surfaces only when a step is taken.
    pub fn new(initial_guess: T, func: F, derivative: DF) -> (r: Self)
        ensures
            r.current() == initial_guess,
            r.func() == func,
            r.derivative() == derivative,
    {
        Newton { current: initial_guess, func, derivative }
    }

    /// Takes one step: computes `next = current - func(current) /
    /// derivative(current)`, stores it as the new current approximation, and
    /// produces it. The produced value is the one *after* the update, so the
    /// first call on a fresh instance does not produce the initial guess.
    ///
    /// A step always produces a value — the sequence never signals
    /// exhaustion — and the callables are the only thing consulted: the new
    /// approximation is exactly one Newton update of the old one, read
    /// through whatever values the callables returned. When the callables
    /// model mathematical functions `fm` and `dm`, the new approximation is
    /// pinned to `newton_step(fm, dm, old current)`.
    pub fn next(&mut self) -> (r: Option<T>)
        requires
            old(self).step_ready(),
        ensures
            r is Some,
            r == Some(final(self).current()),
            final(self).func() == old(self).func(),
            final(self).derivative() == old(self).derivative(),
            exists|fx: T, dfx: T|
                (#[trigger] call_ensures(old(self).func(), (old(self).current(),), fx)
                    && #[trigger] call_ensures(
                    old(self).derivative(),
                    (old(self).current(),),
                    dfx,
                )) && final(self).current() == old(self).current().sub_spec(fx.div_spec(dfx)),
            forall|fm: spec_fn(T) -> T, dm: spec_fn(T) -> T|
                (#[trigger] models(old(self).func(), fm) && #[trigger] models(
                    old(self).derivative(),
                    dm,
                )) ==> final(self).current() == newton_step(fm, dm, old(self).current()),
    {
        let fx = (self.func)(self.current);
        let dfx = (self.derivative)(self.current);
        let next = self.current - fx / dfx;
        self.current = next;
        Some(next)
    }

    /// Takes `n + 1` steps and produces the last value, as pulling the
    /// `n`-th element (zero-indexed) of the produced sequence would: the
    /// result is the initial approximation after exactly `n + 1` applications
    /// of the update rule. When the callables model mathematical functions
    /// `fm` and `dm`, the result is pinned to
    /// `newton_trajectory(fm, dm, old current, n + 1)`.
    pub fn nth(&mut self, n: usize) -> (r: Option<T>)
        requires
            old(self).always_ready(),
        ensures
            r is Some,
            r == Some(final(self).current()),
            final(self).func() == old(self).func(),
            final(self).derivative() == old(self).derivative(),
            forall|fm: spec_fn(T) -> T, dm: spec_fn(T) -> T|
                (#[trigger] models(old(self).func(), fm) && #[trigger] models(
                    old(self).derivative(),
                    dm,
                )) ==> final(self).current() == newton_trajectory(
                    fm,
                    dm,
                    old(self).current(),
                    n as nat + 1,
                ),
    {
        let mut produced = self.next();
        proof {
            assert forall|fm: spec_fn(T) -> T, dm: spec_fn(T) -> T|
                (#[trigger] models(old(self).func(), fm) && #[trigger] models(
                    old(self).derivative(),
                    dm,
                )) implies self.current() == newton_trajectory(
                fm,
                dm,
                old(self).current(),
                1,
            ) by {
                lemma_trajectory_unfold(fm, dm, old(self).current(), 1);
            }
        }
        let mut i: usize = 0;
        while i < n
            invariant
                i <= n,
                self.always_ready(),
                self.func() == old(self).func(),
                self.derivative() == old(self).derivative(),
                produced == Some(self.current()),
                forall|fm: spec_fn(T) -> T, dm: spec_fn(T) -> T|
                    (#[trigger] models(old(self).func(), fm) && #[trigger] models(
                        old(self).derivative(),
                        dm,
                    )) ==> self.current() == newton_trajectory(
                        fm,
                        dm,
                        old(self).current(),
                        i as nat + 1,
                    ),
            decreases n - i,
        {
            produced = self.next();
            i = i + 1;
            proof {
                assert forall|fm: spec_fn(T) -> T, dm: spec_fn(T) -> T|
                    (#[trigger] models(old(self).func(), fm) && #[trigger] models(
                        old(self).derivative(),
                        dm,
                    )) implies self.current() == newton_trajectory(
                    fm,
                    dm,
                    old(self).current(),
                    i as nat + 1,
                ) by {
                    lemma_trajectory_unfold(fm, dm, old(self).current(), i as nat + 1);
                }
            }
        }
        produced
    }
}

} // verus!
