//! What a training comes to.
use crate::solve::adjoint::run_error;
use crate::solve::error::Real;
use crate::solve::train_run::{train_begun, TrainPhase, TrainView};
use crate::solve::training::{scattered, slots_error, train_error, vectors_error};
use vstd::prelude::*;

verus! {

/// The rules by which the numbers of a training are supplied.
#[verifier::ext_equal]
pub struct TrainRules {
    /// The loss, from all parameters.
    pub loss: spec_fn(Seq<Real>) -> Real,
    /// The gradient over all parameters, from all parameters.
    pub gradient: spec_fn(Seq<Real>) -> Seq<Real>,
    /// New values of the trained parameters, from their values and the gradient by them.
    pub update: spec_fn(Seq<Real>, Seq<Real>) -> Seq<Real>,
}

/// The values that some slots name, in the order of the slots.
pub open spec fn picked(values: Seq<Real>, slots: Seq<usize>) -> Seq<Real> {
    Seq::new(slots.len(), |k: int| values[slots[k] as int])
}

/// Which of the first `n` slots is the last that names a parameter; none of them is -1.
pub open spec fn last_slot(slots: Seq<usize>, p: int, n: int) -> int
    decreases n,
{
    if n <= 0 {
        -1
    } else if slots[n - 1] == p {
        n - 1
    } else {
        last_slot(slots, p, n - 1)
    }
}

/// All parameters after the trained ones have new values: each trained one has the value
/// that its slot was given, and all others are as they were.
pub open spec fn renewed(params: Seq<Real>, slots: Seq<usize>, new: Seq<Real>) -> Seq<Real> {
    Seq::new(
        params.len(),
        |p: int|
            {
                let k = last_slot(slots, p, slots.len() as int);
                if k >= 0 {
                    new[k]
                } else {
                    params[p]
                }
            },
    )
}

/// All parameters before epoch `e`: those of the epoch before, with the trained ones
/// updated by the gradient at them.
pub open spec fn params_before(
    params: Seq<Real>,
    slots: Seq<usize>,
    rules: TrainRules,
    e: int,
) -> Seq<Real>
    decreases e,
{
    if e <= 0 {
        params
    } else {
        let before = params_before(params, slots, rules, e - 1);
        renewed(
            before,
            slots,
            (rules.update)(picked(before, slots), picked((rules.gradient)(before), slots)),
        )
    }
}

/// A training to its end, for any rules that supply its numbers: what it asks for at each
/// turn is computed from what it holds at that turn.
pub open spec fn train_through(v: TrainView, rules: TrainRules, turns: nat) -> TrainView
    decreases turns,
{
    if turns == 0 {
        v
    } else {
        let more = (turns - 1) as nat;
        match v.phase {
            TrainPhase::Finished => v,
            TrainPhase::Gradient => train_through(
                v.with_gradient((rules.gradient)(v.params)),
                rules,
                more,
            ),
            TrainPhase::Update => train_through(
                v.with_update((rules.update)(picked(v.params, v.slots), v.gradient)),
                rules,
                more,
            ),
            _ => train_through(v.with_loss((rules.loss)(v.params)), rules, more),
        }
    }
}

proof fn lemma_scattered_is_renewed(params: Seq<Real>, slots: Seq<usize>, new: Seq<Real>, n: int)
    requires
        0 <= n <= slots.len(),
        forall|k: int| 0 <= k < slots.len() ==> (#[trigger] slots[k]) < params.len(),
    ensures
        scattered(params, slots, new, n).len() == params.len(),
        forall|p: int|
            0 <= p < params.len() ==> #[trigger] scattered(params, slots, new, n)[p] == if last_slot(
                slots,
                p,
                n,
            ) >= 0 {
                new[last_slot(slots, p, n)]
            } else {
                params[p]
            },
    decreases n,
{
    if n > 0 {
        lemma_scattered_is_renewed(params, slots, new, n - 1);
        assert(slots[n - 1] < params.len());
    }
}

/// What a training holds when `e` epochs are over and what comes next begins.
spec fn holds_at(
    v: TrainView,
    epochs: usize,
    slots: Seq<usize>,
    params: Seq<Real>,
    rules: TrainRules,
    e: int,
) -> bool {
    &&& v.epochs == epochs
    &&& v.slots == slots
    &&& v.params == params_before(params, slots, rules, e)
    &&& v.params.len() == params.len()
    &&& v.initial_loss == (rules.loss)(params)
    &&& v.losses == Seq::new(
        e as nat,
        |i: int| (rules.loss)(params_before(params, slots, rules, i)),
    )
}

proof fn lemma_train(
    v: TrainView,
    epochs: usize,
    slots: Seq<usize>,
    params: Seq<Real>,
    rules: TrainRules,
    e: int,
)
    requires
        0 <= e <= epochs,
        forall|k: int| 0 <= k < slots.len() ==> (#[trigger] slots[k]) < params.len(),
        holds_at(v, epochs, slots, params, rules, e),
        v.phase == if e < epochs {
            TrainPhase::EpochLoss
        } else {
            TrainPhase::FinalLoss
        },
    ensures
        ({
            let end = train_through(v, rules, (3 * (epochs - e) + 1) as nat);
            &&& end.phase is Finished
            &&& holds_at(end, epochs, slots, params, rules, epochs as int)
            &&& end.final_loss == (rules.loss)(params_before(params, slots, rules, epochs as int))
        }),
    decreases epochs - e,
{
    reveal_with_fuel(train_through, 4);
    if e < epochs {
        let a = v.with_loss((rules.loss)(v.params));
        let b = a.with_gradient((rules.gradient)(a.params));
        let new = (rules.update)(picked(b.params, b.slots), b.gradient);
        let c = b.with_update(new);
        assert(b.gradient =~= picked((rules.gradient)(v.params), slots));
        lemma_scattered_is_renewed(b.params, slots, new, slots.len() as int);
        assert(c.params =~= renewed(b.params, slots, new));
        assert(c.losses =~= Seq::new(
            (e + 1) as nat,
            |i: int| (rules.loss)(params_before(params, slots, rules, i)),
        ));
        assert(c.losses.len() == e + 1);
        lemma_train(c, epochs, slots, params, rules, e + 1);
        let left = (3 * (epochs - e) + 1) as nat;
        assert(train_through(v, rules, left) == train_through(a, rules, (left - 1) as nat));
        assert(train_through(a, rules, (left - 1) as nat) == train_through(
            b,
            rules,
            (left - 2) as nat,
        ));
        assert(train_through(b, rules, (left - 2) as nat) == train_through(
            c,
            rules,
            (left - 3) as nat,
        ));
    }
}

/// Whatever the rules of its numbers are, a training ends after its epochs: with the loss
/// at the parameters it began with, the loss before the update of each epoch, in turn,
/// the loss after the last, and the parameters that follow from updating the trained ones
/// once in each epoch by the gradient at the parameters of that epoch.
pub proof fn law_training_follows_its_rules(
    epochs: usize,
    slots: Seq<usize>,
    params: Seq<Real>,
    rules: TrainRules,
)
    requires
        forall|k: int| 0 <= k < slots.len() ==> (#[trigger] slots[k]) < params.len(),
    ensures
        ({
            let begun = train_begun(epochs, slots, params);
            let end = train_through(begun, rules, (3 * epochs + 2) as nat);
            &&& begun.phase is InitialLoss
            &&& end.phase is Finished
            &&& end.params == params_before(params, slots, rules, epochs as int)
            &&& end.initial_loss == (rules.loss)(params)
            &&& end.losses == Seq::new(
                epochs as nat,
                |e: int| (rules.loss)(params_before(params, slots, rules, e)),
            )
            &&& end.final_loss == (rules.loss)(params_before(params, slots, rules, epochs as int))
        }),
{
    let begun = train_begun(epochs, slots, params);
    let first = begun.with_loss((rules.loss)(params));
    assert(first.losses =~= Seq::new(
        0,
        |i: int| (rules.loss)(params_before(params, slots, rules, i)),
    ));
    lemma_train(first, epochs, slots, params, rules, 0);
    assert(train_through(begun, rules, (3 * epochs + 2) as nat) == train_through(
        first,
        rules,
        (3 * epochs + 1) as nat,
    ));
}

proof fn lemma_vectors_pass(name: Seq<char>, lens: Seq<usize>, state_count: usize, n: int)
    requires
        0 <= n <= lens.len(),
    ensures
        vectors_error(name, lens, state_count, n) is None <==> forall|i: int|
            0 <= i < n ==> #[trigger] lens[i] == state_count,
    decreases n,
{
    if n > 0 {
        lemma_vectors_pass(name, lens, state_count, n - 1);
    }
}

proof fn lemma_slots_pass(slots: Seq<usize>, p_scalars: usize, params_len: usize, n: int)
    requires
        0 <= n <= slots.len(),
    ensures
        slots_error(slots, p_scalars, params_len, n) is None <==> forall|k: int|
            0 <= k < n ==> (#[trigger] slots[k]) < p_scalars && slots[k] < params_len,
    decreases n,
{
    if n > 0 {
        lemma_slots_pass(slots, p_scalars, params_len, n - 1);
    }
}

/// Whether vectors fit a trajectory: as many as are stored, each with an entry for each
/// state.
pub open spec fn vectors_fit(lens: Seq<usize>, stored: usize, state_count: usize) -> bool {
    &&& lens.len() == stored
    &&& forall|i: int| 0 <= i < lens.len() ==> #[trigger] lens[i] == state_count
}

/// An adjoint run is started exactly where the initial state has an entry for each state,
/// there is a cotangent for each stored state, with an entry for each state, and the
/// model solves for its states alone.
pub proof fn law_fitting_runs_start(
    state_count: usize,
    solver_count: usize,
    x0_len: usize,
    lens: Seq<usize>,
    stored: usize,
)
    ensures
        run_error(state_count, solver_count, x0_len, lens, stored) is None <==> x0_len
            == state_count && vectors_fit(lens, stored, state_count) && solver_count
            == state_count,
{
    lemma_vectors_pass(
        "trajectory adjoint: "@ + "state_cotangents"@,
        lens,
        state_count,
        lens.len() as int,
    );
}

/// A training is started exactly where the initial state has an entry for each state,
/// there is a target for each stored state, with an entry for each state, and every slot
/// is a parameter.
pub proof fn law_fitting_trainings_start(
    state_count: usize,
    x0_len: usize,
    params_len: usize,
    slots: Seq<usize>,
    lens: Seq<usize>,
    stored: usize,
    p_scalars: usize,
)
    ensures
        train_error(state_count, x0_len, params_len, slots, lens, stored, p_scalars) is None <==> {
            &&& x0_len == state_count
            &&& vectors_fit(lens, stored, state_count)
            &&& forall|k: int|
                0 <= k < slots.len() ==> (#[trigger] slots[k]) < p_scalars && slots[k] < params_len
        },
{
    lemma_vectors_pass("train: "@ + "targets"@, lens, state_count, lens.len() as int);
    lemma_slots_pass(slots, p_scalars, params_len, slots.len() as int);
}

} // verus!
