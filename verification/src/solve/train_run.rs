//! The order of a training.
//!
//! A [`TrainRun`] asks for losses, gradients and updates in turn, keeps the
//! losses and writes the trained values into their parameters. The numbers are
//! computed outside and supplied.
use crate::solve::error::Real;
use crate::solve::training::{
    gather_slots, law_valid_slots_are_parameters, scatter_slots, scattered, train_error,
    validate_train_inputs, ShapeError,
};
use vstd::prelude::*;

verus! {

/// What a training asks for next.
#[derive(Clone, Copy, Debug, PartialEq, Eq, Structural)]
pub enum TrainPhase {
    /// The loss before any update.
    InitialLoss,
    /// The loss before the update of an epoch.
    EpochLoss,
    /// The gradient over all parameters.
    Gradient,
    /// New values of the trained parameters.
    Update,
    /// The loss after the last update.
    FinalLoss,
    Finished,
}

/// A training in progress.
pub struct TrainRun {
    pub phase: TrainPhase,
    pub epochs: usize,
    pub slots: Vec<usize>,
    /// All parameters, trained or not.
    pub params: Vec<Real>,
    pub initial_loss: Real,
    /// One loss for each epoch that has begun.
    pub losses: Vec<Real>,
    /// The gradient of the trained parameters.
    pub gradient: Vec<Real>,
    pub final_loss: Real,
}

/// The mathematical content of a [`TrainRun`].
#[verifier::ext_equal]
pub struct TrainView {
    pub phase: TrainPhase,
    pub epochs: usize,
    pub slots: Seq<usize>,
    pub params: Seq<Real>,
    pub initial_loss: Real,
    pub losses: Seq<Real>,
    pub gradient: Seq<Real>,
    pub final_loss: Real,
}

impl View for TrainRun {
    type V = TrainView;

    open spec fn view(&self) -> TrainView {
        TrainView {
            phase: self.phase,
            epochs: self.epochs,
            slots: self.slots@,
            params: self.params@,
            initial_loss: self.initial_loss,
            losses: self.losses@,
            gradient: self.gradient@,
            final_loss: self.final_loss,
        }
    }
}

/// The values in some slots.
pub open spec fn gathered(values: Seq<Real>, slots: Seq<usize>) -> Seq<Real> {
    Seq::new(slots.len(), |k: int| values[slots[k] as int])
}

impl TrainView {
    /// Every slot is a parameter, and there are as many losses as epochs have
    /// begun.
    pub open spec fn wf(self) -> bool {
        &&& forall|k: int| 0 <= k < self.slots.len() ==> (#[trigger] self.slots[k])
            < self.params.len()
        &&& match self.phase {
            TrainPhase::InitialLoss => self.losses.len() == 0,
            TrainPhase::EpochLoss => self.losses.len() < self.epochs,
            TrainPhase::Gradient => 0 < self.losses.len() <= self.epochs,
            TrainPhase::Update => 0 < self.losses.len() <= self.epochs && self.gradient.len()
                == self.slots.len(),
            TrainPhase::FinalLoss => self.losses.len() == self.epochs,
            TrainPhase::Finished => self.losses.len() == self.epochs,
        }
    }

    /// The phase that begins an epoch, or that ends the training after the last.
    pub open spec fn next_epoch(self) -> TrainPhase {
        if self.losses.len() < self.epochs {
            TrainPhase::EpochLoss
        } else {
            TrainPhase::FinalLoss
        }
    }

    /// After a loss.
    pub open spec fn with_loss(self, loss: Real) -> TrainView {
        match self.phase {
            TrainPhase::InitialLoss => TrainView {
                initial_loss: loss,
                phase: self.next_epoch(),
                ..self
            },
            TrainPhase::EpochLoss => TrainView {
                losses: self.losses.push(loss),
                phase: TrainPhase::Gradient,
                ..self
            },
            _ => TrainView { final_loss: loss, phase: TrainPhase::Finished, ..self },
        }
    }

    /// After a gradient over all parameters: that of the trained ones is kept.
    pub open spec fn with_gradient(self, gradient: Seq<Real>) -> TrainView {
        TrainView {
            gradient: gathered(gradient, self.slots),
            phase: TrainPhase::Update,
            ..self
        }
    }

    /// After new values of the trained parameters.
    pub open spec fn with_update(self, values: Seq<Real>) -> TrainView {
        TrainView {
            params: scattered(self.params, self.slots, values, self.slots.len() as int),
            phase: self.next_epoch(),
            ..self
        }
    }

    /// Whether a loss is asked for.
    pub open spec fn wants_loss(self) -> bool {
        self.phase is InitialLoss || self.phase is EpochLoss || self.phase is FinalLoss
    }
}

/// A training before its first loss.
pub open spec fn train_begun(epochs: usize, slots: Seq<usize>, params: Seq<Real>) -> TrainView {
    TrainView {
        phase: TrainPhase::InitialLoss,
        epochs,
        slots,
        params,
        initial_loss: Real::zero_spec(),
        losses: Seq::empty(),
        gradient: Seq::empty(),
        final_loss: Real::zero_spec(),
    }
}

impl TrainRun {
    /// Checks the shapes and begins a training.
    pub fn start(
        state_count: usize,
        x0_len: usize,
        params: Vec<Real>,
        slots: Vec<usize>,
        target_lens: &Vec<usize>,
        stored: usize,
        p_scalars: usize,
        epochs: usize,
    ) -> (r: Result<TrainRun, ShapeError>)
        ensures
            ({
                let error = train_error(
                    state_count,
                    x0_len,
                    params@.len() as usize,
                    slots@,
                    target_lens@,
                    stored,
                    p_scalars,
                );
                match r {
                    Ok(run) => error is None && run@.wf() && run@ == train_begun(
                        epochs,
                        slots@,
                        params@,
                    ),
                    Err(e) => error == Some(e@),
                }
            }),
    {
        match validate_train_inputs(
            state_count,
            x0_len,
            params.len(),
            &slots,
            target_lens,
            stored,
            p_scalars,
        ) {
            Ok(_) => {},
            Err(e) => {
                return Err(e);
            },
        }
        proof {
            assert forall|k: int| 0 <= k < slots@.len() implies (#[trigger] slots@[k])
                < params@.len() by {
                law_valid_slots_are_parameters(
                    state_count,
                    x0_len,
                    params@.len() as usize,
                    slots@,
                    target_lens@,
                    stored,
                    p_scalars,
                    k,
                );
            }
        }
        let run = TrainRun {
            phase: TrainPhase::InitialLoss,
            epochs,
            slots,
            params,
            initial_loss: Real::zero(),
            losses: Vec::new(),
            gradient: Vec::new(),
            final_loss: Real::zero(),
        };
        assert(run@ =~= train_begun(epochs, slots@, params@));
        Ok(run)
    }

    fn next_epoch(&self) -> (phase: TrainPhase)
        ensures
            phase == self@.next_epoch(),
    {
        if self.losses.len() < self.epochs {
            TrainPhase::EpochLoss
        } else {
            TrainPhase::FinalLoss
        }
    }

    /// Supplies a loss.
    pub fn supply_loss(&mut self, loss: Real)
        requires
            old(self)@.wf(),
            old(self)@.wants_loss(),
        ensures
            final(self)@.wf(),
            final(self)@ == old(self)@.with_loss(loss),
    {
        match self.phase {
            TrainPhase::InitialLoss => {
                self.initial_loss = loss;
                self.phase = self.next_epoch();
            },
            TrainPhase::EpochLoss => {
                self.losses.push(loss);
                self.phase = TrainPhase::Gradient;
            },
            _ => {
                self.final_loss = loss;
                self.phase = TrainPhase::Finished;
            },
        }
    }

    /// Supplies the gradient over all parameters.
    pub fn supply_gradient(&mut self, gradient: &Vec<Real>)
        requires
            old(self)@.wf(),
            old(self)@.phase is Gradient,
            forall|k: int| 0 <= k < old(self)@.slots.len() ==> (#[trigger] old(self)@.slots[k])
                < gradient@.len(),
        ensures
            final(self)@.wf(),
            final(self)@ == old(self)@.with_gradient(gradient@),
    {
        self.gradient = gather_slots(gradient.as_slice(), &self.slots);
        self.phase = TrainPhase::Update;
        assert(self@ =~= old(self)@.with_gradient(gradient@));
    }

    /// The trained values as they are.
    pub fn trained_values(&self) -> (r: Vec<Real>)
        requires
            self@.wf(),
        ensures
            r@ == gathered(self@.params, self@.slots),
    {
        assert(self@.slots == self.slots@ && self@.params == self.params@);
        gather_slots(self.params.as_slice(), &self.slots)
    }

    /// Supplies new values of the trained parameters.
    pub fn supply_update(&mut self, values: &Vec<Real>)
        requires
            old(self)@.wf(),
            old(self)@.phase is Update,
            values@.len() == old(self)@.slots.len(),
        ensures
            final(self)@.wf(),
            final(self)@ == old(self)@.with_update(values@),
    {
        scatter_slots(&mut self.params, &self.slots, values);
        self.phase = self.next_epoch();
        proof {
            crate::solve::training::lemma_scattered_length(
                old(self)@.params,
                old(self)@.slots,
                values@,
                old(self)@.slots.len() as int,
            );
            assert(self@ =~= old(self)@.with_update(values@));
        }
    }
}

/// One thing that is supplied to a training.
pub enum Supply {
    Loss(Real),
    Gradient(Seq<Real>),
    Update(Seq<Real>),
}

impl TrainView {
    /// Whether this is what the training asks for.
    pub open spec fn fits(self, s: Supply) -> bool {
        match s {
            Supply::Loss(_) => self.wants_loss(),
            Supply::Gradient(g) => self.phase is Gradient && forall|k: int|
                0 <= k < self.slots.len() ==> (#[trigger] self.slots[k]) < g.len(),
            Supply::Update(values) => self.phase is Update && values.len() == self.slots.len(),
        }
    }

    pub open spec fn after(self, s: Supply) -> TrainView {
        match s {
            Supply::Loss(loss) => self.with_loss(loss),
            Supply::Gradient(g) => self.with_gradient(g),
            Supply::Update(values) => self.with_update(values),
        }
    }

    /// After the first `n` supplies.
    pub open spec fn after_all(self, supplies: Seq<Supply>, n: int) -> TrainView
        decreases n,
    {
        if n <= 0 {
            self
        } else {
            self.after_all(supplies, n - 1).after(supplies[n - 1])
        }
    }

    /// Whether each of the first `n` supplies is what is asked for at its turn.
    pub open spec fn all_fit(self, supplies: Seq<Supply>, n: int) -> bool {
        forall|i: int|
            0 <= i < n ==> (#[trigger] self.after_all(supplies, i)).fits(supplies[i])
    }
}

/// Through a whole training no parameter but the trained ones changes, the
/// number of losses never exceeds the number of epochs, and a finished training
/// has a loss for each epoch.
pub proof fn law_training_changes_trained_parameters_only(
    epochs: usize,
    slots: Seq<usize>,
    params: Seq<Real>,
    supplies: Seq<Supply>,
    p: int,
)
    requires
        train_begun(epochs, slots, params).wf(),
        train_begun(epochs, slots, params).all_fit(supplies, supplies.len() as int),
    ensures
        ({
            let end = train_begun(epochs, slots, params).after_all(
                supplies,
                supplies.len() as int,
            );
            &&& end.wf()
            &&& end.params.len() == params.len()
            &&& end.losses.len() <= epochs
            &&& end.phase is Finished ==> end.losses.len() == epochs
            &&& 0 <= p < params.len() && (forall|k: int| 0 <= k < slots.len() ==> slots[k] != p)
                ==> end.params[p] == params[p]
        }),
{
    lemma_training(epochs, slots, params, supplies, supplies.len() as int, p);
}

proof fn lemma_training(
    epochs: usize,
    slots: Seq<usize>,
    params: Seq<Real>,
    supplies: Seq<Supply>,
    n: int,
    p: int,
)
    requires
        0 <= n <= supplies.len(),
        train_begun(epochs, slots, params).wf(),
        train_begun(epochs, slots, params).all_fit(supplies, n),
    ensures
        ({
            let end = train_begun(epochs, slots, params).after_all(supplies, n);
            &&& end.wf()
            &&& end.epochs == epochs
            &&& end.slots == slots
            &&& end.params.len() == params.len()
            &&& 0 <= p < params.len() && (forall|k: int| 0 <= k < slots.len() ==> slots[k] != p)
                ==> end.params[p] == params[p]
        }),
    decreases n,
{
    if n > 0 {
        let begun = train_begun(epochs, slots, params);
        lemma_training(epochs, slots, params, supplies, n - 1, p);
        let before = begun.after_all(supplies, n - 1);
        assert(before.fits(supplies[n - 1]));
        match supplies[n - 1] {
            Supply::Update(values) => {
                crate::solve::training::lemma_scattered_length(
                    before.params,
                    slots,
                    values,
                    slots.len() as int,
                );
                if 0 <= p < params.len() && (forall|k: int|
                    0 <= k < slots.len() ==> slots[k] != p) {
                    crate::solve::training::lemma_scattered_elsewhere(
                        before.params,
                        slots,
                        values,
                        slots.len() as int,
                        p,
                    );
                }
            },
            _ => {},
        }
    }
}

} // verus!
