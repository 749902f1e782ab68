//! Going forward and backward through a trajectory of states.
//!
//! An [`AdjointRun`] decides which step comes next and keeps what the steps give:
//! forward from the initial state, each state stored, then backward from the last
//! stored state to the first. What a step back is made of, the cotangent of its state
//! and the two parts of what the kernel gave for it, the run hands out. The arithmetic
//! of a step is done outside and its numbers are supplied.
use crate::solve::error::Real;
use crate::solve::training::{
    adjoint_error, checked, step_range, validate_adjoint_inputs, ShapeError,
};
use crate::text::{nat_text, owned, push_usize};
use vstd::prelude::*;
use vstd::slice::slice_subrange;

verus! {

/// States of the same length, one after the other.
pub struct Trajectory {
    state_count: usize,
    count: usize,
    states: Vec<Real>,
}

impl View for Trajectory {
    type V = Seq<Seq<Real>>;

    /// The states in their order.
    closed spec fn view(&self) -> Seq<Seq<Real>> {
        Seq::new(
            self.count as nat,
            |n: int|
                self.states@.subrange(n * self.state_count, (n + 1) * self.state_count),
        )
    }
}

impl Trajectory {
    /// Length of each state.
    pub closed spec fn width(self) -> usize {
        self.state_count
    }

    pub closed spec fn wf(self) -> bool {
        self.states@.len() == self.count * self.state_count
    }

    /// A trajectory that has not begun.
    pub fn new(state_count: usize) -> (t: Trajectory)
        ensures
            t.wf(),
            t.width() == state_count,
            t@ == Seq::<Seq<Real>>::empty(),
    {
        let t = Trajectory { state_count, count: 0, states: Vec::new() };
        assert(t@ =~= Seq::<Seq<Real>>::empty());
        t
    }

    /// Number of states.
    pub fn len(&self) -> (n: usize)
        ensures
            n == self@.len(),
    {
        self.count
    }

    /// One of the states.
    pub fn state(&self, n: usize) -> (r: &[Real])
        requires
            self.wf(),
            n < self@.len(),
        ensures
            r@ == self@[n as int],
    {
        let total: usize = self.states.len();
        assert(self.count * self.state_count == total);
        let (start, end) = step_range(n, self.state_count, self.count);
        slice_subrange(self.states.as_slice(), start, end)
    }

    /// Stores the next state.
    pub fn store(&mut self, state: &Vec<Real>)
        requires
            old(self).wf(),
            state@.len() == old(self).width(),
            old(self)@.len() < usize::MAX,
        ensures
            final(self).wf(),
            final(self).width() == old(self).width(),
            final(self)@ == old(self)@.push(state@),
    {
        let ghost before = self.states@;
        let ghost width = self.state_count as int;
        let ghost count = self.count as int;
        let mut i: usize = 0;
        while i < state.len()
            invariant
                i <= state@.len(),
                self.state_count == width,
                self.count == count,
                self.states@ == before + state@.take(i as int),
            decreases state.len() - i,
        {
            self.states.push(state[i]);
            i = i + 1;
            assert(self.states@ =~= before + state@.take(i as int));
        }
        self.count = self.count + 1;
        proof {
            assert(state@.take(i as int) =~= state@);
            assert((count + 1) * width == count * width + width) by (nonlinear_arith);
            assert forall|n: int| 0 <= n < count implies self@[n] == old(self)@[n] by {
                assert(0 <= n * width && (n + 1) * width <= count * width) by (nonlinear_arith)
                    requires
                        0 <= n < count,
                        0 <= width,
                ;
                assert(n * width <= (n + 1) * width) by (nonlinear_arith)
                    requires
                        0 <= width,
                ;
                assert(self@[n] =~= old(self)@[n]);
            }
            assert(self@[count] =~= state@);
            assert(self@ =~= old(self)@.push(state@));
        }
    }
}

/// What a run asks for next.
#[derive(Clone, Copy, Debug, PartialEq, Eq, Structural)]
pub enum AdjointAction {
    /// The state after step `n`, from the one before it.
    Forward { n: usize },
    /// What the kernel gives for step `n`: the derivatives by the states and then by
    /// the parameters, applied backwards to the adjoint.
    Backward { n: usize },
    /// The adjoint and the gradient before step `n`, from those after it, the cotangent
    /// of state `n` and what the kernel gave.
    Gather { n: usize },
    Finished,
}

/// The mathematical content of an [`AdjointRun`].
pub struct AdjointView {
    pub steps: usize,
    pub states: Seq<Seq<Real>>,
    /// The derivatives of the loss by the states.
    pub cotangents: Seq<Seq<Real>>,
    /// What the kernel gave for the step that is being gone back.
    pub kernel: Option<Seq<Real>>,
    /// Number of steps that are not yet gone back.
    pub left: usize,
    pub adjoint: Seq<Real>,
    pub gradient: Seq<Real>,
}

impl AdjointView {
    /// What comes next: forward until a state is stored for each step, then
    /// backward until no step is left.
    pub open spec fn next(self) -> AdjointAction {
        if self.states.len() <= self.steps {
            AdjointAction::Forward { n: (self.states.len() - 1) as usize }
        } else if self.left > 0 {
            match self.kernel {
                None => AdjointAction::Backward { n: (self.left - 1) as usize },
                Some(_) => AdjointAction::Gather { n: (self.left - 1) as usize },
            }
        } else {
            AdjointAction::Finished
        }
    }

    /// After a forward step.
    pub open spec fn stepped(self, state: Seq<Real>) -> AdjointView {
        AdjointView { states: self.states.push(state), ..self }
    }

    /// After the kernel has given its result for a backward step.
    pub open spec fn known(self, kernel: Seq<Real>) -> AdjointView {
        AdjointView { kernel: Some(kernel), ..self }
    }

    /// After a backward step.
    pub open spec fn backed(self, adjoint: Seq<Real>, gradient: Seq<Real>) -> AdjointView {
        AdjointView {
            left: (self.left - 1) as usize,
            kernel: None,
            adjoint,
            gradient,
            ..self
        }
    }
}

/// A run forward and backward through a trajectory.
pub struct AdjointRun {
    state_count: usize,
    steps: usize,
    trajectory: Trajectory,
    cotangents: Vec<Vec<Real>>,
    kernel: Option<Vec<Real>>,
    left: usize,
    adjoint: Vec<Real>,
    gradient: Vec<Real>,
}

impl View for AdjointRun {
    type V = AdjointView;

    closed spec fn view(&self) -> AdjointView {
        AdjointView {
            steps: self.steps,
            states: self.trajectory@,
            cotangents: vectors(self.cotangents@),
            kernel: match self.kernel {
                Some(kernel) => Some(kernel@),
                None => None,
            },
            left: self.left,
            adjoint: self.adjoint@,
            gradient: self.gradient@,
        }
    }
}

fn lengths(list: &Vec<Vec<Real>>) -> (r: Vec<usize>)
    ensures
        r@ == vector_lengths(list@),
{
    let mut r: Vec<usize> = Vec::new();
    let mut i: usize = 0;
    while i < list.len()
        invariant
            i <= list@.len(),
            r@ == vector_lengths(list@.take(i as int)),
        decreases list.len() - i,
    {
        r.push(list[i].len());
        i = i + 1;
        assert(r@ =~= vector_lengths(list@.take(i as int)));
    }
    assert(list@.take(i as int) =~= list@);
    r
}

/// The lengths of some vectors.
pub open spec fn vector_lengths(list: Seq<Vec<Real>>) -> Seq<usize> {
    Seq::new(list.len(), |i: int| list[i]@.len() as usize)
}

/// The content of some vectors.
pub open spec fn vectors(list: Seq<Vec<Real>>) -> Seq<Seq<Real>> {
    list.map_values(|v: Vec<Real>| v@)
}

fn copy_vectors(list: &Vec<Vec<Real>>) -> (r: Vec<Vec<Real>>)
    ensures
        vectors(r@) == vectors(list@),
{
    let ghost all = vectors(list@);
    let mut r: Vec<Vec<Real>> = Vec::new();
    let mut i: usize = 0;
    assert(vectors(r@) =~= all.take(0));
    while i < list.len()
        invariant
            all == vectors(list@),
            i <= list@.len(),
            vectors(r@) == all.take(i as int),
        decreases list.len() - i,
    {
        let ghost before = vectors(r@);
        let copy = copy_reals(&list[i]);
        r.push(copy);
        assert(vectors(r@) =~= before.push(copy@));
        i = i + 1;
        assert(vectors(r@) =~= all.take(i as int));
    }
    assert(all.take(i as int) =~= all);
    r
}

fn copy_reals(list: &Vec<Real>) -> (r: Vec<Real>)
    ensures
        r@ == list@,
{
    let mut r: Vec<Real> = Vec::new();
    let mut i: usize = 0;
    while i < list.len()
        invariant
            i <= list@.len(),
            r@ == list@.take(i as int),
        decreases list.len() - i,
    {
        r.push(list[i]);
        i = i + 1;
        assert(r@ =~= list@.take(i as int));
    }
    assert(list@.take(i as int) =~= list@);
    r
}

/// A run before its first step: the initial state is stored, the adjoint is the
/// cotangent of the last state and the gradient is zero.
pub open spec fn adjoint_begun(
    steps: usize,
    p_scalars: usize,
    x0: Seq<Real>,
    cotangents: Seq<Seq<Real>>,
) -> AdjointView {
    AdjointView {
        steps,
        states: seq![x0],
        cotangents,
        kernel: None,
        left: steps,
        adjoint: cotangents[steps as int],
        gradient: Seq::new(p_scalars as nat, |i: int| Real::zero_spec()),
    }
}

/// The error with which a run is refused: of the shapes, or of a model that solves
/// for more than its states.
pub open spec fn run_error(
    state_count: usize,
    solver_count: usize,
    x0_len: usize,
    cotangent_lens: Seq<usize>,
    stored: usize,
) -> Option<Seq<char>> {
    match adjoint_error(state_count, x0_len, cotangent_lens, stored) {
        Some(e) => Some(e),
        None => if solver_count != state_count {
            Some(
                "trajectory adjoint: solver_count = "@ + nat_text(solver_count as nat)
                    + ", expected state_count = "@ + nat_text(state_count as nat),
            )
        } else {
            None
        },
    }
}

/// Checks the shapes of a run, and that the model solves for its states alone.
fn validate_run(
    state_count: usize,
    solver_count: usize,
    x0_len: usize,
    cotangent_lens: &Vec<usize>,
    stored: usize,
) -> (r: Result<(), ShapeError>)
    ensures
        checked(r, run_error(state_count, solver_count, x0_len, cotangent_lens@, stored)),
{
    match validate_adjoint_inputs(state_count, x0_len, cotangent_lens, stored) {
        Ok(_) => {},
        Err(e) => {
            return Err(e);
        },
    }
    if solver_count != state_count {
        let mut message = owned("trajectory adjoint: solver_count = ");
        push_usize(&mut message, solver_count);
        message.append(", expected state_count = ");
        push_usize(&mut message, state_count);
        return Err(ShapeError { message });
    }
    Ok(())
}

impl AdjointRun {
    /// Number of states in the model.
    pub closed spec fn width(self) -> usize {
        self.state_count
    }

    pub closed spec fn wf(self) -> bool {
        &&& self.trajectory.wf()
        &&& self.trajectory.width() == self.state_count
        &&& 1 <= self.trajectory@.len() <= self.steps + 1
        &&& self.steps < usize::MAX
        &&& self.left <= self.steps
        &&& self.adjoint@.len() == self.state_count
        &&& self.trajectory@.len() <= self.steps ==> self.left == self.steps && self.kernel is None
        &&& self.cotangents@.len() == self.steps + 1
        &&& self.kernel matches Some(kernel) ==> self.left > 0 && kernel@.len() == self.state_count
            + self.gradient@.len()
    }

    /// Checks the shapes and stores the initial state. A model that solves for more
    /// than its states is refused, whatever the number of steps.
    pub fn start(
        state_count: usize,
        solver_count: usize,
        steps: usize,
        p_scalars: usize,
        x0: &Vec<Real>,
        cotangents: &Vec<Vec<Real>>,
    ) -> (r: Result<AdjointRun, ShapeError>)
        requires
            steps < usize::MAX,
        ensures
            match r {
                Ok(run) => run.wf() && run.width() == state_count && run_error(
                    state_count,
                    solver_count,
                    x0@.len() as usize,
                    vector_lengths(cotangents@),
                    (steps + 1) as usize,
                ) is None && run@ == adjoint_begun(
                    steps,
                    p_scalars,
                    x0@,
                    vectors(cotangents@),
                ),
                Err(e) => run_error(
                    state_count,
                    solver_count,
                    x0@.len() as usize,
                    vector_lengths(cotangents@),
                    (steps + 1) as usize,
                ) == Some(e@),
            },
            solver_count != state_count ==> r is Err,
    {
        let lens = lengths(cotangents);
        match validate_run(state_count, solver_count, x0.len(), &lens, steps + 1) {
            Ok(_) => {},
            Err(e) => {
                return Err(e);
            },
        }
        proof {
            lemma_cotangents_fit(
                state_count,
                x0@.len() as usize,
                lens@,
                (steps + 1) as usize,
                steps as int,
            );
        }
        let last = copy_reals(&cotangents[steps]);
        assert(last.len() == lens@[steps as int]);
        let mut trajectory = Trajectory::new(state_count);
        trajectory.store(x0);
        let mut gradient: Vec<Real> = Vec::new();
        gradient.resize(p_scalars, Real::zero());
        let run = AdjointRun {
            state_count,
            steps,
            trajectory,
            cotangents: copy_vectors(cotangents),
            kernel: None,
            left: steps,
            adjoint: last,
            gradient,
        };
        assert(vectors(run.cotangents@).len() == run.cotangents@.len());
        assert(run@.states =~= seq![x0@]);
        assert(run@.gradient =~= Seq::new(p_scalars as nat, |i: int| Real::zero_spec()));
        Ok(run)
    }

    /// What comes next.
    pub fn action(&self) -> (a: AdjointAction)
        requires
            self.wf(),
        ensures
            a == self@.next(),
            a matches AdjointAction::Forward { n } ==> n < self@.states.len(),
            a matches AdjointAction::Backward { n } ==> n < self@.states.len(),
            a matches AdjointAction::Gather { n } ==> n < self@.cotangents.len(),
    {
        let stored: usize = self.trajectory.len();
        if stored <= self.steps {
            AdjointAction::Forward { n: stored - 1 }
        } else if self.left > 0 {
            match &self.kernel {
                None => AdjointAction::Backward { n: self.left - 1 },
                Some(_) => AdjointAction::Gather { n: self.left - 1 },
            }
        } else {
            AdjointAction::Finished
        }
    }

    /// A stored state.
    pub fn state(&self, n: usize) -> (r: &[Real])
        requires
            self.wf(),
            n < self@.states.len(),
        ensures
            r@ == self@.states[n as int],
    {
        self.trajectory.state(n)
    }

    /// The derivative of the loss by a state.
    pub fn cotangent(&self, n: usize) -> (r: &Vec<Real>)
        requires
            self.wf(),
            n < self@.cotangents.len(),
        ensures
            r@ == self@.cotangents[n as int],
    {
        &self.cotangents[n]
    }

    /// What the kernel gave by the states.
    pub fn kernel_by_states(&self) -> (r: &[Real])
        requires
            self.wf(),
            self@.next() is Gather,
        ensures
            r@ == by_states(self@.kernel->0, self.width() as int),
    {
        let kernel = self.kernel.as_ref().unwrap();
        slice_subrange(kernel.as_slice(), 0, self.state_count)
    }

    /// What the kernel gave by the parameters.
    pub fn kernel_by_parameters(&self) -> (r: &[Real])
        requires
            self.wf(),
            self@.next() is Gather,
        ensures
            r@ == by_parameters(self@.kernel->0, self.width() as int),
            r@.len() == self@.gradient.len(),
    {
        let kernel = self.kernel.as_ref().unwrap();
        slice_subrange(kernel.as_slice(), self.state_count, kernel.len())
    }

    /// The adjoint where the run stands.
    pub fn adjoint(&self) -> (r: &Vec<Real>)
        ensures
            r@ == self@.adjoint,
    {
        &self.adjoint
    }

    /// The gradient gathered so far.
    pub fn gradient(&self) -> (r: &Vec<Real>)
        ensures
            r@ == self@.gradient,
    {
        &self.gradient
    }

    /// Supplies the state after a forward step.
    pub fn supply_state(&mut self, state: &Vec<Real>)
        requires
            old(self).wf(),
            old(self)@.next() is Forward,
            state@.len() == old(self).width(),
        ensures
            final(self).wf(),
            final(self).width() == old(self).width(),
            final(self)@ == old(self)@.stepped(state@),
    {
        self.trajectory.store(state);
    }

    /// Supplies what the kernel gave for a backward step, whole: one value for each state
    /// and then one for each scalar parameter.
    pub fn supply_kernel(&mut self, kernel: Vec<Real>)
        requires
            old(self).wf(),
            old(self)@.next() is Backward,
            kernel@.len() == old(self).width() + old(self)@.gradient.len(),
        ensures
            final(self).wf(),
            final(self).width() == old(self).width(),
            final(self)@ == old(self)@.known(kernel@),
    {
        self.kernel = Some(kernel);
    }

    /// Supplies the adjoint and the gradient before a backward step. The gradient has
    /// one value for each scalar parameter, as the run began with.
    pub fn supply_adjoint(&mut self, adjoint: Vec<Real>, gradient: Vec<Real>)
        requires
            old(self).wf(),
            old(self)@.next() is Gather,
            adjoint@.len() == old(self).width(),
            gradient@.len() == old(self)@.gradient.len(),
        ensures
            final(self).wf(),
            final(self).width() == old(self).width(),
            final(self)@ == old(self)@.backed(adjoint@, gradient@),
    {
        self.left = self.left - 1;
        self.kernel = None;
        self.adjoint = adjoint;
        self.gradient = gradient;
    }
}

proof fn lemma_cotangents_fit(
    state_count: usize,
    x0_len: usize,
    lens: Seq<usize>,
    stored: usize,
    n: int,
)
    requires
        adjoint_error(state_count, x0_len, lens, stored) is None,
        0 <= n < stored,
    ensures
        x0_len == state_count,
        lens.len() == stored,
        lens[n] == state_count,
{
    crate::solve::training::lemma_vectors_fit(
        "trajectory adjoint: "@ + "state_cotangents"@,
        lens,
        state_count,
        n,
    );
}

/// The part of what a kernel gives that stands for the states.
pub open spec fn by_states(kernel: Seq<Real>, width: int) -> Seq<Real> {
    kernel.subrange(0, width)
}

/// The part of what a kernel gives that stands for the parameters.
pub open spec fn by_parameters(kernel: Seq<Real>, width: int) -> Seq<Real> {
    kernel.subrange(width, kernel.len() as int)
}

/// The state after `n` steps, for any rule that gives the state after a step.
pub open spec fn state_after(
    x0: Seq<Real>,
    forward: spec_fn(int, Seq<Real>) -> Seq<Real>,
    n: int,
) -> Seq<Real>
    decreases n,
{
    if n <= 0 {
        x0
    } else {
        forward(n - 1, state_after(x0, forward, n - 1))
    }
}

/// The rules by which the steps of a run are supplied.
#[verifier::ext_equal]
pub struct StepRules {
    /// The state after a step, from its number and the state before it.
    pub forward: spec_fn(int, Seq<Real>) -> Seq<Real>,
    /// What the kernel gives for a step, from its number, the state before it and the
    /// adjoint after it.
    pub kernel: spec_fn(int, Seq<Real>, Seq<Real>) -> Seq<Real>,
    /// The adjoint before a step, from the cotangent of its state, the adjoint after it
    /// and what the kernel gave by the states.
    pub adjoint: spec_fn(Seq<Real>, Seq<Real>, Seq<Real>) -> Seq<Real>,
    /// The gradient before a step, from the one after it and what the kernel gave by
    /// the parameters.
    pub gradient: spec_fn(Seq<Real>, Seq<Real>) -> Seq<Real>,
}

/// Adjoint and gradient before step `n`, from those after it and the state before it.
pub open spec fn gone_back(
    rules: StepRules,
    width: int,
    n: int,
    state: Seq<Real>,
    cotangent: Seq<Real>,
    after: (Seq<Real>, Seq<Real>),
) -> (Seq<Real>, Seq<Real>) {
    let kernel = (rules.kernel)(n, state, after.0);
    (
        (rules.adjoint)(cotangent, after.0, by_states(kernel, width)),
        (rules.gradient)(after.1, by_parameters(kernel, width)),
    )
}

/// Adjoint and gradient before the last `k` steps of a run.
pub open spec fn adjoint_before(
    begun: AdjointView,
    rules: StepRules,
    width: int,
    k: int,
) -> (Seq<Real>, Seq<Real>)
    decreases k,
{
    if k <= 0 {
        (begun.adjoint, begun.gradient)
    } else {
        let n = begun.steps - k;
        gone_back(
            rules,
            width,
            n,
            state_after(begun.states[0], rules.forward, n),
            begun.cotangents[n],
            adjoint_before(begun, rules, width, k - 1),
        )
    }
}

/// A run to its end, for any rules that supply its steps.
pub open spec fn run_through(v: AdjointView, rules: StepRules, width: int) -> AdjointView
    decreases
        v.steps + 1 - v.states.len(),
        v.left,
        if v.kernel is None {
            1int
        } else {
            0
        },
{
    match v.next() {
        AdjointAction::Forward { n } => run_through(
            v.stepped((rules.forward)(v.states.len() - 1, v.states.last())),
            rules,
            width,
        ),
        AdjointAction::Backward { n } => run_through(
            v.known((rules.kernel)(v.left - 1, v.states[v.left - 1], v.adjoint)),
            rules,
            width,
        ),
        AdjointAction::Gather { n } => run_through(
            v.backed(
                (rules.adjoint)(
                    v.cotangents[v.left - 1],
                    v.adjoint,
                    by_states(v.kernel->0, width),
                ),
                (rules.gradient)(v.gradient, by_parameters(v.kernel->0, width)),
            ),
            rules,
            width,
        ),
        AdjointAction::Finished => v,
    }
}

/// What a kernel gives is what stands for the states and then what stands for the
/// parameters.
pub proof fn law_kernel_results_come_apart(kernel: Seq<Real>, width: int)
    requires
        0 <= width <= kernel.len(),
    ensures
        by_states(kernel, width).len() == width,
        by_states(kernel, width) + by_parameters(kernel, width) == kernel,
{
    assert(by_states(kernel, width) + by_parameters(kernel, width) =~= kernel);
}

/// Whatever the rules of the steps are, a run begins with the initial state, with the
/// cotangent of the last state as its adjoint and with no gradient, and ends with the
/// states that follow from the initial one, and with the adjoint and the gradient that
/// follow from going back through exactly these states, from the last step to the
/// first, each with its own cotangent.
pub proof fn law_run_goes_back_through_its_states(
    steps: usize,
    p_scalars: usize,
    x0: Seq<Real>,
    cotangents: Seq<Seq<Real>>,
    rules: StepRules,
    width: int,
)
    requires
        steps < usize::MAX,
    ensures
        ({
            let begun = adjoint_begun(steps, p_scalars, x0, cotangents);
            let end = run_through(begun, rules, width);
            &&& begun.states =~= seq![x0]
            &&& begun.adjoint == cotangents[steps as int]
            &&& begun.gradient.len() == p_scalars
            &&& forall|i: int|
                0 <= i < p_scalars ==> #[trigger] begun.gradient[i] == Real::zero_spec()
            &&& begun.cotangents == cotangents
            &&& end.states =~= Seq::new(
                (steps + 1) as nat,
                |n: int| state_after(x0, rules.forward, n),
            )
            &&& end.left == 0
            &&& (end.adjoint, end.gradient) == adjoint_before(begun, rules, width, steps as int)
        }),
{
    let begun = adjoint_begun(steps, p_scalars, x0, cotangents);
    assert(begun.states =~= Seq::new(1, |n: int| state_after(x0, rules.forward, n)));
    lemma_run(begun, begun, rules, width);
}

proof fn lemma_run(begun: AdjointView, v: AdjointView, rules: StepRules, width: int)
    requires
        v.steps < usize::MAX,
        v.steps == begun.steps,
        v.cotangents == begun.cotangents,
        v.kernel is None,
        1 <= v.states.len() <= v.steps + 1,
        v.left <= v.steps,
        v.states.len() <= v.steps ==> v.left == v.steps,
        v.states == Seq::new(
            v.states.len(),
            |n: int| state_after(begun.states[0], rules.forward, n),
        ),
        (v.adjoint, v.gradient) == adjoint_before(begun, rules, width, v.steps - v.left),
    ensures
        ({
            let end = run_through(v, rules, width);
            &&& end.states == Seq::new(
                (v.steps + 1) as nat,
                |n: int| state_after(begun.states[0], rules.forward, n),
            )
            &&& end.left == 0
            &&& (end.adjoint, end.gradient) == adjoint_before(begun, rules, width, v.steps as int)
        }),
    decreases v.steps + 1 - v.states.len(), v.left,
{
    let x0 = begun.states[0];
    match v.next() {
        AdjointAction::Forward { n } => {
            let after = v.stepped((rules.forward)(v.states.len() - 1, v.states.last()));
            let count = v.states.len() as int;
            assert(state_after(x0, rules.forward, count) == (rules.forward)(
                count - 1,
                v.states.last(),
            ));
            assert(after.states =~= Seq::new(
                after.states.len(),
                |n: int| state_after(x0, rules.forward, n),
            ));
            lemma_run(begun, after, rules, width);
        },
        AdjointAction::Backward { n } => {
            let known = v.known((rules.kernel)(v.left - 1, v.states[v.left - 1], v.adjoint));
            assert(known.next() is Gather);
            let before = known.backed(
                (rules.adjoint)(
                    v.cotangents[v.left - 1],
                    v.adjoint,
                    by_states(known.kernel->0, width),
                ),
                (rules.gradient)(v.gradient, by_parameters(known.kernel->0, width)),
            );
            assert(run_through(v, rules, width) == run_through(known, rules, width));
            assert(run_through(known, rules, width) == run_through(before, rules, width));
            let k = v.steps - v.left + 1;
            assert(adjoint_before(begun, rules, width, k) == (before.adjoint, before.gradient));
            lemma_run(begun, before, rules, width);
        },
        AdjointAction::Gather { n } => {},
        AdjointAction::Finished => {},
    }
}

} // verus!
