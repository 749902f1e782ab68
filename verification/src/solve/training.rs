//! Shapes of training data and of trajectories, and the moving of trained
//! values in and out of the parameters.
use crate::solve::error::Real;
use crate::text::{nat_text, owned, push_usize};
use vstd::prelude::*;

verus! {

/// A shape that does not fit, by its message.
#[derive(Debug)]
pub struct ShapeError {
    pub message: String,
}

impl View for ShapeError {
    type V = Seq<char>;

    open spec fn view(&self) -> Seq<char> {
        self.message@
    }
}

/// Whether a check gives what is expected.
pub open spec fn checked(r: Result<(), ShapeError>, expected: Option<Seq<char>>) -> bool {
    match r {
        Ok(_) => expected is None,
        Err(e) => expected == Some(e@),
    }
}

/// The error for a number of entries that is not the number of states.
pub open spec fn entries_error(what: Seq<char>, entries: usize, state_count: usize) -> Seq<char> {
    what + " has "@ + nat_text(entries as nat) + " entries, expected state_count = "@ + nat_text(
        state_count as nat,
    )
}

fn make_entries_error(what: &str, entries: usize, state_count: usize) -> (e: ShapeError)
    ensures
        e@ == entries_error(what@, entries, state_count),
{
    let mut message = owned(what);
    message.append(" has ");
    push_usize(&mut message, entries);
    message.append(" entries, expected state_count = ");
    push_usize(&mut message, state_count);
    ShapeError { message }
}

/// The error of the first of `n` vectors that has not one entry for each state.
pub open spec fn vectors_error(name: Seq<char>, lens: Seq<usize>, state_count: usize, n: int) -> Option<
    Seq<char>,
>
    decreases n,
{
    if n <= 0 {
        None
    } else if vectors_error(name, lens, state_count, n - 1) is Some {
        vectors_error(name, lens, state_count, n - 1)
    } else if lens[n - 1] != state_count {
        Some(
            entries_error(
                name + "["@ + nat_text((n - 1) as nat) + "]"@,
                lens[n - 1],
                state_count,
            ),
        )
    } else {
        None
    }
}

proof fn lemma_first_vector_decides(
    name: Seq<char>,
    lens: Seq<usize>,
    state_count: usize,
    k: int,
    n: int,
)
    requires
        0 <= k <= n,
        vectors_error(name, lens, state_count, k) is Some,
    ensures
        vectors_error(name, lens, state_count, n) == vectors_error(name, lens, state_count, k),
    decreases n,
{
    if k < n {
        lemma_first_vector_decides(name, lens, state_count, k, n - 1);
    }
}

/// Vectors without an error have one entry for each state.
pub proof fn lemma_vectors_fit(name: Seq<char>, lens: Seq<usize>, state_count: usize, n: int)
    requires
        vectors_error(name, lens, state_count, lens.len() as int) is None,
        0 <= n < lens.len(),
    ensures
        lens[n] == state_count,
{
    if lens[n] != state_count {
        lemma_first_vector_decides(name, lens, state_count, n + 1, lens.len() as int);
    }
}

fn check_vectors(name: &str, lens: &Vec<usize>, state_count: usize) -> (r: Result<(), ShapeError>)
    ensures
        checked(r, vectors_error(name@, lens@, state_count, lens@.len() as int)),
{
    let mut i: usize = 0;
    while i < lens.len()
        invariant
            i <= lens@.len(),
            vectors_error(name@, lens@, state_count, i as int) is None,
        decreases lens.len() - i,
    {
        if lens[i] != state_count {
            let mut what = owned(name);
            what.append("[");
            push_usize(&mut what, i);
            what.append("]");
            proof {
                lemma_first_vector_decides(name@, lens@, state_count, i + 1, lens@.len() as int);
            }
            return Err(make_entries_error(what.as_str(), lens[i], state_count));
        }
        i = i + 1;
    }
    Ok(())
}

/// The error of a trajectory's initial state and of its vectors at each step.
pub open spec fn trajectory_error(
    prefix: Seq<char>,
    vectors: Seq<char>,
    vector_name: Seq<char>,
    state_count: usize,
    x0_len: usize,
    lens: Seq<usize>,
    stored: usize,
) -> Option<Seq<char>> {
    if x0_len != state_count {
        Some(entries_error(prefix + "x0"@, x0_len, state_count))
    } else if lens.len() != stored {
        Some(
            prefix + nat_text(lens.len()) + vectors + "expected steps + 1 = "@ + nat_text(
                stored as nat,
            ),
        )
    } else {
        vectors_error(prefix + vector_name, lens, state_count, lens.len() as int)
    }
}

fn check_trajectory(
    prefix: &str,
    vectors: &str,
    vector_name: &str,
    state_count: usize,
    x0_len: usize,
    lens: &Vec<usize>,
    stored: usize,
) -> (r: Result<(), ShapeError>)
    ensures
        checked(
            r,
            trajectory_error(
                prefix@,
                vectors@,
                vector_name@,
                state_count,
                x0_len,
                lens@,
                stored,
            ),
        ),
{
    if x0_len != state_count {
        let mut what = owned(prefix);
        what.append("x0");
        return Err(make_entries_error(what.as_str(), x0_len, state_count));
    }
    if lens.len() != stored {
        let mut message = owned(prefix);
        push_usize(&mut message, lens.len());
        message.append(vectors);
        message.append("expected steps + 1 = ");
        push_usize(&mut message, stored);
        return Err(ShapeError { message });
    }
    let mut name = owned(prefix);
    name.append(vector_name);
    check_vectors(name.as_str(), lens, state_count)
}

/// What is wrong with the inputs of a trajectory adjoint.
pub open spec fn adjoint_error(
    state_count: usize,
    x0_len: usize,
    cotangent_lens: Seq<usize>,
    stored: usize,
) -> Option<Seq<char>> {
    trajectory_error(
        "trajectory adjoint: "@,
        " state cotangents, "@,
        "state_cotangents"@,
        state_count,
        x0_len,
        cotangent_lens,
        stored,
    )
}

/// Checks the inputs of a trajectory adjoint: an initial value for each state,
/// and a cotangent of each state at each of the steps and at the start.
pub fn validate_adjoint_inputs(
    state_count: usize,
    x0_len: usize,
    cotangent_lens: &Vec<usize>,
    stored: usize,
) -> (r: Result<(), ShapeError>)
    ensures
        checked(r, adjoint_error(state_count, x0_len, cotangent_lens@, stored)),
{
    check_trajectory(
        "trajectory adjoint: ",
        " state cotangents, ",
        "state_cotangents",
        state_count,
        x0_len,
        cotangent_lens,
        stored,
    )
}

/// The error of the first of `n` slots that is no parameter.
pub open spec fn slots_error(slots: Seq<usize>, p_scalars: usize, params_len: usize, n: int) -> Option<
    Seq<char>,
>
    decreases n,
{
    if n <= 0 {
        None
    } else if slots_error(slots, p_scalars, params_len, n - 1) is Some {
        slots_error(slots, p_scalars, params_len, n - 1)
    } else if slots[n - 1] >= p_scalars {
        Some(
            "train: trainable slot "@ + nat_text(slots[n - 1] as nat)
                + " out of range for p_scalars = "@ + nat_text(p_scalars as nat),
        )
    } else if slots[n - 1] >= params_len {
        Some(
            "train: trainable slot "@ + nat_text(slots[n - 1] as nat)
                + " out of range for params length "@ + nat_text(params_len as nat),
        )
    } else {
        None
    }
}

proof fn lemma_first_slot_decides(
    slots: Seq<usize>,
    p_scalars: usize,
    params_len: usize,
    k: int,
    n: int,
)
    requires
        0 <= k <= n,
        slots_error(slots, p_scalars, params_len, k) is Some,
    ensures
        slots_error(slots, p_scalars, params_len, n) == slots_error(
            slots,
            p_scalars,
            params_len,
            k,
        ),
    decreases n,
{
    if k < n {
        lemma_first_slot_decides(slots, p_scalars, params_len, k, n - 1);
    }
}

fn check_slots(slots: &Vec<usize>, p_scalars: usize, params_len: usize) -> (r: Result<
    (),
    ShapeError,
>)
    ensures
        checked(r, slots_error(slots@, p_scalars, params_len, slots@.len() as int)),
{
    let mut i: usize = 0;
    while i < slots.len()
        invariant
            i <= slots@.len(),
            slots_error(slots@, p_scalars, params_len, i as int) is None,
        decreases slots.len() - i,
    {
        let slot: usize = slots[i];
        if slot >= p_scalars || slot >= params_len {
            let mut message = owned("train: trainable slot ");
            push_usize(&mut message, slot);
            if slot >= p_scalars {
                message.append(" out of range for p_scalars = ");
                push_usize(&mut message, p_scalars);
            } else {
                message.append(" out of range for params length ");
                push_usize(&mut message, params_len);
            }
            proof {
                lemma_first_slot_decides(
                    slots@,
                    p_scalars,
                    params_len,
                    i + 1,
                    slots@.len() as int,
                );
            }
            return Err(ShapeError { message });
        }
        i = i + 1;
    }
    Ok(())
}

/// What is wrong with the inputs of a training.
pub open spec fn train_error(
    state_count: usize,
    x0_len: usize,
    params_len: usize,
    slots: Seq<usize>,
    target_lens: Seq<usize>,
    stored: usize,
    p_scalars: usize,
) -> Option<Seq<char>> {
    match trajectory_error(
        "train: "@,
        " targets, "@,
        "targets"@,
        state_count,
        x0_len,
        target_lens,
        stored,
    ) {
        Some(e) => Some(e),
        None => slots_error(slots, p_scalars, params_len, slots.len() as int),
    }
}

/// Checks the inputs of a training: an initial value for each state, a target
/// for each state at each of the steps and at the start, and slots that are
/// parameters.
pub fn validate_train_inputs(
    state_count: usize,
    x0_len: usize,
    params_len: usize,
    slots: &Vec<usize>,
    target_lens: &Vec<usize>,
    stored: usize,
    p_scalars: usize,
) -> (r: Result<(), ShapeError>)
    ensures
        checked(
            r,
            train_error(
                state_count,
                x0_len,
                params_len,
                slots@,
                target_lens@,
                stored,
                p_scalars,
            ),
        ),
{
    match check_trajectory(
        "train: ",
        " targets, ",
        "targets",
        state_count,
        x0_len,
        target_lens,
        stored,
    ) {
        Ok(_) => check_slots(slots, p_scalars, params_len),
        Err(e) => Err(e),
    }
}

/// Inputs that pass have only slots that are parameters.
pub proof fn law_valid_slots_are_parameters(
    state_count: usize,
    x0_len: usize,
    params_len: usize,
    slots: Seq<usize>,
    target_lens: Seq<usize>,
    stored: usize,
    p_scalars: usize,
    k: int,
)
    requires
        train_error(state_count, x0_len, params_len, slots, target_lens, stored, p_scalars) is None,
        0 <= k < slots.len(),
    ensures
        slots[k] < p_scalars,
        slots[k] < params_len,
{
    if slots[k] >= p_scalars || slots[k] >= params_len {
        lemma_first_slot_decides(slots, p_scalars, params_len, k + 1, slots.len() as int);
    }
}

/// The values in some slots.
pub fn gather_slots(values: &[Real], slots: &Vec<usize>) -> (r: Vec<Real>)
    requires
        forall|k: int| 0 <= k < slots@.len() ==> (#[trigger] slots@[k]) < values@.len(),
    ensures
        r@ == Seq::new(slots@.len(), |k: int| values@[slots@[k] as int]),
{
    let mut r: Vec<Real> = Vec::new();
    let mut k: usize = 0;
    while k < slots.len()
        invariant
            k <= slots@.len(),
            forall|k: int| 0 <= k < slots@.len() ==> (#[trigger] slots@[k]) < values@.len(),
            r@ == Seq::new(k as nat, |k: int| values@[slots@[k] as int]),
        decreases slots.len() - k,
    {
        r.push(values[slots[k]]);
        k = k + 1;
        assert(r@ =~= Seq::new(k as nat, |k: int| values@[slots@[k] as int]));
    }
    r
}

/// The values after writing the first `n` new ones into their slots.
pub open spec fn scattered(values: Seq<Real>, slots: Seq<usize>, new: Seq<Real>, n: int) -> Seq<Real>
    decreases n,
{
    if n <= 0 {
        values
    } else {
        scattered(values, slots, new, n - 1).update(slots[n - 1] as int, new[n - 1])
    }
}

/// Writing into slots keeps the number of values.
pub proof fn lemma_scattered_length(
    values: Seq<Real>,
    slots: Seq<usize>,
    new: Seq<Real>,
    n: int,
)
    requires
        0 <= n <= slots.len(),
        forall|k: int| 0 <= k < slots.len() ==> (#[trigger] slots[k]) < values.len(),
    ensures
        scattered(values, slots, new, n).len() == values.len(),
    decreases n,
{
    if n > 0 {
        lemma_scattered_length(values, slots, new, n - 1);
        assert(slots[n - 1] < values.len());
    }
}

/// Writing into slots keeps what is in no slot.
pub proof fn lemma_scattered_elsewhere(
    values: Seq<Real>,
    slots: Seq<usize>,
    new: Seq<Real>,
    n: int,
    p: int,
)
    requires
        0 <= n <= slots.len(),
        0 <= p < values.len(),
        forall|k: int| 0 <= k < slots.len() ==> (#[trigger] slots[k]) < values.len(),
        forall|k: int| 0 <= k < slots.len() ==> slots[k] != p,
    ensures
        scattered(values, slots, new, n)[p] == values[p],
    decreases n,
{
    if n > 0 {
        lemma_scattered_length(values, slots, new, n - 1);
        lemma_scattered_elsewhere(values, slots, new, n - 1, p);
        assert(slots[n - 1] != p && slots[n - 1] < values.len());
    }
}

/// Writes new values into their slots.
pub fn scatter_slots(values: &mut Vec<Real>, slots: &Vec<usize>, new: &Vec<Real>)
    requires
        new@.len() == slots@.len(),
        forall|k: int| 0 <= k < slots@.len() ==> (#[trigger] slots@[k]) < old(values)@.len(),
    ensures
        final(values)@ == scattered(old(values)@, slots@, new@, slots@.len() as int),
{
    let ghost before = values@;
    let mut k: usize = 0;
    while k < slots.len()
        invariant
            k <= slots@.len(),
            new@.len() == slots@.len(),
            before == old(values)@,
            values@.len() == before.len(),
            forall|k: int| 0 <= k < slots@.len() ==> (#[trigger] slots@[k]) < before.len(),
            values@ == scattered(before, slots@, new@, k as int),
        decreases slots.len() - k,
    {
        let slot: usize = slots[k];
        values.set(slot, new[k]);
        k = k + 1;
    }
}

/// Values written into different slots are read back from them, and all other
/// values stay as they were.
pub proof fn law_scattered_values_are_gathered(
    values: Seq<Real>,
    slots: Seq<usize>,
    new: Seq<Real>,
    k: int,
)
    requires
        new.len() == slots.len(),
        slots.no_duplicates(),
        forall|k: int| 0 <= k < slots.len() ==> (#[trigger] slots[k]) < values.len(),
    ensures
        0 <= k < slots.len() ==> scattered(values, slots, new, slots.len() as int)[slots[k] as int]
            == new[k],
        0 <= k < values.len() && (forall|j: int| 0 <= j < slots.len() ==> slots[j] != k)
            ==> scattered(values, slots, new, slots.len() as int)[k] == values[k],
{
    lemma_scattered(values, slots, new, slots.len() as int, k);
}

proof fn lemma_scattered(values: Seq<Real>, slots: Seq<usize>, new: Seq<Real>, n: int, k: int)
    requires
        new.len() == slots.len(),
        0 <= n <= slots.len(),
        slots.no_duplicates(),
        forall|k: int| 0 <= k < slots.len() ==> (#[trigger] slots[k]) < values.len(),
    ensures
        scattered(values, slots, new, n).len() == values.len(),
        0 <= k < n ==> scattered(values, slots, new, n)[slots[k] as int] == new[k],
        0 <= k < values.len() && (forall|j: int| 0 <= j < n ==> slots[j] != k) ==> scattered(
            values,
            slots,
            new,
            n,
        )[k] == values[k],
    decreases n,
{
    if n > 0 {
        lemma_scattered(values, slots, new, n - 1, k);
        assert(slots[n - 1] < values.len());
        if 0 <= k < n - 1 {
            assert(slots[k] != slots[n - 1]);
        }
    }
}

/// Where the state of a step stands among the stored states.
pub fn step_range(n: usize, state_count: usize, stored: usize) -> (r: (usize, usize))
    requires
        n < stored,
        stored * state_count <= usize::MAX,
    ensures
        r.0 == n * state_count,
        r.1 == (n + 1) * state_count,
        r.0 <= r.1 <= stored * state_count,
{
    assert((n + 1) * state_count <= stored * state_count) by (nonlinear_arith)
        requires
            n + 1 <= stored,
    ;
    assert((n + 1) * state_count == n * state_count + state_count) by (nonlinear_arith);
    let start: usize = n * state_count;
    (start, start + state_count)
}

/// Different steps have different places among the stored states.
pub proof fn law_steps_are_apart(a: int, b: int, state_count: int)
    requires
        0 <= a < b,
        0 <= state_count,
    ensures
        (a + 1) * state_count <= b * state_count,
{
    assert((a + 1) * state_count <= b * state_count) by (nonlinear_arith)
        requires
            a + 1 <= b,
            0 <= state_count,
    ;
}

} // verus!
