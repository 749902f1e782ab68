//! Resolving what a left limit is taken of to a declared variable.
use crate::dae::error::{ToDaeError, ToDaeErrorView};
use crate::dae::model::{DaeVariablePartition, DaeVariables, VariablesView};
use crate::dae::pre_targets::{
    is_pre_name, is_pre_parameter_name, lemma_views_with_named, PreTarget, PreTargetView, Targets,
};
use crate::dae::scalar_name::{base_name, component_base_name};
use crate::dae::variable::{Variable, VariableView};
use crate::ir::name::{path_segments, path_view, ComponentPath, NamePart, PartView};
use crate::ir::name_map::{named, value_of_name, NameMap, Named};
use crate::ir::path_map::{distinct_keys, has_key, Entry, PathKey, PathMap};
use crate::span::Span;
use crate::text::{join, join_text, owned, views};
use vstd::prelude::*;

verus! {

/// The role under which a name is declared, and the variable.
pub open spec fn declared(vars: VariablesView, name: Seq<char>) -> Option<
    (DaeVariablePartition, VariableView),
> {
    if named(vars.states, name) {
        Some((DaeVariablePartition::State, value_of_name(vars.states, name)->0))
    } else if named(vars.algebraics, name) {
        Some((DaeVariablePartition::Algebraic, value_of_name(vars.algebraics, name)->0))
    } else if named(vars.inputs, name) {
        Some((DaeVariablePartition::Input, value_of_name(vars.inputs, name)->0))
    } else if named(vars.outputs, name) {
        Some((DaeVariablePartition::Output, value_of_name(vars.outputs, name)->0))
    } else if named(vars.parameters, name) {
        Some((DaeVariablePartition::Parameter, value_of_name(vars.parameters, name)->0))
    } else if named(vars.constants, name) {
        Some((DaeVariablePartition::Constant, value_of_name(vars.constants, name)->0))
    } else if named(vars.discrete_reals, name) {
        Some((DaeVariablePartition::DiscreteReal, value_of_name(vars.discrete_reals, name)->0))
    } else if named(vars.discrete_valued, name) {
        Some((DaeVariablePartition::DiscreteValued, value_of_name(vars.discrete_valued, name)->0))
    } else {
        None
    }
}

/// The role under which a name is declared, and the variable.
pub fn find_variable_partition<'a>(vars: &'a DaeVariables, name: &str) -> (r: Option<
    (DaeVariablePartition, &'a Variable),
>)
    requires
        vars.wf(),
    ensures
        match r {
            Some((partition, variable)) => declared(vars@, name@) == Some((partition, variable@)),
            None => declared(vars@, name@) is None,
        },
{
    proof {
        vars.states.lemma_views(name@);
        vars.algebraics.lemma_views(name@);
        vars.inputs.lemma_views(name@);
        vars.outputs.lemma_views(name@);
        vars.parameters.lemma_views(name@);
        vars.constants.lemma_views(name@);
        vars.discrete_reals.lemma_views(name@);
        vars.discrete_valued.lemma_views(name@);
    }
    if let Some(v) = vars.states.get(name) {
        return Some((DaeVariablePartition::State, v));
    }
    if let Some(v) = vars.algebraics.get(name) {
        return Some((DaeVariablePartition::Algebraic, v));
    }
    if let Some(v) = vars.inputs.get(name) {
        return Some((DaeVariablePartition::Input, v));
    }
    if let Some(v) = vars.outputs.get(name) {
        return Some((DaeVariablePartition::Output, v));
    }
    if let Some(v) = vars.parameters.get(name) {
        return Some((DaeVariablePartition::Parameter, v));
    }
    if let Some(v) = vars.constants.get(name) {
        return Some((DaeVariablePartition::Constant, v));
    }
    if let Some(v) = vars.discrete_reals.get(name) {
        return Some((DaeVariablePartition::DiscreteReal, v));
    }
    if let Some(v) = vars.discrete_valued.get(name) {
        return Some((DaeVariablePartition::DiscreteValued, v));
    }
    None
}

/// Whether variables of this role change at events alone.
pub open spec fn is_discrete(partition: DaeVariablePartition) -> bool {
    partition is DiscreteReal || partition is DiscreteValued
}

fn is_pre_target_partition(partition: DaeVariablePartition) -> (r: bool)
    ensures
        r == is_discrete(partition),
{
    match partition {
        DaeVariablePartition::DiscreteReal => true,
        DaeVariablePartition::DiscreteValued => true,
        _ => false,
    }
}

/// Whether an explicit left limit may be taken of a variable: of a discrete
/// one, of a left limit, and of any but a state, or of a state too where that is
/// allowed.
pub open spec fn allowed_target(
    partition: DaeVariablePartition,
    name: Seq<char>,
    allow_continuous_target: bool,
) -> bool {
    is_discrete(partition) || is_pre_name(name) || allow_continuous_target || !(partition is State)
}

fn is_allowed_explicit_pre_target_partition(
    partition: DaeVariablePartition,
    name: &str,
    allow_continuous_target: bool,
) -> (r: bool)
    ensures
        r == allowed_target(partition, name@, allow_continuous_target),
{
    if is_pre_target_partition(partition) || is_pre_parameter_name(name) {
        return true;
    }
    match partition {
        DaeVariablePartition::State => allow_continuous_target,
        _ => true,
    }
}

/// A name before its last segment, and that segment.
pub open spec fn scope_split(name: Seq<char>) -> Option<(Seq<char>, Seq<char>)> {
    let segments = path_segments(name);
    if segments.len() < 2 {
        None
    } else {
        Some((join_text(segments.drop_last(), "."@), segments.last()))
    }
}

/// Where a variable stands that is a field of an array element: the name of
/// the array without subscripts, and the field.
pub open spec fn field_key(name: Seq<char>) -> Option<(Seq<char>, Seq<char>)> {
    let segments = path_segments(name);
    if segments.len() == 0 {
        None
    } else {
        match base_name(join_text(segments.drop_last(), "."@)) {
            Some(base) => Some((base, segments.last())),
            None => None,
        }
    }
}

fn drop_last_text(parts: &Vec<String>) -> (r: Vec<String>)
    requires
        parts@.len() > 0,
    ensures
        views(r@) == views(parts@).drop_last(),
{
    let mut r: Vec<String> = Vec::new();
    let mut i: usize = 0;
    assert(views(r@) =~= views(parts@).take(0));
    while i < parts.len() - 1
        invariant
            i <= parts@.len() - 1,
            views(r@) == views(parts@).take(i as int),
        decreases parts.len() - i,
    {
        let ghost before = views(r@);
        r.push(parts[i].clone());
        assert(views(r@) =~= before.push(views(parts@)[i as int]));
        i = i + 1;
        assert(views(r@) =~= views(parts@).take(i as int));
    }
    assert(views(parts@).take(i as int) =~= views(parts@).drop_last());
    r
}

fn split_scope(name: &str) -> (r: Option<(String, String)>)
    ensures
        match r {
            Some((prefix, field)) => scope_split(name@) == Some((prefix@, field@)),
            None => scope_split(name@) is None,
        },
{
    let path = ComponentPath::from_flat_path(name);
    let n: usize = path.parts.len();
    assert(views(path.parts@).len() == n);
    if n < 2 {
        return None;
    }
    let front = drop_last_text(&path.parts);
    assert(views(path.parts@).last() == path.parts@[n - 1]@);
    Some((join(&front, "."), path.parts[n - 1].clone()))
}

fn split_field(name: &str) -> (r: Option<(String, String)>)
    ensures
        match r {
            Some((prefix, field)) => field_key(name@) == Some((prefix@, field@)),
            None => field_key(name@) is None,
        },
{
    let path = ComponentPath::from_flat_path(name);
    let n: usize = path.parts.len();
    assert(views(path.parts@).len() == n);
    if n == 0 {
        return None;
    }
    let front = drop_last_text(&path.parts);
    assert(views(path.parts@).last() == path.parts@[n - 1]@);
    let prefix = join(&front, ".");
    match component_base_name(prefix.as_str()) {
        Some(base) => Some((base, path.parts[n - 1].clone())),
        None => None,
    }
}

/// A variable that may stand for a field: its name, and whether it is discrete.
pub type Candidate = (Seq<char>, bool);

/// The candidates among the first `n` variables for a field of an array.
pub open spec fn candidates(
    all: Seq<Candidate>,
    n: int,
    prefix: Seq<char>,
    field: Seq<char>,
) -> Seq<Candidate>
    decreases n,
{
    if n <= 0 {
        Seq::empty()
    } else {
        let front = candidates(all, n - 1, prefix, field);
        if field_key(all[n - 1].0) == Some((prefix, field)) {
            front.push(all[n - 1])
        } else {
            front
        }
    }
}

/// The variables of one role.
pub open spec fn names_of(entries: Seq<Named<VariableView>>, discrete: bool) -> Seq<Candidate> {
    entries.map_values(|e: Named<VariableView>| (e.0, discrete))
}

/// The variables of all roles.
pub open spec fn all_names(vars: VariablesView) -> Seq<Candidate> {
    names_of(vars.states, false) + names_of(vars.algebraics, false) + names_of(vars.inputs, false)
        + names_of(vars.outputs, false) + names_of(vars.parameters, false) + names_of(
        vars.constants,
        false,
    ) + names_of(vars.discrete_reals, true) + names_of(vars.discrete_valued, true)
}

/// Of the first `n` candidates, those that will do.
pub open spec fn eligible(list: Seq<Candidate>, n: int, require_discrete: bool) -> Seq<Seq<char>>
    decreases n,
{
    if n <= 0 {
        Seq::empty()
    } else {
        let front = eligible(list, n - 1, require_discrete);
        if !require_discrete || list[n - 1].1 {
            front.push(list[n - 1].0)
        } else {
            front
        }
    }
}

/// The one variable that a field of an array stands for, where exactly one
/// element has that field.
pub open spec fn scalarized_field(
    vars: VariablesView,
    name: Seq<char>,
    require_discrete: bool,
) -> Option<Seq<char>> {
    match scope_split(name) {
        Some((prefix, field)) => {
            let all = all_names(vars);
            let list = candidates(all, all.len() as int, prefix, field);
            let fit = eligible(list, list.len() as int, require_discrete);
            if fit.len() == 1 {
                Some(fit[0])
            } else {
                None
            }
        },
        None => None,
    }
}

/// The candidates of an index entry.
pub open spec fn candidate_views(list: Seq<(String, bool)>) -> Seq<Candidate> {
    list.map_values(|c: (String, bool)| (c.0@, c.1))
}

/// Two names as a key of two segments.
pub open spec fn pair_key(prefix: Seq<char>, field: Seq<char>) -> Seq<PartView> {
    seq![(prefix, Seq::<i64>::empty()), (field, Seq::<i64>::empty())]
}

fn make_pair_key(prefix: &str, field: &str) -> (key: PathKey)
    ensures
        path_view(key@) == pair_key(prefix@, field@),
{
    let mut key: Vec<NamePart> = Vec::new();
    key.push((owned(prefix), Vec::new()));
    key.push((owned(field), Vec::new()));
    assert(path_view(key@) =~= pair_key(prefix@, field@));
    key
}

/// What an index holds under a key.
pub open spec fn indexed(entries: Seq<Entry<Vec<(String, bool)>>>, key: Seq<PartView>) -> Seq<
    Candidate,
> {
    if has_key(entries, key) {
        candidate_views(
            entries[choose|i: int| 0 <= i < entries.len() && (#[trigger] entries[i]).0 == key].1@,
        )
    } else {
        Seq::empty()
    }
}

proof fn lemma_indexed_at(entries: Seq<Entry<Vec<(String, bool)>>>, key: Seq<PartView>, i: int)
    requires
        distinct_keys(entries),
        0 <= i < entries.len(),
        entries[i].0 == key,
    ensures
        indexed(entries, key) == candidate_views(entries[i].1@),
{
    let j = choose|j: int| 0 <= j < entries.len() && (#[trigger] entries[j]).0 == key;
    assert(has_key(entries, key));
    assert(0 <= j < entries.len() && entries[j].0 == key);
    if i < j {
        assert(entries[i].0 != entries[j].0);
    } else if j < i {
        assert(entries[j].0 != entries[i].0);
    }
}

/// Whether an index holds the candidates among these variables for every field.
pub open spec fn indexes(entries: Seq<Entry<Vec<(String, bool)>>>, all: Seq<Candidate>) -> bool {
    forall|prefix: Seq<char>, field: Seq<char>|
        indexed(entries, #[trigger] pair_key(prefix, field)) == candidates(
            all,
            all.len() as int,
            prefix,
            field,
        )
}

proof fn lemma_candidates_prefix(
    all: Seq<Candidate>,
    more: Candidate,
    n: int,
    prefix: Seq<char>,
    field: Seq<char>,
)
    requires
        0 <= n <= all.len(),
    ensures
        candidates(all.push(more), n, prefix, field) == candidates(all, n, prefix, field),
    decreases n,
{
    if n > 0 {
        lemma_candidates_prefix(all, more, n - 1, prefix, field);
        assert(all.push(more)[n - 1] == all[n - 1]);
    }
}

proof fn lemma_pair_key_is_injective(a: Seq<char>, b: Seq<char>, c: Seq<char>, d: Seq<char>)
    ensures
        pair_key(a, b) == pair_key(c, d) <==> a == c && b == d,
{
    if pair_key(a, b) == pair_key(c, d) {
        assert(pair_key(a, b)[0] == pair_key(c, d)[0]);
        assert(pair_key(a, b)[1] == pair_key(c, d)[1]);
    }
}

fn copy_candidates(list: &Vec<(String, bool)>) -> (r: Vec<(String, bool)>)
    ensures
        candidate_views(r@) == candidate_views(list@),
{
    let mut r: Vec<(String, bool)> = Vec::new();
    let mut i: usize = 0;
    assert(candidate_views(r@) =~= candidate_views(list@).take(0));
    while i < list.len()
        invariant
            i <= list.len(),
            candidate_views(r@) == candidate_views(list@).take(i as int),
        decreases list.len() - i,
    {
        let ghost before = candidate_views(r@);
        r.push((list[i].0.clone(), list[i].1));
        assert(candidate_views(r@) =~= before.push(candidate_views(list@)[i as int]));
        i = i + 1;
        assert(candidate_views(r@) =~= candidate_views(list@).take(i as int));
    }
    assert(candidate_views(list@).take(i as int) =~= candidate_views(list@));
    r
}

fn index_name(index: &mut PathMap<Vec<(String, bool)>>, name: &str, discrete: bool, all: Ghost<
    Seq<Candidate>,
>)
    requires
        old(index).wf(),
        indexes(old(index).entries(), all@),
    ensures
        final(index).wf(),
        indexes(final(index).entries(), all@.push((name@, discrete))),
{
    let ghost before = index.entries();
    let ghost more = (name@, discrete);
    let ghost grown = all@.push(more);
    proof {
        index.lemma_distinct();
        assert forall|prefix: Seq<char>, field: Seq<char>| #[trigger]
            candidates(grown, grown.len() as int, prefix, field) == if field_key(name@) == Some(
                (prefix, field),
            ) {
                candidates(all@, all@.len() as int, prefix, field).push(more)
            } else {
                candidates(all@, all@.len() as int, prefix, field)
            } by {
            lemma_candidates_prefix(all@, more, all@.len() as int, prefix, field);
        }
    }
    match split_field(name) {
        Some((prefix, field)) => {
            let key = make_pair_key(prefix.as_str(), field.as_str());
            let ghost k = pair_key(prefix@, field@);
            match index.position(&key) {
                Some(i) => {
                    let mut list = copy_candidates(index.value_at(i));
                    let ghost old_list = candidate_views(list@);
                    list.push((owned(name), discrete));
                    assert(candidate_views(list@) =~= old_list.push(more));
                    let ghost new_list = candidate_views(list@);
                    proof {
                        lemma_indexed_at(before, k, i as int);
                    }
                    index.replace_at(i, list);
                    proof {
                        let after = index.entries();
                        index.lemma_distinct();
                        assert forall|p: Seq<char>, f: Seq<char>|
                            indexed(after, #[trigger] pair_key(p, f)) == candidates(
                                grown,
                                grown.len() as int,
                                p,
                                f,
                            ) by {
                            lemma_pair_key_is_injective(p, f, prefix@, field@);
                            let q = pair_key(p, f);
                            if q == k {
                                lemma_indexed_at(after, k, i as int);
                            } else {
                                lemma_indexed_elsewhere(before, after, q, i as int);
                            }
                        }
                    }
                },
                None => {
                    let mut list: Vec<(String, bool)> = Vec::new();
                    list.push((owned(name), discrete));
                    assert(candidate_views(list@) =~= seq![more]);
                    index.insert(key, list);
                    proof {
                        let after = index.entries();
                        index.lemma_distinct();
                        assert(after.last().0 == k);
                        assert forall|p: Seq<char>, f: Seq<char>|
                            indexed(after, #[trigger] pair_key(p, f)) == candidates(
                                grown,
                                grown.len() as int,
                                p,
                                f,
                            ) by {
                            lemma_pair_key_is_injective(p, f, prefix@, field@);
                            let q = pair_key(p, f);
                            if q == k {
                                lemma_indexed_at(after, k, after.len() - 1);
                                assert(indexed(before, k) == candidates(
                                    all@,
                                    all@.len() as int,
                                    p,
                                    f,
                                ));
                                assert(candidates(all@, all@.len() as int, p, f).push(more)
                                    =~= seq![more]);
                            } else {
                                lemma_indexed_elsewhere(before, after, q, after.len() - 1);
                            }
                        }
                    }
                },
            }
        },
        None => {
            proof {
                assert forall|p: Seq<char>, f: Seq<char>|
                    indexed(index.entries(), #[trigger] pair_key(p, f)) == candidates(
                        grown,
                        grown.len() as int,
                        p,
                        f,
                    ) by {}
            }
        },
    }
}

/// A change of the entry at `i` does not touch other keys.
proof fn lemma_indexed_elsewhere(
    before: Seq<Entry<Vec<(String, bool)>>>,
    after: Seq<Entry<Vec<(String, bool)>>>,
    key: Seq<PartView>,
    i: int,
)
    requires
        distinct_keys(before),
        distinct_keys(after),
        0 <= i < after.len(),
        after[i].0 != key,
        i < before.len() ==> before[i].0 != key && before.len() == after.len(),
        i >= before.len() ==> i == before.len() && after.len() == before.len() + 1,
        forall|j: int|
            0 <= j < before.len() && j != i ==> (#[trigger] before[j]).0 == after[j].0
                && before[j].1 == after[j].1,
    ensures
        indexed(after, key) == indexed(before, key),
{
    if has_key(before, key) {
        let j = choose|j: int| 0 <= j < before.len() && (#[trigger] before[j]).0 == key;
        assert(j != i);
        assert(after[j].0 == key);
        lemma_indexed_at(before, key, j);
        lemma_indexed_at(after, key, j);
    } else if has_key(after, key) {
        let j = choose|j: int| 0 <= j < after.len() && (#[trigger] after[j]).0 == key;
        assert(j != i);
        assert(before[j].0 == key);
    }
}

fn index_partition(
    index: &mut PathMap<Vec<(String, bool)>>,
    variables: &NameMap<Variable>,
    discrete: bool,
    all: Ghost<Seq<Candidate>>,
)
    requires
        old(index).wf(),
        variables.wf(),
        indexes(old(index).entries(), all@),
    ensures
        final(index).wf(),
        indexes(final(index).entries(), all@ + names_of(variables.views(), discrete)),
{
    let ghost more = names_of(variables.views(), discrete);
    let mut i: usize = 0;
    assert(all@ + more.take(0) =~= all@);
    while i < variables.len()
        invariant
            i <= variables.entries().len(),
            variables.wf(),
            index.wf(),
            more == names_of(variables.views(), discrete),
            indexes(index.entries(), all@ + more.take(i as int)),
        decreases variables.entries().len() - i,
    {
        let name = variables.name_at(i);
        assert(more[i as int] == (name@, discrete));
        assert(all@ + more.take(i as int + 1) =~= (all@ + more.take(i as int)).push(
            more[i as int],
        ));
        index_name(index, name, discrete, Ghost(all@ + more.take(i as int)));
        i = i + 1;
    }
    assert(more.take(i as int) =~= more);
}

/// One pass over all variables: the candidates for every field of an array.
fn build_scalarized_field_index(vars: &DaeVariables) -> (index: PathMap<Vec<(String, bool)>>)
    requires
        vars.wf(),
    ensures
        index.wf(),
        indexes(index.entries(), all_names(vars@)),
{
    let mut index: PathMap<Vec<(String, bool)>> = PathMap::new();
    let ghost s0 = Seq::<Candidate>::empty();
    assert(indexes(index.entries(), s0)) by {
        assert forall|p: Seq<char>, f: Seq<char>|
            indexed(index.entries(), #[trigger] pair_key(p, f)) == candidates(
                s0,
                s0.len() as int,
                p,
                f,
            ) by {
            assert(!has_key(index.entries(), pair_key(p, f)));
        }
    }
    let ghost v = vars@;
    assert(s0 + names_of(v.states, false) =~= names_of(v.states, false));
    index_partition(&mut index, &vars.states, false, Ghost(s0));
    let ghost s1 = names_of(v.states, false);
    index_partition(&mut index, &vars.algebraics, false, Ghost(s1));
    let ghost s2 = s1 + names_of(v.algebraics, false);
    index_partition(&mut index, &vars.inputs, false, Ghost(s2));
    let ghost s3 = s2 + names_of(v.inputs, false);
    index_partition(&mut index, &vars.outputs, false, Ghost(s3));
    let ghost s4 = s3 + names_of(v.outputs, false);
    index_partition(&mut index, &vars.parameters, false, Ghost(s4));
    let ghost s5 = s4 + names_of(v.parameters, false);
    index_partition(&mut index, &vars.constants, false, Ghost(s5));
    let ghost s6 = s5 + names_of(v.constants, false);
    index_partition(&mut index, &vars.discrete_reals, true, Ghost(s6));
    let ghost s7 = s6 + names_of(v.discrete_reals, true);
    index_partition(&mut index, &vars.discrete_valued, true, Ghost(s7));
    index
}

fn singleton_scalarized_field_name(
    index: &PathMap<Vec<(String, bool)>>,
    name: &str,
    require_discrete: bool,
    vars: Ghost<VariablesView>,
) -> (r: Option<String>)
    requires
        index.wf(),
        indexes(index.entries(), all_names(vars@)),
    ensures
        match r {
            Some(s) => scalarized_field(vars@, name@, require_discrete) == Some(s@),
            None => scalarized_field(vars@, name@, require_discrete) is None,
        },
{
    let (prefix, field) = match split_scope(name) {
        Some(parts) => parts,
        None => {
            return None;
        },
    };
    let ghost all = all_names(vars@);
    let ghost list = candidates(all, all.len() as int, prefix@, field@);
    let key = make_pair_key(prefix.as_str(), field.as_str());
    proof {
        index.lemma_distinct();
        assert(indexed(index.entries(), pair_key(prefix@, field@)) == list);
    }
    let at: usize = match index.position(&key) {
        Some(i) => i,
        None => {
            return None;
        },
    };
    proof {
        lemma_indexed_at(index.entries(), pair_key(prefix@, field@), at as int);
    }
    let found = index.value_at(at);
    assert(candidate_views(found@) == list);
    let mut fit: Vec<String> = Vec::new();
    let mut i: usize = 0;
    assert(views(fit@) =~= eligible(list, 0, require_discrete));
    while i < found.len()
        invariant
            i <= found.len(),
            candidate_views(found@) == list,
            views(fit@) == eligible(list, i as int, require_discrete),
        decreases found.len() - i,
    {
        assert(list[i as int] == (found@[i as int].0@, found@[i as int].1));
        if !require_discrete || found[i].1 {
            let ghost before = views(fit@);
            fit.push(found[i].0.clone());
            assert(views(fit@) =~= before.push(list[i as int].0));
        }
        i = i + 1;
    }
    assert(list.len() == found@.len());
    assert(views(fit@).len() == fit@.len());
    if fit.len() == 1 {
        assert(views(fit@)[0] == fit@[0]@);
        Some(fit[0].clone())
    } else {
        None
    }
}

/// The error for a target that is not declared.
pub open spec fn undeclared_target(name: Seq<char>, span: Span) -> ToDaeErrorView {
    ToDaeErrorView::RuntimeContractViolation {
        message: "pre() target `"@ + name + "` was not declared in DAE variables"@,
        span,
    }
}

/// The error for a target that is not discrete.
pub open spec fn continuous_target(name: Seq<char>, span: Span) -> ToDaeErrorView {
    ToDaeErrorView::RuntimeContractViolation {
        message: "pre() target `"@ + name + "` is not a discrete-time variable"@,
        span,
    }
}

/// The error for a target that is not declared.
pub fn undeclared_target_error(name: &str, span: Span) -> (e: ToDaeError)
    ensures
        e@ == undeclared_target(name@, span),
{
    let mut message = owned("pre() target `");
    message.append(name);
    message.append("` was not declared in DAE variables");
    ToDaeError::RuntimeContractViolation { message, span }
}

/// Name of the declared variable that a target stands for.
pub open spec fn resolve_target(vars: VariablesView, target: Named<PreTargetView>) -> Result<
    Seq<char>,
    ToDaeErrorView,
> {
    match declared(vars, target.0) {
        Some((partition, _)) => if target.1.require_discrete && !allowed_target(
            partition,
            target.0,
            target.1.allow_continuous_target,
        ) {
            Err(continuous_target(target.0, target.1.span))
        } else {
            Ok(target.0)
        },
        None => match scalarized_field(vars, target.0, target.1.require_discrete) {
            Some(name) => Ok(name),
            None => Err(undeclared_target(target.0, target.1.span)),
        },
    }
}

/// The first `n` targets with the names of the declared variables.
pub open spec fn resolve_targets(vars: VariablesView, targets: Targets, n: int) -> Result<
    Targets,
    ToDaeErrorView,
>
    decreases n,
{
    if n <= 0 {
        Ok(Seq::empty())
    } else {
        match resolve_targets(vars, targets, n - 1) {
            Ok(front) => match resolve_target(vars, targets[n - 1]) {
                Ok(name) => Ok(
                    front.push(
                        (
                            targets[n - 1].0,
                            PreTargetView { source_name: name, ..targets[n - 1].1 },
                        ),
                    ),
                ),
                Err(x) => Err(x),
            },
            Err(x) => Err(x),
        }
    }
}

proof fn lemma_resolve_error_stays(vars: VariablesView, targets: Targets, k: int, n: int)
    requires
        0 <= k <= n,
        resolve_targets(vars, targets, k) is Err,
    ensures
        resolve_targets(vars, targets, n) == resolve_targets(vars, targets, k),
    decreases n,
{
    if k < n {
        lemma_resolve_error_stays(vars, targets, k, n - 1);
    }
}

/// As many targets come out as went in, under the same names.
pub proof fn lemma_resolve_keeps_names(vars: VariablesView, targets: Targets, n: int)
    requires
        0 <= n <= targets.len(),
    ensures
        resolve_targets(vars, targets, n) matches Ok(found) ==> found.len() == n && (forall|i: int|
            0 <= i < n ==> (#[trigger] found[i]).0 == targets[i].0),
    decreases n,
{
    if n > 0 {
        lemma_resolve_keeps_names(vars, targets, n - 1);
    }
}

fn validate_pre_target_partition(
    partition: DaeVariablePartition,
    name: &str,
    span: Span,
    allow_continuous_target: bool,
) -> (r: Result<(), ToDaeError>)
    ensures
        match r {
            Ok(()) => allowed_target(partition, name@, allow_continuous_target),
            Err(x) => !allowed_target(partition, name@, allow_continuous_target) && x@
                == continuous_target(name@, span),
        },
{
    if is_allowed_explicit_pre_target_partition(partition, name, allow_continuous_target) {
        return Ok(());
    }
    let mut message = owned("pre() target `");
    message.append(name);
    message.append("` is not a discrete-time variable");
    Err(ToDaeError::RuntimeContractViolation { message, span })
}

/// Replaces every target by the declared variable that it stands for.
pub fn resolve_pre_targets(vars: &DaeVariables, targets: &mut NameMap<PreTarget>) -> (r: Result<
    (),
    ToDaeError,
>)
    requires
        vars.wf(),
        old(targets).wf(),
    ensures
        final(targets).wf(),
        match r {
            Ok(()) => resolve_targets(
                vars@,
                old(targets).views(),
                old(targets).views().len() as int,
            ) == Ok::<_, ToDaeErrorView>(final(targets).views()),
            Err(x) => resolve_targets(
                vars@,
                old(targets).views(),
                old(targets).views().len() as int,
            ) == Err::<Targets, _>(x@),
        },
{
    let ghost first = targets.views();
    let ghost mut done: Targets = Seq::empty();
    let mut index: Option<PathMap<Vec<(String, bool)>>> = None;
    let mut i: usize = 0;
    assert(targets.views() =~= done + first.skip(0));
    while i < targets.len()
        invariant
            vars.wf(),
            targets.wf(),
            first == old(targets).views(),
            i <= first.len(),
            targets.entries().len() == first.len(),
            done.len() == i,
            resolve_targets(vars@, first, i as int) == Ok::<_, ToDaeErrorView>(done),
            targets.views() == done + first.skip(i as int),
            index matches Some(m) ==> m.wf() && indexes(m.entries(), all_names(vars@)),
        decreases first.len() - i,
    {
        let name = owned(targets.name_at(i));
        let target = targets.value_at(i);
        assert(targets.views()[i as int] == (name@, target@));
        assert(targets.views()[i as int] == first[i as int]);
        let span = target.span;
        let require_discrete = target.require_discrete;
        let allow_continuous_target = target.allow_continuous_target;
        proof {
            if resolve_targets(vars@, first, i + 1) is Err {
                lemma_resolve_error_stays(vars@, first, i + 1, first.len() as int);
            }
        }
        let source_name: String = match find_variable_partition(vars, name.as_str()) {
            Some((partition, _)) => {
                if require_discrete {
                    if let Err(x) = validate_pre_target_partition(
                        partition,
                        name.as_str(),
                        span,
                        allow_continuous_target,
                    ) {
                        return Err(x);
                    }
                }
                name.clone()
            },
            None => {
                if index.is_none() {
                    index = Some(build_scalarized_field_index(vars));
                }
                let found = match &index {
                    Some(m) => singleton_scalarized_field_name(
                        m,
                        name.as_str(),
                        require_discrete,
                        Ghost(vars@),
                    ),
                    None => None,
                };
                match found {
                    Some(s) => s,
                    None => {
                        return Err(undeclared_target_error(name.as_str(), span));
                    },
                }
            },
        };
        let resolved = PreTarget { span, source_name, require_discrete, allow_continuous_target };
        let ghost content = resolved@;
        let ghost before = targets.views();
        targets.replace_at(i, resolved);
        proof {
            assert(targets.views() =~= before.update(i as int, (name@, content)));
            done = done.push((name@, content));
            assert(targets.views() =~= done + first.skip(i + 1));
        }
        i = i + 1;
    }
    assert(done + first.skip(i as int) =~= done);
    Ok(())
}

/// Of the first `n` targets, those that are no enumeration literals.
pub open spec fn without_literals(targets: Targets, literals: Seq<Named<i64>>, n: int) -> Targets
    decreases n,
{
    if n <= 0 {
        Seq::empty()
    } else if named(literals, targets[n - 1].0) {
        without_literals(targets, literals, n - 1)
    } else {
        without_literals(targets, literals, n - 1).push(targets[n - 1])
    }
}

proof fn lemma_without_literals(targets: Targets, literals: Seq<Named<i64>>, n: int)
    requires
        0 <= n <= targets.len(),
    ensures
        forall|i: int|
            0 <= i < without_literals(targets, literals, n).len() ==> exists|j: int|
                0 <= j < n && targets[j] == #[trigger] without_literals(targets, literals, n)[i],
    decreases n,
{
    if n > 0 {
        lemma_without_literals(targets, literals, n - 1);
        let front = without_literals(targets, literals, n - 1);
        let all = without_literals(targets, literals, n);
        assert forall|i: int| 0 <= i < all.len() implies exists|j: int|
            0 <= j < n && targets[j] == #[trigger] all[i] by {
            if i < front.len() {
                assert(all[i] == front[i]);
                let j = choose|j: int| 0 <= j < n - 1 && targets[j] == front[i];
                assert(targets[j] == all[i]);
            } else {
                assert(targets[n - 1] == all[i]);
            }
        }
    }
}

/// Leaves out targets that are enumeration literals.
pub fn discard_enum_literal_pre_targets(
    literals: &NameMap<i64>,
    targets: NameMap<PreTarget>,
) -> (kept: NameMap<PreTarget>)
    requires
        literals.wf(),
        targets.wf(),
    ensures
        kept.wf(),
        kept.views() == without_literals(
            targets.views(),
            literals.entries(),
            targets.views().len() as int,
        ),
{
    let ghost all = targets.views();
    let ghost names = literals.entries();
    let mut kept: NameMap<PreTarget> = NameMap::new();
    let mut i: usize = 0;
    assert(kept.views() =~= without_literals(all, names, 0));
    while i < targets.len()
        invariant
            i <= targets.entries().len(),
            targets.wf(),
            literals.wf(),
            kept.wf(),
            all == targets.views(),
            names == literals.entries(),
            kept.views() == without_literals(all, names, i as int),
        decreases targets.entries().len() - i,
    {
        let name = targets.name_at(i);
        let target = targets.value_at(i);
        assert(all[i as int] == (name@, target@));
        if !literals.contains_key(name) {
            let copy = PreTarget {
                span: target.span,
                source_name: target.source_name.clone(),
                require_discrete: target.require_discrete,
                allow_continuous_target: target.allow_continuous_target,
            };
            let ghost content = copy;
            let ghost before = kept;
            proof {
                lemma_without_literals(all, names, i as int);
                targets.lemma_views(name@);
                kept.lemma_views(name@);
                assert(!named(kept.views(), name@)) by {
                    if named(kept.views(), name@) {
                        let k = choose|k: int|
                            0 <= k < kept.views().len() && (#[trigger] kept.views()[k]).0 == name@;
                        let j = choose|j: int| 0 <= j < i && all[j] == kept.views()[k];
                        assert(all[j].0 != all[i as int].0);
                    }
                }
            }
            kept.insert(name, copy);
            proof {
                lemma_views_with_named(before, kept, name@, content);
                assert(content@ == target@);
            }
        }
        i = i + 1;
    }
    kept
}

} // verus!
