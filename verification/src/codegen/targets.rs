//! Where the results of solve programs go, and assignments to slots.
use crate::codegen::fill::rendered;
use crate::codegen::shape::plain_field;
use crate::codegen::shown::{show_value, shown};
use crate::codegen::value::{
    as_usize, get_field, lemma_view_items, render_err, required_usize_field, usize_field,
    value_views, Outcome, RenderError, TemplateValue, ValueKind, ValueView,
};
use crate::text::{chars_of, nat_text, owned, push_usize, usize_to_text, views};
use vstd::prelude::*;

verus! {

/// Where the results of a list of programs go.
#[derive(Debug)]
pub enum SolveOutputTargets {
    /// One after the other from a position on.
    DenseOffset(usize),
    /// Each to a position of its own.
    Explicit(Vec<usize>),
}

pub enum TargetsView {
    DenseOffset(usize),
    Explicit(Seq<usize>),
}

impl View for SolveOutputTargets {
    type V = TargetsView;

    open spec fn view(&self) -> TargetsView {
        match self {
            SolveOutputTargets::DenseOffset(offset) => TargetsView::DenseOffset(*offset),
            SolveOutputTargets::Explicit(list) => TargetsView::Explicit(list@),
        }
    }
}

impl TargetsView {
    /// Position of result number `ordinal`.
    pub open spec fn target(self, ordinal: usize) -> Outcome<usize> {
        match self {
            TargetsView::DenseOffset(offset) => if offset + ordinal <= usize::MAX {
                Ok((offset + ordinal) as usize)
            } else {
                Err("solve output index overflow"@)
            },
            TargetsView::Explicit(list) => if ordinal < list.len() {
                Ok(list[ordinal as int])
            } else {
                Err(
                    "solve output_indices missing entry for StoreOutput #"@ + nat_text(
                        ordinal as nat,
                    ),
                )
            },
        }
    }
}

impl SolveOutputTargets {
    /// Position of result number `ordinal`.
    pub fn target_for(&self, ordinal: usize) -> (r: Result<usize, RenderError>)
        ensures
            match r {
                Ok(n) => self@.target(ordinal) == Ok::<_, Seq<char>>(n),
                Err(e) => self@.target(ordinal) == Err::<usize, _>(e@),
            },
    {
        match self {
            SolveOutputTargets::DenseOffset(offset) => match offset.checked_add(ordinal) {
                Some(n) => Ok(n),
                None => Err(render_err("solve output index overflow")),
            },
            SolveOutputTargets::Explicit(list) => {
                if ordinal < list.len() {
                    Ok(list[ordinal])
                } else {
                    let mut detail = owned("solve output_indices missing entry for StoreOutput #");
                    push_usize(&mut detail, ordinal);
                    Err(RenderError { detail })
                }
            },
        }
    }
}

/// The first `n` values as positions.
pub open spec fn indices(items: Seq<ValueView>, n: int) -> Outcome<Seq<usize>>
    decreases n,
{
    if n <= 0 {
        Ok(Seq::empty())
    } else {
        match indices(items, n - 1) {
            Err(e) => Err(e),
            Ok(front) => match items[n - 1].as_usize() {
                Some(index) => Ok(front.push(index)),
                None => Err("solve output_indices entries must be non-negative integers"@),
            },
        }
    }
}

proof fn lemma_indices_fail(items: Seq<ValueView>, k: int, n: int)
    requires
        0 <= k <= n,
        indices(items, k) is Err,
    ensures
        indices(items, n) == indices(items, k),
    decreases n,
{
    if k < n {
        lemma_indices_fail(items, k, n - 1);
    }
}

/// The targets that a value describes: a position, or a list of positions.
pub open spec fn output_targets(value: ValueView) -> Outcome<TargetsView> {
    match value.as_usize() {
        Some(offset) => Ok(TargetsView::DenseOffset(offset)),
        None => if value.kind is List {
            match indices(value.items, value.items.len() as int) {
                Ok(list) => Ok(TargetsView::Explicit(list)),
                Err(e) => Err(e),
            }
        } else {
            Err("solve output target must be an offset or output_indices array"@)
        },
    }
}

/// The targets that a value describes; without one, the results start at the
/// beginning.
pub fn solve_output_targets(value: Option<&TemplateValue>) -> (r: Result<
    SolveOutputTargets,
    RenderError,
>)
    ensures
        match value {
            None => r is Ok && r->Ok_0@ == TargetsView::DenseOffset(0),
            Some(value) => match r {
                Ok(targets) => output_targets(value@) == Ok::<_, Seq<char>>(targets@),
                Err(e) => output_targets(value@) == Err::<TargetsView, _>(e@),
            },
        },
{
    match value {
        None => Ok(SolveOutputTargets::DenseOffset(0)),
        Some(value) => read_output_targets(value),
    }
}

fn read_output_targets(value: &TemplateValue) -> (r: Result<SolveOutputTargets, RenderError>)
    ensures
        match r {
            Ok(targets) => output_targets(value@) == Ok::<_, Seq<char>>(targets@),
            Err(e) => output_targets(value@) == Err::<TargetsView, _>(e@),
        },
{
    if let Some(offset) = as_usize(value) {
        return Ok(SolveOutputTargets::DenseOffset(offset));
    }
    proof {
        lemma_view_items(*value);
    }
    let is_list: bool = match &value.kind {
        ValueKind::List => true,
        _ => false,
    };
    if !is_list {
        return Err(render_err("solve output target must be an offset or output_indices array"));
    }
    let ghost items = value@.items;
    let mut list: Vec<usize> = Vec::new();
    let mut i: usize = 0;
    assert(list@ =~= Seq::<usize>::empty());
    while i < value.items.len()
        invariant
            i <= value.items@.len(),
            items == value_views(value.items@),
            value@.as_usize() is None,
            value@.kind is List,
            value@.items == items,
            indices(items, i as int) == Ok::<_, Seq<char>>(list@),
        decreases value.items.len() - i,
    {
        assert(items[i as int] == value.items@[i as int]@);
        match as_usize(&value.items[i]) {
            Some(index) => {
                list.push(index);
            },
            None => {
                proof {
                    lemma_indices_fail(items, i + 1, items.len() as int);
                }
                return Err(
                    render_err("solve output_indices entries must be non-negative integers"),
                );
            },
        }
        i = i + 1;
    }
    Ok(SolveOutputTargets::Explicit(list))
}

/// Number of results stored by the first `n` instructions.
pub open spec fn stores(ops: Seq<ValueView>, n: int) -> int
    decreases n,
{
    if n <= 0 {
        0
    } else {
        stores(ops, n - 1) + if ops[n - 1].field("StoreOutput"@) is Some {
            1int
        } else {
            0
        }
    }
}

/// Number of results stored by the first `n` programs.
pub open spec fn program_stores(programs: Seq<ValueView>, n: int) -> Outcome<int>
    decreases n,
{
    if n <= 0 {
        Ok(0)
    } else {
        match program_stores(programs, n - 1) {
            Err(e) => Err(e),
            Ok(count) => if !(programs[n - 1].kind is List) {
                Err("solve program must be an array of LinearOp values"@)
            } else {
                let ops = programs[n - 1].items;
                let total = count + stores(ops, ops.len() as int);
                if total <= usize::MAX {
                    Ok(total)
                } else {
                    Err("solve StoreOutput count overflows host range"@)
                }
            },
        }
    }
}

/// Number of results stored by a list of programs.
pub open spec fn block_stores(programs: ValueView) -> Outcome<int> {
    if programs.kind is List {
        program_stores(programs.items, programs.items.len() as int)
    } else {
        Err("solve programs must be an array"@)
    }
}

proof fn lemma_stores_grow(ops: Seq<ValueView>, k: int, n: int)
    requires
        0 <= k <= n,
    ensures
        0 <= stores(ops, k) <= stores(ops, n),
    decreases n,
{
    if k < n {
        lemma_stores_grow(ops, k, n - 1);
    } else if 0 < n {
        lemma_stores_grow(ops, k - 1, n - 1);
    }
}

proof fn lemma_program_stores_fail(programs: Seq<ValueView>, k: int, n: int)
    requires
        0 <= k <= n,
        program_stores(programs, k) is Err,
    ensures
        program_stores(programs, n) == program_stores(programs, k),
    decreases n,
{
    if k < n {
        lemma_program_stores_fail(programs, k, n - 1);
    }
}

/// Adds the number of results that a program stores.
fn add_stores(program: &TemplateValue, count: usize) -> (r: Option<usize>)
    ensures
        match r {
            Some(n) => n == count + stores(program@.items, program@.items.len() as int),
            None => count + stores(program@.items, program@.items.len() as int) > usize::MAX,
        },
{
    proof {
        lemma_view_items(*program);
    }
    let ghost ops = program@.items;
    let mut total: usize = count;
    let mut i: usize = 0;
    while i < program.items.len()
        invariant
            i <= program.items@.len(),
            ops == value_views(program.items@),
            ops == program@.items,
            total == count + stores(ops, i as int),
        decreases program.items.len() - i,
    {
        assert(ops[i as int] == program.items@[i as int]@);
        if get_field(&program.items[i], "StoreOutput").is_ok() {
            if total == usize::MAX {
                proof {
                    lemma_stores_grow(ops, i + 1, ops.len() as int);
                }
                return None;
            }
            total = total + 1;
        }
        i = i + 1;
    }
    Some(total)
}

/// Number of results stored by a list of programs.
pub fn solve_block_output_count_function(programs: &TemplateValue) -> (r: Result<
    usize,
    RenderError,
>)
    ensures
        match r {
            Ok(n) => block_stores(programs@) == Ok::<_, Seq<char>>(n as int),
            Err(e) => block_stores(programs@) == Err::<int, _>(e@),
        },
{
    proof {
        lemma_view_items(*programs);
    }
    let is_list: bool = match &programs.kind {
        ValueKind::List => true,
        _ => false,
    };
    if !is_list {
        return Err(render_err("solve programs must be an array"));
    }
    let ghost items = programs@.items;
    let mut count: usize = 0;
    let mut i: usize = 0;
    while i < programs.items.len()
        invariant
            i <= programs.items@.len(),
            items == value_views(programs.items@),
            block_stores(programs@) == program_stores(items, items.len() as int),
            program_stores(items, i as int) == Ok::<_, Seq<char>>(count as int),
        decreases programs.items.len() - i,
    {
        let program = &programs.items[i];
        assert(items[i as int] == program@);
        proof {
            lemma_view_items(*program);
            if program_stores(items, i + 1) is Err {
                lemma_program_stores_fail(items, i + 1, items.len() as int);
            }
        }
        let program_is_list: bool = match &program.kind {
            ValueKind::List => true,
            _ => false,
        };
        if !program_is_list {
            return Err(render_err("solve program must be an array of LinearOp values"));
        }
        match add_stores(program, count) {
            Some(n) => {
                count = n;
            },
            None => {
                return Err(render_err("solve StoreOutput count overflows host range"));
            },
        }
        i = i + 1;
    }
    Ok(count)
}

/// Whether a text starts with an open gap.
pub open spec fn opens_with_gap(t: Seq<char>) -> bool {
    t.len() >= 2 && t[0] == '{' && t[1] == '}'
}

/// The pattern with its `{}` gaps filled, the first by the first argument and so
/// on; further gaps stay as they are.
pub open spec fn formatted(t: Seq<char>, args: Seq<Seq<char>>) -> Seq<char>
    decreases t.len(),
{
    if t.len() == 0 {
        Seq::empty()
    } else if opens_with_gap(t) && args.len() > 0 {
        args[0] + formatted(t.skip(2), args.skip(1))
    } else {
        seq![t[0]] + formatted(t.skip(1), args)
    }
}

/// The pattern with its `{}` gaps filled in order.
pub fn format_pattern(pattern: &str, args: &Vec<String>) -> (out: String)
    ensures
        out@ == formatted(pattern@, views(args@)),
{
    let ghost t = pattern@;
    let ghost texts = views(args@);
    let chars = chars_of(pattern);
    let n: usize = chars.len();
    let mut out = String::new();
    let mut used: usize = 0;
    let mut i: usize = 0;
    proof {
        assert(t.skip(0) =~= t);
        assert(texts.skip(0) =~= texts);
        assert(formatted(t, texts) =~= out@ + formatted(t.skip(0), texts.skip(0)));
    }
    while i < n
        invariant
            t == pattern@,
            texts == views(args@),
            chars@ == t,
            n == t.len(),
            i <= n,
            used <= texts.len(),
            formatted(t, texts) == out@ + formatted(t.skip(i as int), texts.skip(used as int)),
        decreases n - i,
    {
        let ghost rest = t.skip(i as int);
        let ghost left = texts.skip(used as int);
        let ghost before = out@;
        if n - i >= 2 && chars[i] == '{' && chars[i + 1] == '}' && used < args.len() {
            out.append(args[used].as_str());
            proof {
                assert(opens_with_gap(rest));
                assert(left[0] == args@[used as int]@);
                assert(rest.skip(2) =~= t.skip(i + 2));
                assert(left.skip(1) =~= texts.skip(used + 1));
                assert(formatted(t, texts) =~= out@ + formatted(t.skip(i + 2), texts.skip(used + 1)));
            }
            i = i + 2;
            used = used + 1;
        } else {
            out.append(pattern.substring_char(i, i + 1));
            proof {
                assert(!opens_with_gap(rest) || left.len() == 0);
                assert(t.subrange(i as int, i + 1) =~= seq![rest[0]]);
                assert(rest.skip(1) =~= t.skip(i + 1));
                assert(formatted(t, texts) =~= out@ + formatted(t.skip(i + 1), left));
            }
            i = i + 1;
        }
    }
    proof {
        assert(t.skip(n as int).len() == 0);
        assert(formatted(t, texts) =~= out@);
    }
    out
}

/// A slot that is read or written: a state or a parameter.
pub open spec fn slot_index(slot: ValueView, name: Seq<char>) -> Outcome<usize> {
    usize_field(slot.field(name)->0, "index"@)
}

/// The patterns by which states and parameters are read or set.
#[derive(Debug)]
pub struct SlotPatterns {
    pub y: String,
    pub p: String,
}

/// The text that reads a slot.
pub open spec fn slot_read(slot: ValueView, y: Seq<char>, p: Seq<char>) -> Outcome<Seq<char>> {
    if slot.field("Y"@) is Some {
        match slot_index(slot, "Y"@) {
            Ok(index) => Ok(formatted(y, seq![nat_text(index as nat)])),
            Err(e) => Err(e),
        }
    } else if slot.field("P"@) is Some {
        match slot_index(slot, "P"@) {
            Ok(index) => Ok(formatted(p, seq![nat_text(index as nat)])),
            Err(e) => Err(e),
        }
    } else {
        Err("unsupported pre-parameter source slot: "@ + shown(slot, false))
    }
}

/// The statement that sets something at a position to a value.
pub open spec fn set_text(pattern: Seq<char>, index: usize, value: Seq<char>) -> Seq<char> {
    formatted(pattern, seq![nat_text(index as nat), value]) + ";"@
}

fn make_set_text(pattern: &str, index: usize, value: &str) -> (s: String)
    ensures
        s@ == set_text(pattern@, index, value@),
{
    let args = vec![usize_to_text(index), owned(value)];
    assert(views(args@) =~= seq![nat_text(index as nat), value@]);
    let mut s = format_pattern(pattern, &args);
    s.append(";");
    s
}

fn make_access(pattern: &str, index: usize) -> (s: String)
    ensures
        s@ == formatted(pattern@, seq![nat_text(index as nat)]),
{
    let args = vec![usize_to_text(index)];
    assert(views(args@) =~= seq![nat_text(index as nat)]);
    format_pattern(pattern, &args)
}

/// The statement that sets a slot to a value.
pub open spec fn slot_set(slot: ValueView, value: Seq<char>, y: Seq<char>, p: Seq<char>) -> Outcome<
    Seq<char>,
> {
    if slot.field("Y"@) is Some {
        match slot_index(slot, "Y"@) {
            Ok(index) => Ok(set_text(y, index, value)),
            Err(e) => Err(e),
        }
    } else if slot.field("P"@) is Some {
        match slot_index(slot, "P"@) {
            Ok(index) => Ok(set_text(p, index, value)),
            Err(e) => Err(e),
        }
    } else {
        Err("unsupported solve assignment target slot: "@ + shown(slot, false))
    }
}

/// The statement that sets a slot to a value.
pub fn render_solve_slot_assign_c_function(
    slot: &TemplateValue,
    value: &TemplateValue,
    config: &SlotPatterns,
) -> (r: Result<String, RenderError>)
    ensures
        rendered(r, slot_set(slot@, shown(value@, false), config.y@, config.p@)),
{
    let text = show_value(value, false);
    if let Ok(target) = get_field(slot, "Y") {
        return match required_usize_field(target, "index") {
            Ok(index) => Ok(make_set_text(config.y.as_str(), index, text.as_str())),
            Err(e) => Err(e),
        };
    }
    if let Ok(target) = get_field(slot, "P") {
        return match required_usize_field(target, "index") {
            Ok(index) => Ok(make_set_text(config.p.as_str(), index, text.as_str())),
            Err(e) => Err(e),
        };
    }
    let mut detail = owned("unsupported solve assignment target slot: ");
    detail.append(show_value(slot, false).as_str());
    Err(RenderError { detail })
}

/// The statement that sets a slot to a value, or nothing where there is no slot.
pub fn render_optional_solve_slot_assign_c_function(
    slot: &TemplateValue,
    value: &TemplateValue,
    config: &SlotPatterns,
) -> (r: Result<String, RenderError>)
    ensures
        rendered(
            r,
            if slot@.kind is Null || slot@.kind is Undefined {
                Ok(""@)
            } else {
                slot_set(slot@, shown(value@, false), config.y@, config.p@)
            },
        ),
{
    proof {
        lemma_view_items(*slot);
    }
    match &slot.kind {
        ValueKind::Null => Ok(owned("")),
        ValueKind::Undefined => Ok(owned("")),
        _ => render_solve_slot_assign_c_function(slot, value, config),
    }
}

/// The statement that copies a slot into the parameter that keeps its previous
/// value.
pub open spec fn pre_binding(
    binding: ValueView,
    y: Seq<char>,
    p: Seq<char>,
    p_set: Seq<char>,
) -> Outcome<Seq<char>> {
    match usize_field(binding, "dest_p_index"@) {
        Err(e) => Err(e),
        Ok(dest) => match plain_field(binding, "source"@) {
            Err(e) => Err(e),
            Ok(source) => match slot_read(source, y, p) {
                Err(e) => Err(e),
                Ok(value) => Ok(set_text(p_set, dest, value)),
            },
        },
    }
}

/// The statement that copies a slot into the parameter that keeps its previous
/// value.
pub fn render_solve_pre_param_binding_c_function(
    binding: &TemplateValue,
    access: &SlotPatterns,
    assign: &SlotPatterns,
) -> (r: Result<String, RenderError>)
    ensures
        rendered(r, pre_binding(binding@, access.y@, access.p@, assign.p@)),
{
    let dest = match required_usize_field(binding, "dest_p_index") {
        Ok(n) => n,
        Err(e) => {
            return Err(e);
        },
    };
    let source = match get_field(binding, "source") {
        Ok(v) => v,
        Err(e) => {
            return Err(e);
        },
    };
    if let Ok(slot) = get_field(source, "Y") {
        return match required_usize_field(slot, "index") {
            Ok(index) => {
                let value = make_access(access.y.as_str(), index);
                Ok(make_set_text(assign.p.as_str(), dest, value.as_str()))
            },
            Err(e) => Err(e),
        };
    }
    if let Ok(slot) = get_field(source, "P") {
        return match required_usize_field(slot, "index") {
            Ok(index) => {
                let value = make_access(access.p.as_str(), index);
                Ok(make_set_text(assign.p.as_str(), dest, value.as_str()))
            },
            Err(e) => Err(e),
        };
    }
    let mut detail = owned("unsupported pre-parameter source slot: ");
    detail.append(show_value(source, false).as_str());
    Err(RenderError { detail })
}

proof fn lemma_indices(items: Seq<ValueView>, n: int)
    requires
        0 <= n <= items.len(),
    ensures
        indices(items, n) matches Ok(list) ==> list.len() == n && forall|k: int|
            0 <= k < n ==> (#[trigger] items[k]).as_usize() == Some(list[k]),
    decreases n,
{
    if n > 0 {
        lemma_indices(items, n - 1);
    }
}

/// Result number `k` goes as far behind an offset as it is behind the first, and with
/// positions given to the one that is given for it; there is no other place for it.
pub proof fn law_results_go_where_they_are_sent(value: ValueView, k: usize)
    ensures
        output_targets(value) matches Ok(targets) ==> match value.as_usize() {
            Some(offset) => match targets.target(k) {
                Ok(place) => place == offset + k,
                Err(_) => offset + k > usize::MAX,
            },
            None => match targets.target(k) {
                Ok(place) => k < value.items.len() && value.items[k as int].as_usize() == Some(
                    place,
                ),
                Err(_) => k >= value.items.len(),
            },
        },
{
    if output_targets(value) is Ok && value.as_usize() is None {
        lemma_indices(value.items, value.items.len() as int);
    }
}

/// Whether an instruction stores a result.
pub open spec fn is_store() -> spec_fn(ValueView) -> bool {
    |op: ValueView| op.field("StoreOutput"@) is Some
}

proof fn lemma_stores(ops: Seq<ValueView>, n: int)
    requires
        0 <= n <= ops.len(),
    ensures
        stores(ops, n) == ops.take(n).filter(is_store()).len(),
    decreases n,
{
    reveal(Seq::filter);
    if n > 0 {
        lemma_stores(ops, n - 1);
        assert(ops.take(n).drop_last() =~= ops.take(n - 1));
        assert(ops.take(n).last() == ops[n - 1]);
    }
}

/// A program has as many results as it has instructions that store one, and programs have
/// the results of all of them.
pub proof fn law_results_are_counted(programs: Seq<ValueView>, n: int)
    requires
        0 < n <= programs.len(),
    ensures
        program_stores(programs, n) matches Ok(total) ==> program_stores(programs, n - 1) == Ok::<
            int,
            Seq<char>,
        >(total - programs[n - 1].items.filter(is_store()).len()),
        program_stores(programs, 0) == Ok::<int, Seq<char>>(0),
{
    let ops = programs[n - 1].items;
    lemma_stores(ops, ops.len() as int);
    assert(ops.take(ops.len() as int) =~= ops);
}

proof fn lemma_without_gaps(t: Seq<char>, args: Seq<Seq<char>>)
    requires
        forall|i: int| 0 <= i < t.len() ==> (#[trigger] t[i]) != '{',
    ensures
        formatted(t, args) == t,
    decreases t.len(),
{
    if t.len() > 0 {
        let rest = t.skip(1);
        assert forall|i: int| 0 <= i < rest.len() implies (#[trigger] rest[i]) != '{' by {
            assert(rest[i] == t[i + 1]);
        }
        assert(t[0] != '{');
        lemma_without_gaps(rest, args);
        assert(seq![t[0]] + rest =~= t);
    }
}

/// A pattern with a gap, and no brace before it, becomes what stands before the gap, the
/// first argument, and what stands behind the gap with the other arguments; a pattern
/// without braces stays as it is.
pub proof fn law_gaps_are_filled_in_order(a: Seq<char>, b: Seq<char>, args: Seq<Seq<char>>)
    requires
        args.len() > 0,
        forall|i: int| 0 <= i < a.len() ==> (#[trigger] a[i]) != '{',
    ensures
        formatted(a + seq!['{', '}'] + b, args) == a + args[0] + formatted(b, args.skip(1)),
        formatted(a, args) == a,
    decreases a.len(),
{
    lemma_without_gaps(a, args);
    let t = a + seq!['{', '}'] + b;
    if a.len() == 0 {
        assert(t[0] == '{' && t[1] == '}');
        assert(t.skip(2) =~= b);
        assert(a + args[0] + formatted(b, args.skip(1)) =~= args[0] + formatted(b, args.skip(1)));
    } else {
        let rest = a.skip(1);
        assert forall|i: int| 0 <= i < rest.len() implies (#[trigger] rest[i]) != '{' by {
            assert(rest[i] == a[i + 1]);
        }
        assert(t[0] == a[0]);
        assert(a[0] != '{');
        assert(t.skip(1) =~= rest + seq!['{', '}'] + b);
        law_gaps_are_filled_in_order(rest, b, args);
        assert(seq![a[0]] + (rest + args[0] + formatted(b, args.skip(1))) =~= a + args[0]
            + formatted(b, args.skip(1)));
    }
}

/// A slot is read and set by the pattern for what it is, at its index: a state by that for
/// states, and else a parameter by that for parameters; and the parameter that keeps a
/// previous value is set to what the slot holds.
pub proof fn law_slots_are_read_and_set_at_their_index(
    slot: ValueView,
    value: Seq<char>,
    y: Seq<char>,
    p: Seq<char>,
    index: usize,
)
    ensures
        slot.field("Y"@) matches Some(state) ==> usize_field(state, "index"@) == Ok::<
            usize,
            Seq<char>,
        >(index) ==> slot_read(slot, y, p) == Ok::<Seq<char>, Seq<char>>(
            formatted(y, seq![nat_text(index as nat)]),
        ) && slot_set(slot, value, y, p) == Ok::<Seq<char>, Seq<char>>(
            formatted(y, seq![nat_text(index as nat), value]) + ";"@,
        ),
        slot.field("Y"@) is None ==> (slot.field("P"@) matches Some(parameter) ==> usize_field(
            parameter,
            "index"@,
        ) == Ok::<usize, Seq<char>>(index) ==> slot_read(slot, y, p) == Ok::<Seq<char>, Seq<char>>(
            formatted(p, seq![nat_text(index as nat)]),
        ) && slot_set(slot, value, y, p) == Ok::<Seq<char>, Seq<char>>(
            formatted(p, seq![nat_text(index as nat), value]) + ";"@,
        )),
{
}

/// A parameter that keeps a previous value is set, at the index that is named for it, to
/// what its source holds.
pub proof fn law_previous_values_are_kept(
    binding: ValueView,
    y: Seq<char>,
    p: Seq<char>,
    p_set: Seq<char>,
    dest: usize,
    source: ValueView,
    held: Seq<char>,
)
    requires
        usize_field(binding, "dest_p_index"@) == Ok::<usize, Seq<char>>(dest),
        binding.field("source"@) == Some(source),
        slot_read(source, y, p) == Ok::<Seq<char>, Seq<char>>(held),
    ensures
        pre_binding(binding, y, p, p_set) == Ok::<Seq<char>, Seq<char>>(
            formatted(p_set, seq![nat_text(dest as nat), held]) + ";"@,
        ),
{
}

} // verus!
