//! Arrays of structured components and their elements.
//!
//! An array of components of a structured type stands for its elements, which
//! are walked one by one in row-major order. An element takes its part of the
//! values that are given to the whole array.
use crate::dae::pre_targets::{index_subscripts, make_index_subscripts};
use crate::dae::shape::{
    countable, element_count, flat_position, in_shape, ints_of, law_positions_go_row_by_row,
    lemma_position_has_subscripts, nats_of, position_subscripts,
};
use crate::expr::tree::{
    expr_views, lemma_view_args, ExprView, Expression, Node, NodeView,
};
use crate::instantiate::context::InstantiateContext;
use crate::instantiate::evaluated::copy_component;
use crate::instantiate::nested::is_at_or_inside;
use crate::instantiate::tree::{
    said_modifications, type_info, ClassView, Component, ComponentView,
};
use crate::ir::modification::{with_modification, ModificationValue, ModificationView};
use crate::ir::name::{copy_parts, path_view, PartView, QualifiedName};
use crate::ir::path_map::Entry;
use vstd::prelude::*;

verus! {

/// Whether a component is an array of components of a structured type.
pub open spec fn is_structured_array(tree: Seq<ClassView>, comp: ComponentView) -> bool {
    &&& comp.dims.len() > 0
    &&& type_info(tree, comp) is Some
    &&& type_info(tree, comp)->0.class is Some
    &&& !type_info(tree, comp)->0.is_primitive
}

/// How many elements an array has. One with a dimension that is not positive has
/// none.
pub open spec fn element_total(dims: Seq<i64>) -> int {
    if countable(dims) {
        element_count(ints_of(dims))
    } else {
        0
    }
}

/// The subscripts of an element, by its row-major position.
pub open spec fn element_subscripts(dims: Seq<i64>, k: int) -> Seq<i64> {
    position_subscripts(dims, k as usize)->0.map_values(|s: usize| s as i64)
}

proof fn lemma_count_is_positive(dims: Seq<int>)
    requires
        forall|i: int| 0 <= i < dims.len() ==> 0 < #[trigger] dims[i],
    ensures
        element_count(dims) > 0,
    decreases dims.len(),
{
    if dims.len() > 0 {
        let front = dims.drop_last();
        assert forall|i: int| 0 <= i < front.len() implies 0 < #[trigger] front[i] by {
            assert(dims[i] > 0);
        }
        lemma_count_is_positive(front);
        assert(dims[dims.len() - 1] > 0);
        let n = element_count(front);
        let d = dims.last();
        assert(n * d > 0) by (nonlinear_arith)
            requires
                n > 0,
                d > 0,
        ;
    }
}

/// No array has fewer elements than none.
pub proof fn lemma_total_is_not_negative(dims: Seq<i64>)
    ensures
        element_total(dims) >= 0,
{
    if countable(dims) {
        let sizes = ints_of(dims);
        assert forall|i: int| 0 <= i < sizes.len() implies 0 < #[trigger] sizes[i] by {
            assert(dims[i] > 0);
        }
        lemma_count_is_positive(sizes);
    }
}

proof fn lemma_element_position(dims: Seq<i64>, k: int)
    requires
        dims.len() > 0,
        0 <= k < element_total(dims),
        k <= usize::MAX,
    ensures
        ({
            let subs = position_subscripts(dims, k as usize)->0;
            in_shape(ints_of(dims), nats_of(subs)) && flat_position(ints_of(dims), nats_of(subs))
                == k
        }),
{
    lemma_position_has_subscripts(dims, k as usize);
}

/// The subscripts of an element lie inside the array.
pub proof fn law_elements_are_inside(dims: Seq<i64>, k: int, i: int)
    requires
        dims.len() > 0,
        0 <= k < element_total(dims),
        k <= usize::MAX,
        0 <= i < dims.len(),
    ensures
        element_subscripts(dims, k).len() == dims.len(),
        1 <= element_subscripts(dims, k)[i] <= dims[i],
{
    lemma_element_position(dims, k);
    let subs = position_subscripts(dims, k as usize)->0;
    assert(nats_of(subs)[i] == subs[i]);
    assert(nats_of(subs).len() == subs.len());
}

/// Different elements have different subscripts.
pub proof fn law_elements_are_apart(dims: Seq<i64>, j: int, k: int)
    requires
        dims.len() > 0,
        0 <= j < k < element_total(dims),
        k <= usize::MAX,
    ensures
        element_subscripts(dims, j) != element_subscripts(dims, k),
{
    lemma_element_position(dims, j);
    lemma_element_position(dims, k);
    let a = position_subscripts(dims, j as usize)->0;
    let b = position_subscripts(dims, k as usize)->0;
    if element_subscripts(dims, j) == element_subscripts(dims, k) {
        assert forall|i: int| 0 <= i < dims.len() implies nats_of(a)[i] == nats_of(b)[i] by {
            law_elements_are_inside(dims, j, i);
            law_elements_are_inside(dims, k, i);
            assert(nats_of(a)[i] == a[i] && nats_of(b)[i] == b[i]);
            assert(element_subscripts(dims, j)[i] == element_subscripts(dims, k)[i]);
            assert(a[i] as i64 == b[i] as i64);
        }
        assert(nats_of(a) =~= nats_of(b));
    }
}

/// Whether some subscripts come before others row by row: they are smaller where the two
/// first differ.
pub open spec fn comes_before(a: Seq<i64>, b: Seq<i64>) -> bool {
    exists|i: int|
        0 <= i < a.len() && i < b.len() && #[trigger] a[i] < b[i] && a.take(i) == b.take(i)
}

/// The elements of an array come row by row, the last subscript running fastest.
pub proof fn law_elements_come_row_by_row(dims: Seq<i64>, j: int, k: int)
    requires
        dims.len() > 0,
        0 <= j < k < element_total(dims),
        k <= usize::MAX,
    ensures
        comes_before(element_subscripts(dims, j), element_subscripts(dims, k)),
{
    lemma_element_position(dims, j);
    lemma_element_position(dims, k);
    let a = position_subscripts(dims, j as usize)->0;
    let b = position_subscripts(dims, k as usize)->0;
    let sa = element_subscripts(dims, j);
    let sb = element_subscripts(dims, k);
    law_elements_are_apart(dims, j, k);
    assert forall|i: int| 0 <= i < dims.len() implies sa[i] == nats_of(a)[i] && sb[i] == nats_of(
        b,
    )[i] by {
        law_elements_are_inside(dims, j, i);
        law_elements_are_inside(dims, k, i);
        assert(nats_of(a)[i] == a[i] && nats_of(b)[i] == b[i]);
    }
    law_elements_are_inside(dims, j, 0);
    law_elements_are_inside(dims, k, 0);
    assert(sa.take(dims.len() as int) =~= sa && sb.take(dims.len() as int) =~= sb);
    let i = lemma_first_difference(sa, sb, dims.len() as int);
    assert forall|l: int| 0 <= l < i implies nats_of(a)[l] == nats_of(b)[l] by {
        assert(sa[l] == sb[l]);
    }
    if sb[i] < sa[i] {
        law_positions_go_row_by_row(ints_of(dims), nats_of(b), nats_of(a), i);
    }
    assert(sa.take(i) =~= sb.take(i));
    assert(sa[i] < sb[i]);
}

proof fn lemma_first_difference(a: Seq<i64>, b: Seq<i64>, n: int) -> (i: int)
    requires
        0 <= n <= a.len(),
        a.len() == b.len(),
        a.take(n) != b.take(n),
    ensures
        0 <= i < n,
        a[i] != b[i],
        forall|l: int| 0 <= l < i ==> #[trigger] a[l] == b[l],
    decreases n,
{
    if n == 0 {
        assert(a.take(0) =~= b.take(0));
        0
    } else if a.take(n - 1) == b.take(n - 1) {
        assert forall|l: int| 0 <= l < n - 1 implies #[trigger] a[l] == b[l] by {
            assert(a.take(n - 1)[l] == b.take(n - 1)[l]);
        }
        if a[n - 1] == b[n - 1] {
            assert(a.take(n) =~= b.take(n));
        }
        n - 1
    } else {
        lemma_first_difference(a, b, n - 1)
    }
}

/// The part of a value that belongs to an element: of an array the part at the
/// subscripts, of a literal the literal itself, of anything else the value with
/// the subscripts behind it.
pub open spec fn element_value(value: ExprView, subs: Seq<i64>) -> ExprView
    decreases subs.len(),
{
    if subs.len() == 0 || value.node is Literal {
        value
    } else if value.node is Array && 1 <= subs[0] <= value.args.len() {
        element_value(value.args[subs[0] - 1], subs.skip(1))
    } else {
        ExprView {
            node: NodeView::Index,
            args: seq![value] + index_subscripts(subs, value.span),
            span: value.span,
        }
    }
}

/// What a modification of an array says of an element: the same for each, else
/// the element's part of the value.
pub open spec fn element_modification(m: ModificationView, subs: Seq<i64>) -> ModificationView {
    if m.each {
        m
    } else {
        ModificationView { value: element_value(m.value, subs), ..m }
    }
}

/// The element of an array value at some subscripts is the item that they lead to, one
/// subscript after the other. A literal is the value of every element, and of any other value
/// the element is the value with the subscripts behind it.
pub proof fn law_values_are_taken_apart(value: ExprView, i: i64, j: i64, subs: Seq<i64>, k: int)
    requires
        0 <= k < subs.len(),
    ensures
        value.node is Array && 1 <= i <= value.args.len() ==> element_value(value, seq![i])
            == value.args[i - 1],
        value.node is Array && 1 <= i <= value.args.len() && value.args[i - 1].node is Array && 1
            <= j <= value.args[i - 1].args.len() ==> element_value(value, seq![i, j])
            == value.args[i - 1].args[j - 1],
        value.node is Array && 1 <= i <= value.args.len() ==> element_value(value, seq![i] + subs)
            == element_value(value.args[i - 1], subs),
        value.node is Literal ==> element_value(value, subs) == value,
        !(value.node is Literal) && !(value.node is Array) ==> {
            let picked = element_value(value, subs);
            &&& picked.node is Index
            &&& picked.args.len() == 1 + subs.len()
            &&& picked.args[0] == value
            &&& picked.args[1 + k].node == NodeView::SubscriptIndex(subs[k])
        },
{
    reveal_with_fuel(element_value, 3);
    assert(seq![i].skip(1) =~= Seq::empty());
    assert(seq![i, j].skip(1) =~= seq![j]);
    assert(seq![j].skip(1) =~= Seq::empty());
    assert((seq![i] + subs).skip(1) =~= subs);
}

/// A modification that is said of each element is the same for all of them. Of any other an
/// element gets its part of the value, and all else stays as it is said.
pub proof fn law_elements_get_their_part(m: ModificationView, subs: Seq<i64>)
    ensures
        m.each ==> element_modification(m, subs) == m,
        !m.each ==> element_modification(m, subs).value == element_value(m.value, subs),
        element_modification(m, subs) == (ModificationView {
            value: element_modification(m, subs).value,
            ..m
        }),
{
}

/// What the modifications that an array says itself say of an element.
pub open spec fn element_modifications(
    own: Seq<Entry<ModificationView>>,
    subs: Seq<i64>,
) -> Seq<Entry<ModificationView>> {
    own.map_values(|e: Entry<ModificationView>| (e.0, element_modification(e.1, subs)))
}

/// An element of an array of components.
pub open spec fn element_component(comp: ComponentView, subs: Seq<i64>) -> ComponentView {
    ComponentView {
        dims: Seq::empty(),
        dims_expr: Seq::empty(),
        binding: match comp.binding {
            Some(value) => Some(element_value(value, subs)),
            None => None,
        },
        modifications: element_modifications(comp.modifications, subs),
        ..comp
    }
}

/// The modifications with what the first `n` of them, where they are about an
/// array, say of one of its elements. What is said of the element itself stays.
pub open spec fn with_element(
    mods: Seq<Entry<ModificationView>>,
    array: Seq<PartView>,
    element: Seq<PartView>,
    subs: Seq<i64>,
    n: int,
) -> Seq<Entry<ModificationView>>
    decreases n,
{
    if n <= 0 {
        mods
    } else {
        let before = with_element(mods, array, element, subs, n - 1);
        let entry = mods[n - 1];
        if is_at_or_inside(entry.0, array) {
            with_modification(
                before,
                element + entry.0.skip(array.len() as int),
                element_modification(entry.1, subs),
            )
        } else {
            before
        }
    }
}

/// The modifications around an element of an array.
pub open spec fn mods_at_element(
    mods: Seq<Entry<ModificationView>>,
    array: Seq<PartView>,
    element: Seq<PartView>,
    subs: Seq<i64>,
) -> Seq<Entry<ModificationView>> {
    with_element(mods, array, element, subs, mods.len() as int)
}

/// What is said around an array stands before what it says of an element.
pub proof fn lemma_element_comes_after(
    mods: Seq<Entry<ModificationView>>,
    array: Seq<PartView>,
    element: Seq<PartView>,
    subs: Seq<i64>,
    n: int,
)
    requires
        0 <= n <= mods.len(),
    ensures
        with_element(mods, array, element, subs, n).len() >= mods.len(),
        with_element(mods, array, element, subs, n).take(mods.len() as int) == mods,
    decreases n,
{
    if n > 0 {
        lemma_element_comes_after(mods, array, element, subs, n - 1);
    }
    assert(with_element(mods, array, element, subs, n).take(mods.len() as int) =~= mods);
}

fn make_element_value(value: &Expression, subs: &Vec<i64>) -> (e: Expression)
    ensures
        e@ == element_value(value@, subs@),
{
    let mut part = value;
    let mut k: usize = 0;
    assert(subs@.skip(0) =~= subs@);
    loop
        invariant
            k <= subs@.len(),
            element_value(value@, subs@) == element_value(part@, subs@.skip(k as int)),
        decreases subs.len() - k,
    {
        let ghost rest = subs@.skip(k as int);
        proof {
            lemma_view_args(*part);
        }
        let is_literal: bool = match &part.node {
            Node::Literal(_) => true,
            _ => false,
        };
        if k >= subs.len() || is_literal {
            return part.clone();
        }
        let is_array: bool = match &part.node {
            Node::Array { .. } => true,
            _ => false,
        };
        let at: i64 = subs[k];
        assert(rest[0] == at);
        if !is_array || at < 1 || at as u64 > part.args.len() as u64 {
            let mut left: Vec<i64> = Vec::new();
            let mut j: usize = k;
            while j < subs.len()
                invariant
                    k <= j <= subs@.len(),
                    left@ == subs@.subrange(k as int, j as int),
                decreases subs.len() - j,
            {
                left.push(subs[j]);
                j = j + 1;
                assert(left@ =~= subs@.subrange(k as int, j as int));
            }
            assert(left@ =~= rest);
            let mut args: Vec<Expression> = Vec::new();
            args.push(part.clone());
            assert(expr_views(args@) =~= seq![part@]);
            let mut indices = make_index_subscripts(&left, part.span);
            let ghost all = expr_views(indices@);
            let ghost front = expr_views(args@);
            args.append(&mut indices);
            assert(expr_views(args@) =~= front + all);
            return Expression::new(Node::Index, args, part.span);
        }
        part = &part.args[at as usize - 1];
        assert(rest.skip(1) =~= subs@.skip(k as int + 1));
        k = k + 1;
    }
}

fn make_element_modification(m: &ModificationValue, subs: &Vec<i64>) -> (r: ModificationValue)
    ensures
        r@ == element_modification(m@, subs@),
{
    let mut r = m.clone();
    if !m.each {
        r.value = make_element_value(&m.value, subs);
    }
    r
}

/// An element of an array of components.
pub fn make_element(comp: &Component, subs: &Vec<i64>) -> (c: Component)
    requires
        comp.wf(),
    ensures
        c.wf(),
        c@ == element_component(comp@, subs@),
{
    let mut modifications: Vec<(QualifiedName, ModificationValue)> = Vec::new();
    let ghost own = element_modifications(comp@.modifications, subs@);
    let mut i: usize = 0;
    assert(said_modifications(modifications@) =~= own.take(0));
    while i < comp.modifications.len()
        invariant
            i <= comp.modifications@.len(),
            own == element_modifications(comp@.modifications, subs@),
            said_modifications(modifications@) == own.take(i as int),
        decreases comp.modifications.len() - i,
    {
        let ghost before = said_modifications(modifications@);
        let new = make_element_modification(&comp.modifications[i].1, subs);
        modifications.push((comp.modifications[i].0.clone(), new));
        assert(said_modifications(modifications@) =~= before.push(own[i as int]));
        i = i + 1;
        assert(said_modifications(modifications@) =~= own.take(i as int));
    }
    assert(own.take(i as int) =~= own);
    let mut c = copy_component(comp);
    c.dims = Vec::new();
    c.dims_expr = Vec::new();
    c.binding = match &comp.binding {
        Some(value) => Some(make_element_value(value, subs)),
        None => None,
    };
    c.modifications = modifications;
    proof {
        let expected = element_component(comp@, subs@);
        assert(c@.dims =~= expected.dims);
        assert(c@.dims_expr =~= expected.dims_expr);
        assert(c@.attributes == comp@.attributes);
    }
    c
}

/// Subscripts as signed numbers.
pub fn make_element_subscripts(subs: &Vec<usize>) -> (r: Vec<i64>)
    ensures
        r@ == subs@.map_values(|s: usize| s as i64),
{
    let ghost all = subs@.map_values(|s: usize| s as i64);
    let mut r: Vec<i64> = Vec::new();
    let mut i: usize = 0;
    while i < subs.len()
        invariant
            i <= subs@.len(),
            all == subs@.map_values(|s: usize| s as i64),
            r@ == all.take(i as int),
        decreases subs.len() - i,
    {
        r.push(subs[i] as i64);
        i = i + 1;
        assert(r@ =~= all.take(i as int));
    }
    assert(all.take(i as int) =~= all);
    r
}

fn is_prefix(key: &Vec<(String, Vec<i64>)>, array: &QualifiedName) -> (r: bool)
    ensures
        r == is_at_or_inside(path_view(key@), array@),
{
    let n: usize = array.parts.len();
    if key.len() < n {
        return false;
    }
    let head = QualifiedName { parts: copy_parts(key, 0, n) };
    assert(head@ =~= path_view(key@).take(n as int));
    head.same_path(array)
}

/// Adds what the modifications around an array say of one of its elements.
pub fn add_element_modifications(
    ctx: &mut InstantiateContext,
    array: &QualifiedName,
    element: &QualifiedName,
    subs: &Vec<i64>,
)
    requires
        old(ctx).wf(),
    ensures
        final(ctx).wf(),
        final(ctx).same_but_mods(*old(ctx)),
        final(ctx).mods() == mods_at_element(old(ctx).mods(), array@, element@, subs@),
{
    let ghost mods = ctx.mods();
    let count: usize = ctx.modification_count();
    let mut i: usize = 0;
    while i < count
        invariant
            ctx.wf(),
            ctx.same_but_mods(*old(ctx)),
            mods == old(ctx).mods(),
            count == mods.len(),
            i <= count,
            ctx.mods() == with_element(mods, array@, element@, subs@, i as int),
        decreases count - i,
    {
        proof {
            lemma_element_comes_after(mods, array@, element@, subs@, i as int);
            assert(ctx.mods().take(mods.len() as int)[i as int] == ctx.mods()[i as int]);
            assert(ctx.mod_env.entries().len() == ctx.mods().len());
        }
        let key = ctx.mod_env.active.key_at(i);
        assert(path_view(key@) == mods[i as int].0);
        if is_prefix(key, array) {
            let n: usize = array.parts.len();
            let rest = QualifiedName { parts: copy_parts(key, n, key.len()) };
            assert(rest@ =~= mods[i as int].0.skip(n as int));
            let new = make_element_modification(ctx.mod_env.active.value_at(i), subs);
            assert(new@ == element_modification(mods[i as int].1, subs@));
            let target = element.join(&rest);
            ctx.add_modification(target, new);
        }
        i = i + 1;
    }
}

} // verus!
