//! Array shapes: sizes, subscripts of flat positions, scalar names.
use crate::text::{join_text, nat_text, owned, push_usize};
use vstd::prelude::*;

verus! {

/// Number of elements of a shape with these dimensions.
pub open spec fn element_count(dims: Seq<int>) -> int
    decreases dims.len(),
{
    if dims.len() == 0 {
        1
    } else {
        element_count(dims.drop_last()) * dims.last()
    }
}

/// Row-major position of one-based subscripts.
pub open spec fn flat_position(dims: Seq<int>, subs: Seq<int>) -> int
    decreases dims.len(),
{
    if dims.len() == 0 {
        0
    } else {
        flat_position(dims.drop_last(), subs.drop_last()) * dims.last() + (subs.last() - 1)
    }
}

/// Whether one-based subscripts lie inside a shape.
pub open spec fn in_shape(dims: Seq<int>, subs: Seq<int>) -> bool {
    &&& subs.len() == dims.len()
    &&& forall|i: int| 0 <= i < dims.len() ==> 1 <= #[trigger] subs[i] <= dims[i]
}

pub open spec fn ints_of(dims: Seq<i64>) -> Seq<int> {
    dims.map_values(|d: i64| d as int)
}

pub open spec fn nats_of(subs: Seq<usize>) -> Seq<int> {
    subs.map_values(|d: usize| d as int)
}

/// Whether every dimension is positive and can be counted.
pub open spec fn countable(dims: Seq<i64>) -> bool {
    forall|i: int| 0 <= i < dims.len() ==> 0 < #[trigger] dims[i] <= usize::MAX
}

/// Positions of a shape and its subscripts correspond: a position has at most
/// one set of subscripts, and subscripts inside the shape have a position
/// inside it.
pub proof fn law_flat_position_is_injective(dims: Seq<int>, a: Seq<int>, b: Seq<int>)
    requires
        in_shape(dims, a),
        in_shape(dims, b),
        flat_position(dims, a) == flat_position(dims, b),
    ensures
        a == b,
    decreases dims.len(),
{
    if dims.len() == 0 {
        assert(a =~= b);
    } else {
        let d = dims.last();
        let pa = flat_position(dims.drop_last(), a.drop_last());
        let pb = flat_position(dims.drop_last(), b.drop_last());
        let ra = a.last() - 1;
        let rb = b.last() - 1;
        assert(a[dims.len() - 1] <= d && b[dims.len() - 1] <= d);
        assert(pa == pb && ra == rb) by (nonlinear_arith)
            requires
                pa * d + ra == pb * d + rb,
                0 <= ra < d,
                0 <= rb < d,
        ;
        assert(in_shape(dims.drop_last(), a.drop_last()));
        assert(in_shape(dims.drop_last(), b.drop_last()));
        law_flat_position_is_injective(dims.drop_last(), a.drop_last(), b.drop_last());
        assert(a =~= a.drop_last().push(a.last()));
        assert(b =~= b.drop_last().push(b.last()));
    }
}

/// Subscripts inside a shape have a position inside it.
pub proof fn law_flat_position_is_inside(dims: Seq<int>, subs: Seq<int>)
    requires
        in_shape(dims, subs),
    ensures
        0 <= flat_position(dims, subs) < element_count(dims),
    decreases dims.len(),
{
    if dims.len() > 0 {
        let d = dims.last();
        assert(1 <= subs[dims.len() - 1] <= d);
        assert(in_shape(dims.drop_last(), subs.drop_last()));
        law_flat_position_is_inside(dims.drop_last(), subs.drop_last());
        let p = flat_position(dims.drop_last(), subs.drop_last());
        let n = element_count(dims.drop_last());
        let r = subs.last() - 1;
        assert(0 <= p * d + r < n * d) by (nonlinear_arith)
            requires
                0 <= p < n,
                0 <= r < d,
        ;
    }
}

/// Positions go row by row: of two sets of subscripts, the one that is smaller where they
/// first differ has the smaller position.
pub proof fn law_positions_go_row_by_row(dims: Seq<int>, a: Seq<int>, b: Seq<int>, i: int)
    requires
        in_shape(dims, a),
        in_shape(dims, b),
        0 <= i < dims.len(),
        forall|j: int| 0 <= j < i ==> #[trigger] a[j] == b[j],
        a[i] < b[i],
    ensures
        flat_position(dims, a) < flat_position(dims, b),
    decreases dims.len(),
{
    let n = dims.len() - 1;
    let d = dims.last();
    let pa = flat_position(dims.drop_last(), a.drop_last());
    let pb = flat_position(dims.drop_last(), b.drop_last());
    let ra = a.last() - 1;
    let rb = b.last() - 1;
    assert(1 <= a[n] <= d && 1 <= b[n] <= d);
    if i == n {
        assert(a.drop_last() =~= b.drop_last());
    } else {
        law_positions_go_row_by_row(dims.drop_last(), a.drop_last(), b.drop_last(), i);
        assert(pa * d + ra < pb * d + rb) by (nonlinear_arith)
            requires
                pa < pb,
                0 <= ra < d,
                0 <= rb,
        ;
    }
}

proof fn lemma_split_position(dims: Seq<int>, k: int)
    requires
        0 < k <= dims.len(),
    ensures
        element_count(dims.take(k)) == element_count(dims.take(k - 1)) * dims[k - 1],
{
    assert(dims.take(k).drop_last() =~= dims.take(k - 1));
}

/// The one-based subscripts of a zero-based row-major position.
///
/// Nothing comes back for a scalar, for a dimension that is not positive or
/// cannot be counted, and for a position outside the shape.
pub fn flat_index_to_subscripts(dims: &[i64], flat_index: usize) -> (r: Option<Vec<usize>>)
    ensures
        match r {
            Some(subs) => {
                &&& dims@.len() > 0
                &&& countable(dims@)
                &&& in_shape(ints_of(dims@), nats_of(subs@))
                &&& flat_position(ints_of(dims@), nats_of(subs@)) == flat_index
            },
            None => dims@.len() == 0 || !countable(dims@) || flat_index >= element_count(
                ints_of(dims@),
            ),
        },
{
    let n: usize = dims.len();
    if n == 0 {
        return None;
    }
    let mut i: usize = 0;
    while i < n
        invariant
            i <= n,
            n == dims@.len(),
            forall|k: int| 0 <= k < i ==> 0 < #[trigger] dims@[k] <= usize::MAX,
        decreases n - i,
    {
        if dims[i] <= 0 || dims[i] as u64 > usize::MAX as u64 {
            assert(!(0 < dims@[i as int] <= usize::MAX));
            return None;
        }
        i = i + 1;
    }
    let ghost sizes = ints_of(dims@);
    let mut subscripts: Vec<usize> = Vec::new();
    let mut fill: usize = 0;
    while fill < n
        invariant
            fill <= n,
            subscripts@.len() == fill,
        decreases n - fill,
    {
        subscripts.push(1);
        fill = fill + 1;
    }
    let mut remainder: usize = flat_index;
    let mut left: usize = n;
    assert(sizes.take(n as int) =~= sizes);
    let ghost mut tail: int = 0;
    let ghost mut scale: int = 1;
    assert forall|subs: Seq<int>| subs.len() == n implies #[trigger] flat_position(sizes, subs)
        == flat_position(sizes.take(n as int), subs.take(n as int)) * 1 + 0 by {
        assert(subs.take(n as int) =~= subs);
    }
    while left > 0
        invariant
            left <= n,
            n == dims@.len(),
            subscripts@.len() == n,
            sizes == ints_of(dims@),
            forall|k: int| 0 <= k < n ==> 0 < #[trigger] dims@[k] <= usize::MAX,
            forall|k: int| left <= k < n ==> 1 <= #[trigger] subscripts@[k] <= dims@[k],
            0 <= tail < scale,
            flat_index == remainder * scale + tail,
            element_count(sizes.take(left as int)) * scale == element_count(sizes),
            forall|subs: Seq<int>|
                #![trigger flat_position(sizes, subs)]
                subs.len() == n && (forall|k: int|
                    left <= k < n ==> #[trigger] subs[k] == subscripts@[k]) ==> flat_position(
                    sizes,
                    subs,
                ) == flat_position(sizes.take(left as int), subs.take(left as int)) * scale + tail,
        decreases left,
    {
        let ghost old_left = left as int;
        let ghost old_scale = scale;
        let ghost old_tail = tail;
        let ghost old_remainder = remainder as int;
        let ghost old_subscripts = subscripts@;
        left = left - 1;
        assert(0 < dims@[left as int] <= usize::MAX);
        let dim: usize = dims[left] as usize;
        let digit: usize = remainder % dim;
        subscripts.set(left, digit + 1);
        remainder = remainder / dim;
        proof {
            let d = dim as int;
            lemma_split_position(sizes, old_left);
            assert(sizes[left as int] == d);
            tail = digit as int * old_scale + old_tail;
            scale = d * old_scale;
            assert(old_remainder == remainder as int * d + digit as int) by {
                vstd::arithmetic::div_mod::lemma_fundamental_div_mod(old_remainder, d);
                assert(d * (remainder as int) == remainder as int * d) by (nonlinear_arith);
            }
            assert(0 <= tail < scale) by (nonlinear_arith)
                requires
                    0 <= old_tail < old_scale,
                    0 <= digit as int,
                    (digit as int) < d,
                    tail == digit as int * old_scale + old_tail,
                    scale == d * old_scale,
            ;
            assert(flat_index as int == remainder as int * scale + tail) by (nonlinear_arith)
                requires
                    flat_index as int == old_remainder * old_scale + old_tail,
                    old_remainder == remainder as int * d + digit as int,
                    tail == digit as int * old_scale + old_tail,
                    scale == d * old_scale,
            ;
            let head = element_count(sizes.take(left as int));
            assert(head * scale == element_count(sizes)) by (nonlinear_arith)
                requires
                    (head * d) * old_scale == element_count(sizes),
                    scale == d * old_scale,
            ;
            assert forall|subs: Seq<int>|
                #![trigger flat_position(sizes, subs)]
                subs.len() == n && (forall|k: int|
                    left <= k < n ==> #[trigger] subs[k] == subscripts@[k]) implies flat_position(
                sizes,
                subs,
            ) == flat_position(sizes.take(left as int), subs.take(left as int)) * scale + tail by {
                assert forall|k: int| old_left <= k < n implies #[trigger] subs[k]
                    == old_subscripts[k] by {
                    assert(subs[k] == subscripts@[k]);
                }
                assert(subs[left as int] == subscripts@[left as int]);
                assert(sizes.take(old_left).drop_last() =~= sizes.take(left as int));
                assert(subs.take(old_left).drop_last() =~= subs.take(left as int));
                let p = flat_position(sizes.take(left as int), subs.take(left as int));
                assert(flat_position(sizes.take(old_left), subs.take(old_left)) == p * d + digit);
                assert((p * d + digit as int) * old_scale + old_tail == p * scale + tail)
                    by (nonlinear_arith)
                    requires
                        tail == digit as int * old_scale + old_tail,
                        scale == d * old_scale,
                ;
            }
        }
    }
    proof {
        assert(element_count(sizes.take(0)) == 1);
        assert(scale == element_count(sizes)) by (nonlinear_arith)
            requires
                1 * scale == element_count(sizes),
        ;
    }
    if remainder != 0 {
        assert(flat_index as int >= scale) by (nonlinear_arith)
            requires
                flat_index as int == remainder as int * scale + tail,
                remainder as int >= 1,
                0 <= tail < scale,
        ;
        return None;
    }
    proof {
        let subs = nats_of(subscripts@);
        assert(flat_position(sizes, subs) == flat_position(sizes.take(0), subs.take(0)) * scale
            + tail);
        assert(flat_position(sizes.take(0), subs.take(0)) == 0);
        assert(flat_index == tail) by (nonlinear_arith)
            requires
                flat_index as int == remainder as int * scale + tail,
                remainder == 0,
        ;
        assert(0 * scale == 0);
        assert forall|k: int| 0 <= k < sizes.len() implies 1 <= #[trigger] subs[k] <= sizes[k] by {
            assert(1 <= subscripts@[k] <= dims@[k]);
        }
    }
    Some(subscripts)
}

/// A name with subscripts in brackets.
pub open spec fn subscript_key_text(name: Seq<char>, subs: Seq<usize>) -> Seq<char> {
    name + "["@ + join_text(subs.map_values(|i: usize| nat_text(i as nat)), ","@) + "]"@
}

/// A name with subscripts in brackets.
pub fn format_subscript_key(name: &str, subscripts: &[usize]) -> (s: String)
    ensures
        s@ == subscript_key_text(name@, subscripts@),
{
    let ghost texts = subscripts@.map_values(|i: usize| nat_text(i as nat));
    let mut out = owned(name);
    out.append("[");
    let ghost head = out@;
    let mut i: usize = 0;
    assert(out@ =~= head + join_text(texts.take(0), ","@));
    while i < subscripts.len()
        invariant
            i <= subscripts.len(),
            texts == subscripts@.map_values(|i: usize| nat_text(i as nat)),
            out@ == head + join_text(texts.take(i as int), ","@),
        decreases subscripts.len() - i,
    {
        assert(texts.take(i as int + 1).drop_last() =~= texts.take(i as int));
        if i > 0 {
            out.append(",");
        }
        push_usize(&mut out, subscripts[i]);
        i = i + 1;
        assert(out@ =~= head + join_text(texts.take(i as int), ","@));
    }
    assert(texts.take(i as int) =~= texts);
    out.append("]");
    out
}

/// The subscripts of a position, where the shape has it.
pub open spec fn position_subscripts(dims: Seq<i64>, flat_index: usize) -> Option<Seq<usize>> {
    if dims.len() > 0 && countable(dims) && flat_index < element_count(ints_of(dims)) {
        Some(
            choose|subs: Seq<usize>|
                in_shape(ints_of(dims), nats_of(subs)) && #[trigger] flat_position(
                    ints_of(dims),
                    nats_of(subs),
                ) == flat_index,
        )
    } else {
        None
    }
}

/// Every position inside a shape has subscripts.
pub proof fn lemma_positions_have_subscripts(dims: Seq<int>, k: int)
    requires
        0 <= k < element_count(dims),
        forall|i: int| 0 <= i < dims.len() ==> 0 < #[trigger] dims[i],
    ensures
        exists|subs: Seq<int>| in_shape(dims, subs) && #[trigger] flat_position(dims, subs) == k,
    decreases dims.len(),
{
    if dims.len() == 0 {
        let subs = Seq::<int>::empty();
        assert(in_shape(dims, subs) && flat_position(dims, subs) == k);
    } else {
        let front = dims.drop_last();
        let d = dims.last();
        assert(dims[dims.len() - 1] > 0);
        vstd::arithmetic::div_mod::lemma_fundamental_div_mod(k, d);
        let n = element_count(front);
        assert(0 <= k / d < n) by (nonlinear_arith)
            requires
                0 <= k < n * d,
                d > 0,
                k == d * (k / d) + k % d,
                0 <= k % d < d,
        ;
        assert forall|i: int| 0 <= i < front.len() implies 0 < #[trigger] front[i] by {
            assert(dims[i] > 0);
        }
        lemma_positions_have_subscripts(front, k / d);
        let head = choose|subs: Seq<int>|
            in_shape(front, subs) && #[trigger] flat_position(front, subs) == k / d;
        let subs = head.push(k % d + 1);
        assert(subs.drop_last() =~= head);
        assert(in_shape(dims, subs)) by {
            assert forall|i: int| 0 <= i < dims.len() implies 1 <= #[trigger] subs[i]
                <= dims[i] by {
                if i < front.len() {
                    assert(1 <= head[i] <= front[i]);
                }
            }
        }
        assert((k / d) * d + k % d == k) by (nonlinear_arith)
            requires
                k == d * (k / d) + k % d,
        ;
        assert(flat_position(dims, subs) == k);
    }
}

/// Subscripts inside a shape are those of their position.
pub proof fn lemma_position_subscripts(dims: Seq<i64>, flat_index: usize, subs: Seq<usize>)
    requires
        dims.len() > 0,
        countable(dims),
        in_shape(ints_of(dims), nats_of(subs)),
        flat_position(ints_of(dims), nats_of(subs)) == flat_index,
    ensures
        position_subscripts(dims, flat_index) == Some(subs),
{
    let sizes = ints_of(dims);
    let given = nats_of(subs);
    law_flat_position_is_inside(sizes, given);
    let chosen = position_subscripts(dims, flat_index)->0;
    law_flat_position_is_injective(sizes, given, nats_of(chosen));
    assert(subs =~= chosen) by {
        assert forall|k: int| 0 <= k < given.len() implies subs[k] == chosen[k] by {
            assert(given[k] == subs[k] && nats_of(chosen)[k] == chosen[k]);
        }
        assert(given.len() == subs.len());
        assert(nats_of(chosen).len() == chosen.len());
    }
}

/// A position inside a shape has subscripts inside it, and is theirs.
pub proof fn lemma_position_has_subscripts(dims: Seq<i64>, flat_index: usize)
    requires
        position_subscripts(dims, flat_index) is Some,
    ensures
        in_shape(ints_of(dims), nats_of(position_subscripts(dims, flat_index)->0)),
        flat_position(ints_of(dims), nats_of(position_subscripts(dims, flat_index)->0))
            == flat_index,
{
    let sizes = ints_of(dims);
    assert forall|i: int| 0 <= i < sizes.len() implies 0 < #[trigger] sizes[i] by {
        assert(dims[i] > 0);
    }
    lemma_positions_have_subscripts(sizes, flat_index as int);
    let found = choose|subs: Seq<int>|
        in_shape(sizes, subs) && #[trigger] flat_position(sizes, subs) == flat_index;
    let subs = found.map_values(|i: int| i as usize);
    assert(nats_of(subs) =~= found) by {
        assert forall|i: int| 0 <= i < found.len() implies nats_of(subs)[i] == found[i] by {
            assert(1 <= found[i] <= sizes[i]);
            assert(dims[i] <= usize::MAX);
        }
    }
    assert(in_shape(sizes, nats_of(subs)) && flat_position(sizes, nats_of(subs)) == flat_index);
}

/// Name of the scalar at a position: the name with its subscripts where the
/// shape has several dimensions, else with the one-based position.
pub open spec fn scalar_name_text(name: Seq<char>, dims: Seq<i64>, flat_index: usize) -> Seq<char> {
    match position_subscripts(dims, flat_index) {
        Some(subs) => if subs.len() > 1 {
            subscript_key_text(name, subs)
        } else {
            name + "["@ + nat_text((flat_index + 1) as nat) + "]"@
        },
        None => name + "["@ + nat_text((flat_index + 1) as nat) + "]"@,
    }
}

/// Name of the scalar at a zero-based position of an array.
pub fn scalar_name_text_for_flat_index(name: &str, dims: &[i64], flat_index: usize) -> (s: String)
    requires
        flat_index < usize::MAX,
    ensures
        s@ == scalar_name_text(name@, dims@, flat_index),
{
    if let Some(subscripts) = flat_index_to_subscripts(dims, flat_index) {
        proof {
            lemma_position_subscripts(dims@, flat_index, subscripts@);
        }
        if subscripts.len() > 1 {
            return format_subscript_key(name, subscripts.as_slice());
        }
    }
    let mut out = owned(name);
    out.append("[");
    push_usize(&mut out, flat_index + 1);
    out.append("]");
    out
}

} // verus!
