//! Keys of array elements tell the elements apart.
use crate::dae::shape::{
    countable, element_count, flat_position, ints_of, lemma_position_has_subscripts, nats_of,
    position_subscripts, scalar_name_text, subscript_key_text,
};
use crate::text::{digit_text, join_text, nat_text};
use vstd::prelude::*;

verus! {

/// What a text of decimal digits counts.
pub open spec fn digits_value(t: Seq<char>) -> int
    decreases t.len(),
{
    if t.len() == 0 {
        0
    } else {
        digits_value(t.drop_last()) * 10 + (t.last() as int - '0' as int)
    }
}

/// Whether a text holds no comma and is not empty.
pub open spec fn is_item(t: Seq<char>) -> bool {
    t.len() > 0 && forall|i: int| 0 <= i < t.len() ==> #[trigger] t[i] != ','
}

proof fn lemma_digit(d: nat)
    requires
        d < 10,
    ensures
        digit_text(d).len() == 1,
        digit_text(d)[0] as int == '0' as int + d,
{
    reveal_strlit("0");
    reveal_strlit("1");
    reveal_strlit("2");
    reveal_strlit("3");
    reveal_strlit("4");
    reveal_strlit("5");
    reveal_strlit("6");
    reveal_strlit("7");
    reveal_strlit("8");
    reveal_strlit("9");
}

proof fn lemma_nat_text(n: nat)
    ensures
        is_item(nat_text(n)),
        digits_value(nat_text(n)) == n,
    decreases n,
{
    let t = nat_text(n);
    if n < 10 {
        lemma_digit(n);
        assert(t.drop_last() =~= Seq::<char>::empty());
        assert(digits_value(t.drop_last()) == 0);
    } else {
        lemma_nat_text(n / 10);
        lemma_digit(n % 10);
        assert(t.drop_last() =~= nat_text(n / 10));
        assert(t.last() == digit_text(n % 10)[0]);
        assert forall|i: int| 0 <= i < t.len() implies #[trigger] t[i] != ',' by {
            if i < t.len() - 1 {
                assert(t[i] == nat_text(n / 10)[i]);
            }
        }
    }
}

proof fn lemma_join_is_not_empty(parts: Seq<Seq<char>>)
    requires
        parts.len() > 0,
        forall|i: int| 0 <= i < parts.len() ==> is_item(#[trigger] parts[i]),
    ensures
        join_text(parts, ","@).len() > 0,
{
    assert(is_item(parts[parts.len() - 1]));
}

proof fn lemma_last_items(a: Seq<Seq<char>>, b: Seq<Seq<char>>)
    requires
        a.len() > 1,
        b.len() > 0,
        forall|i: int| 0 <= i < a.len() ==> is_item(#[trigger] a[i]),
        forall|i: int| 0 <= i < b.len() ==> is_item(#[trigger] b[i]),
        join_text(a, ","@) == join_text(b, ","@),
    ensures
        b.len() > 1,
        a.last().len() >= b.last().len(),
{
    reveal_strlit(",");
    let s = join_text(a, ","@);
    let at = join_text(a.drop_last(), ","@).len() as int;
    assert(s[at] == ',');
    assert(is_item(b[b.len() - 1]));
    if b.len() == 1 {
        assert(s == b[0]);
        assert(b[0][at] != ',');
    } else if a.last().len() < b.last().len() {
        let start = s.len() - b.last().len();
        assert(s[at] == b.last()[at - start]);
    }
}

/// Lists of texts without commas are told apart by what they are joined to.
pub proof fn law_joined_items_differ(a: Seq<Seq<char>>, b: Seq<Seq<char>>)
    requires
        forall|i: int| 0 <= i < a.len() ==> is_item(#[trigger] a[i]),
        forall|i: int| 0 <= i < b.len() ==> is_item(#[trigger] b[i]),
    ensures
        join_text(a, ","@) == join_text(b, ","@) <==> a == b,
    decreases a.len(),
{
    if join_text(a, ","@) == join_text(b, ","@) {
        if a.len() == 0 || b.len() == 0 {
            if a.len() > 0 {
                lemma_join_is_not_empty(a);
            }
            if b.len() > 0 {
                lemma_join_is_not_empty(b);
            }
            assert(a =~= b);
        } else if a.len() == 1 && b.len() == 1 {
            assert(a =~= b);
        } else {
            if a.len() > 1 {
                lemma_last_items(a, b);
            } else {
                lemma_last_items(b, a);
            }
            lemma_last_items(b, a);
            reveal_strlit(",");
            let s = join_text(a, ","@);
            let front = s.len() - a.last().len() - 1;
            assert(join_text(a.drop_last(), ","@) =~= s.take(front));
            assert(join_text(b.drop_last(), ","@) =~= s.take(front));
            assert(a.last() =~= s.skip(front + 1));
            assert(b.last() =~= s.skip(front + 1));
            assert forall|i: int| 0 <= i < a.drop_last().len() implies is_item(
                #[trigger] a.drop_last()[i],
            ) by {
                assert(is_item(a[i]));
            }
            assert forall|i: int| 0 <= i < b.drop_last().len() implies is_item(
                #[trigger] b.drop_last()[i],
            ) by {
                assert(is_item(b[i]));
            }
            law_joined_items_differ(a.drop_last(), b.drop_last());
            assert(a =~= a.drop_last().push(a.last()));
            assert(b =~= b.drop_last().push(b.last()));
        }
    }
}

/// Different subscripts of one name have different keys.
pub proof fn law_subscript_keys_differ(name: Seq<char>, a: Seq<usize>, b: Seq<usize>)
    ensures
        subscript_key_text(name, a) == subscript_key_text(name, b) <==> a == b,
{
    if subscript_key_text(name, a) == subscript_key_text(name, b) {
        let x = a.map_values(|i: usize| nat_text(i as nat));
        let y = b.map_values(|i: usize| nat_text(i as nat));
        reveal_strlit("[");
        reveal_strlit("]");
        let s = subscript_key_text(name, a);
        let from = name.len() + 1;
        assert(join_text(x, ","@) =~= s.subrange(from as int, s.len() - 1));
        assert(join_text(y, ","@) =~= s.subrange(from as int, s.len() - 1));
        assert forall|i: int| 0 <= i < x.len() implies is_item(#[trigger] x[i]) by {
            lemma_nat_text(a[i] as nat);
        }
        assert forall|i: int| 0 <= i < y.len() implies is_item(#[trigger] y[i]) by {
            lemma_nat_text(b[i] as nat);
        }
        law_joined_items_differ(x, y);
        assert(a.len() == x.len() && b.len() == y.len());
        assert forall|i: int| 0 <= i < a.len() implies a[i] == b[i] by {
            lemma_nat_text(a[i] as nat);
            lemma_nat_text(b[i] as nat);
            assert(x[i] == y[i]);
        }
        assert(a =~= b);
    }
}

/// The subscripts by which the scalar at a position is named: those of the
/// position, or the one-based position itself where the shape does not have it.
pub open spec fn scalar_subscripts(dims: Seq<i64>, flat_index: usize) -> Seq<usize> {
    match position_subscripts(dims, flat_index) {
        Some(subs) => subs,
        None => seq![(flat_index + 1) as usize],
    }
}

/// The name of a scalar is the key of its subscripts.
pub proof fn law_scalar_name_is_key(name: Seq<char>, dims: Seq<i64>, flat_index: usize)
    requires
        flat_index < usize::MAX,
    ensures
        scalar_name_text(name, dims, flat_index) == subscript_key_text(
            name,
            scalar_subscripts(dims, flat_index),
        ),
{
    let subs = scalar_subscripts(dims, flat_index);
    if position_subscripts(dims, flat_index) is Some {
        lemma_position_has_subscripts(dims, flat_index);
        if subs.len() == 1 {
            let sizes = ints_of(dims);
            assert(sizes.drop_last().len() == 0);
            assert(flat_position(sizes.drop_last(), nats_of(subs).drop_last()) == 0);
            assert(flat_position(sizes, nats_of(subs)) == 0 * sizes.last() + (nats_of(subs).last()
                - 1));
            assert(nats_of(subs).last() == subs[0]);
            assert(subs[0] == flat_index + 1);
        }
    }
    if subs.len() <= 1 {
        assert(position_subscripts(dims, flat_index) is Some ==> subs.len() == dims.len());
        let texts = subs.map_values(|i: usize| nat_text(i as nat));
        assert(texts =~= seq![nat_text((flat_index + 1) as nat)]);
        assert(join_text(texts, ","@) == nat_text((flat_index + 1) as nat));
    }
}

/// Different elements of an array have different scalar names.
pub proof fn law_scalar_names_differ(name: Seq<char>, dims: Seq<i64>, i: usize, j: usize)
    requires
        dims.len() > 0,
        countable(dims),
        i < element_count(ints_of(dims)),
        j < element_count(ints_of(dims)),
        i < usize::MAX,
        j < usize::MAX,
    ensures
        scalar_name_text(name, dims, i) == scalar_name_text(name, dims, j) <==> i == j,
{
    law_scalar_name_is_key(name, dims, i);
    law_scalar_name_is_key(name, dims, j);
    law_subscript_keys_differ(name, scalar_subscripts(dims, i), scalar_subscripts(dims, j));
    lemma_position_has_subscripts(dims, i);
    lemma_position_has_subscripts(dims, j);
}

} // verus!
