//! Values as they are shown for people.
use crate::codegen::value::{
    lemma_view_items, value_views, KindView, TemplateValue, ValueKind, ValueView,
};
use crate::text::{int_text, owned, push_wide_int, views};
use vstd::prelude::*;

verus! {

/// The text of a value. Texts stand in quotes inside lists and records.
pub open spec fn shown(v: ValueView, inside: bool) -> Seq<char>
    decreases v, v.items.len() + 1,
{
    match v.kind {
        KindView::Undefined => ""@,
        KindView::Null => "none"@,
        KindView::Bool(b) => if b {
            "true"@
        } else {
            "false"@
        },
        KindView::Integer(i) => int_text(i as int),
        KindView::Number(s) => s,
        KindView::Text(s) => if inside {
            "\""@ + s + "\""@
        } else {
            s
        },
        KindView::List => "["@ + shown_items(v, v.items.len() as int) + "]"@,
        KindView::Record => "{"@ + shown_items(v, v.items.len() as int) + "}"@,
    }
}

/// The first `n` items, separated by commas, with their names where they have
/// any.
pub open spec fn shown_items(v: ValueView, n: int) -> Seq<char>
    decreases v, n,
{
    if n <= 0 || n > v.items.len() {
        ""@
    } else {
        let front = shown_items(v, n - 1);
        let separated = if n == 1 {
            front
        } else {
            front + ", "@
        };
        let labelled = if v.kind is Record && n <= v.names.len() {
            separated + "\""@ + v.names[n - 1] + "\": "@
        } else {
            separated
        };
        labelled + shown(v.items[n - 1], true)
    }
}

fn show_items(v: &TemplateValue, is_record: bool) -> (s: String)
    requires
        is_record == (v@.kind is Record),
    ensures
        s@ == shown_items(v@, v@.items.len() as int),
    decreases v, v.items@.len(),
{
    proof {
        lemma_view_items(*v);
    }
    let mut s = owned("");
    let mut i: usize = 0;
    while i < v.items.len()
        invariant
            i <= v.items@.len(),
            is_record == (v@.kind is Record),
            v@.items == value_views(v.items@),
            v@.names == views(v.names@),
            v@.names.len() == v.names@.len(),
            s@ == shown_items(v@, i as int),
        decreases v.items.len() - i,
    {
        if i > 0 {
            s.append(", ");
        }
        if is_record && i < v.names.len() {
            assert(v@.names[i as int] == v.names@[i as int]@);
            s.append("\"");
            s.append(v.names[i].as_str());
            s.append("\": ");
        }
        s.append(show_value(&v.items[i], true).as_str());
        i = i + 1;
    }
    s
}

/// The text of a value.
pub fn show_value(v: &TemplateValue, inside: bool) -> (s: String)
    ensures
        s@ == shown(v@, inside),
    decreases v, v.items@.len() + 1,
{
    proof {
        lemma_view_items(*v);
    }
    match &v.kind {
        ValueKind::Undefined => owned(""),
        ValueKind::Null => owned("none"),
        ValueKind::Bool(b) => {
            if *b {
                owned("true")
            } else {
                owned("false")
            }
        },
        ValueKind::Integer(i) => {
            let mut s = String::new();
            push_wide_int(&mut s, *i);
            assert(s@ =~= int_text(*i as int));
            s
        },
        ValueKind::Number(s) => s.clone(),
        ValueKind::Text(s) => {
            if inside {
                let mut quoted = owned("\"");
                quoted.append(s.as_str());
                quoted.append("\"");
                quoted
            } else {
                s.clone()
            }
        },
        ValueKind::List => {
            let mut s = owned("[");
            s.append(show_items(v, false).as_str());
            s.append("]");
            s
        },
        ValueKind::Record => {
            let mut s = owned("{");
            s.append(show_items(v, true).as_str());
            s.append("}");
            s
        },
    }
}

} // verus!
