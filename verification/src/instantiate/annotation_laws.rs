//! What annotations ask for.
use crate::instantiate::annotation::{
    asks_evaluate, lower, marks_trainable, same_but_case, some_marks_trainable, to_evaluate,
    to_train, tool_trainable, AnnotationKindView, AnnotationView,
};
use vstd::prelude::*;

verus! {

/// Whether two characters are the same letter in two cases.
pub open spec fn are_cases(a: char, b: char) -> bool {
    ||| 'A' <= a <= 'Z' && b as int == a as int + 32
    ||| 'A' <= b <= 'Z' && a as int == b as int + 32
}

/// Texts that are the same but for case have the same characters, or the same letters in two
/// cases, one for one.
pub proof fn law_case_is_all_that_differs(a: Seq<char>, b: Seq<char>)
    ensures
        same_but_case(a, b) <==> a.len() == b.len() && forall|i: int|
            0 <= i < a.len() ==> #[trigger] a[i] == b[i] || are_cases(a[i], b[i]),
{
    if same_but_case(a, b) {
        assert forall|i: int| 0 <= i < a.len() implies #[trigger] a[i] == b[i] || are_cases(
            a[i],
            b[i],
        ) by {
            assert(lower(a[i]) == lower(b[i]));
        }
    } else if a.len() == b.len() {
        let i = choose|i: int| 0 <= i < a.len() && lower(#[trigger] a[i]) != lower(b[i]);
        assert(a[i] != b[i]);
        assert(!are_cases(a[i], b[i]));
    }
}

/// Whether an annotation sets something to true: by an argument with a name, or by a
/// modification whose first segment is the name.
pub open spec fn sets_true(a: AnnotationView, name: Seq<char>) -> bool {
    &&& match a.kind {
        AnnotationKindView::NamedArgument { name: n } => n == name,
        AnnotationKindView::Modification { target } => target.len() > 0 && target.first() == name,
        _ => false,
    }
    &&& a.items.len() > 0
    &&& a.items.first().kind == AnnotationKindView::Boolean(true)
}

/// A component is evaluated where it is final or one of its annotations sets `Evaluate` to
/// true, and else not.
pub proof fn law_evaluation_is_asked_for(is_final: bool, annotations: Seq<AnnotationView>)
    ensures
        to_evaluate(is_final, annotations) <==> is_final || exists|i: int|
            0 <= i < annotations.len() && sets_true(#[trigger] annotations[i], "Evaluate"@),
{
    assert forall|i: int| 0 <= i < annotations.len() implies asks_evaluate(
        #[trigger] annotations[i],
    ) == sets_true(annotations[i], "Evaluate"@) by {}
}

/// Whether an annotation is one of the tool that holds items: its name ends with that of the
/// tool.
pub open spec fn is_tool_list(a: AnnotationView) -> bool {
    match a.kind {
        AnnotationKindView::ClassModification { target } => target.len() > 0 && target.last()
            == "__rumoca"@,
        AnnotationKindView::FunctionCall { target } => target.len() > 0 && target.last()
            == "__rumoca"@,
        _ => false,
    }
}

/// Whether an annotation is one of the tool that holds another annotation.
pub open spec fn is_tool_holder(a: AnnotationView) -> bool {
    match a.kind {
        AnnotationKindView::NamedArgument { name } => name == "__rumoca"@,
        AnnotationKindView::Modification { target } => target.len() > 0 && target.last()
            == "__rumoca"@,
        _ => false,
    }
}

/// A component is trained where an annotation of the tool sets `trainable` to true, as one of
/// its items or inside the annotation that it holds.
pub proof fn law_marked_components_are_trained(
    annotations: Seq<AnnotationView>,
    k: int,
    list: AnnotationView,
    j: int,
)
    requires
        0 <= k < annotations.len(),
        is_tool_list(list),
        0 <= j < list.items.len(),
        sets_true(list.items[j], "trainable"@),
        annotations[k] == list || (is_tool_holder(annotations[k]) && annotations[k].items.len() > 0
            && annotations[k].items[0] == list),
    ensures
        to_train(annotations),
{
    assert(marks_trainable(list.items[j]));
    assert(some_marks_trainable(list.items));
    assert(tool_trainable(list));
    assert(tool_trainable(annotations[k]));
}

/// Whether an annotation has another name than the tool, whatever the case of its letters.
pub open spec fn is_not_of_the_tool(a: AnnotationView) -> bool {
    match a.kind {
        AnnotationKindView::ClassModification { target } => target.len() == 0 || !same_but_case(
            target.last(),
            "__rumoca"@,
        ),
        AnnotationKindView::FunctionCall { target } => target.len() == 0 || !same_but_case(
            target.last(),
            "__rumoca"@,
        ),
        AnnotationKindView::Modification { target } => target.len() == 0 || !same_but_case(
            target.last(),
            "__rumoca"@,
        ),
        AnnotationKindView::NamedArgument { name } => !same_but_case(name, "__rumoca"@),
        _ => true,
    }
}

/// Annotations that are not of the tool train nothing, and neither do those of the tool
/// that set nothing to true.
pub proof fn law_other_annotations_train_nothing(annotations: Seq<AnnotationView>)
    requires
        forall|i: int|
            0 <= i < annotations.len() ==> is_not_of_the_tool(#[trigger] annotations[i]) || (
            is_tool_list(annotations[i]) && forall|j: int|
                0 <= j < annotations[i].items.len() ==> (#[trigger] annotations[i].items[j]).items.len()
                    == 0 || annotations[i].items[j].items.first().kind
                    != AnnotationKindView::Boolean(true)),
    ensures
        !to_train(annotations),
{
    assert forall|i: int| 0 <= i < annotations.len() implies !tool_trainable(
        #[trigger] annotations[i],
    ) by {
        let a = annotations[i];
        if !is_not_of_the_tool(a) {
            assert forall|j: int| 0 <= j < a.items.len() implies !marks_trainable(
                #[trigger] a.items[j],
            ) by {
                assert(annotations[i].items[j].items.len() == 0 || annotations[i].items[j].items.first().kind
                    != AnnotationKindView::Boolean(true));
            }
            assert(!some_marks_trainable(a.items));
        }
    }
}

} // verus!
