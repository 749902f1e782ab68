//! Annotations that say how a component is to be treated.
use crate::text::{chars_of, copy_strings, same_text, views};
use vstd::prelude::*;

verus! {

/// What an annotation is, apart from what it holds.
#[derive(Debug)]
pub enum AnnotationKind {
    /// Item: the value.
    NamedArgument { name: String },
    /// Item: the value. The target segment by segment.
    Modification { target: Vec<String> },
    /// Items: the modifications.
    ClassModification { target: Vec<String> },
    /// Items: the arguments.
    FunctionCall { target: Vec<String> },
    Boolean(bool),
    Other,
}

pub enum AnnotationKindView {
    NamedArgument { name: Seq<char> },
    Modification { target: Seq<Seq<char>> },
    ClassModification { target: Seq<Seq<char>> },
    FunctionCall { target: Seq<Seq<char>> },
    Boolean(bool),
    Other,
}

impl View for AnnotationKind {
    type V = AnnotationKindView;

    open spec fn view(&self) -> AnnotationKindView {
        match *self {
            AnnotationKind::NamedArgument { name } => AnnotationKindView::NamedArgument {
                name: name@,
            },
            AnnotationKind::Modification { target } => AnnotationKindView::Modification {
                target: views(target@),
            },
            AnnotationKind::ClassModification { target } => AnnotationKindView::ClassModification {
                target: views(target@),
            },
            AnnotationKind::FunctionCall { target } => AnnotationKindView::FunctionCall {
                target: views(target@),
            },
            AnnotationKind::Boolean(b) => AnnotationKindView::Boolean(b),
            AnnotationKind::Other => AnnotationKindView::Other,
        }
    }
}

/// An annotation.
#[derive(Debug)]
pub struct Annotation {
    pub kind: AnnotationKind,
    pub items: Vec<Annotation>,
}

/// The mathematical content of an [`Annotation`].
#[verifier::ext_equal]
pub struct AnnotationView {
    pub kind: AnnotationKindView,
    pub items: Seq<AnnotationView>,
}

/// The content of an annotation, item by item.
pub open spec fn annotation_view(a: Annotation) -> AnnotationView
    decreases a,
{
    AnnotationView {
        kind: a.kind@,
        items: Seq::new(
            a.items@.len(),
            |i: int|
                if 0 <= i < a.items@.len() {
                    annotation_view(a.items@[i])
                } else {
                    arbitrary()
                },
        ),
    }
}

impl View for Annotation {
    type V = AnnotationView;

    open spec fn view(&self) -> AnnotationView {
        annotation_view(*self)
    }
}

/// The contents of a list of annotations.
pub open spec fn annotation_views(list: Seq<Annotation>) -> Seq<AnnotationView> {
    Seq::new(list.len(), |i: int| list[i]@)
}

/// The items of an annotation's content are the contents of its items.
pub proof fn lemma_annotation_items(a: Annotation)
    ensures
        a@.kind == a.kind@,
        a@.items == annotation_views(a.items@),
{
    reveal_with_fuel(annotation_view, 2);
    assert(a@.items =~= annotation_views(a.items@));
}

impl Clone for AnnotationKind {
    fn clone(&self) -> (r: Self)
        ensures
            r@ == self@,
    {
        match self {
            AnnotationKind::NamedArgument { name } => AnnotationKind::NamedArgument {
                name: name.clone(),
            },
            AnnotationKind::Modification { target } => AnnotationKind::Modification {
                target: copy_strings(target),
            },
            AnnotationKind::ClassModification { target } => AnnotationKind::ClassModification {
                target: copy_strings(target),
            },
            AnnotationKind::FunctionCall { target } => AnnotationKind::FunctionCall {
                target: copy_strings(target),
            },
            AnnotationKind::Boolean(b) => AnnotationKind::Boolean(*b),
            AnnotationKind::Other => AnnotationKind::Other,
        }
    }
}

impl Clone for Annotation {
    fn clone(&self) -> (r: Self)
        ensures
            r@ == self@,
        decreases self,
    {
        let mut items: Vec<Annotation> = Vec::new();
        let mut i: usize = 0;
        proof {
            lemma_annotation_items(*self);
        }
        assert(annotation_views(items@) =~= self@.items.take(0));
        while i < self.items.len()
            invariant
                i <= self.items@.len(),
                self@.items == annotation_views(self.items@),
                annotation_views(items@) == self@.items.take(i as int),
            decreases self.items.len() - i,
        {
            let ghost before = annotation_views(items@);
            let copy = self.items[i].clone();
            items.push(copy);
            assert(annotation_views(items@) =~= before.push(copy@));
            i = i + 1;
            assert(annotation_views(items@) =~= self@.items.take(i as int));
        }
        let r = Annotation { kind: self.kind.clone(), items };
        proof {
            assert(self@.items.take(i as int) =~= self@.items);
            lemma_annotation_items(r);
        }
        r
    }
}

/// A copy of a list of annotations.
pub fn copy_annotations(list: &Vec<Annotation>) -> (r: Vec<Annotation>)
    ensures
        annotation_views(r@) == annotation_views(list@),
{
    let ghost all = annotation_views(list@);
    let mut r: Vec<Annotation> = Vec::new();
    let mut i: usize = 0;
    assert(annotation_views(r@) =~= all.take(0));
    while i < list.len()
        invariant
            i <= list@.len(),
            all == annotation_views(list@),
            annotation_views(r@) == all.take(i as int),
        decreases list.len() - i,
    {
        let ghost before = annotation_views(r@);
        let copy = list[i].clone();
        r.push(copy);
        assert(annotation_views(r@) =~= before.push(copy@));
        i = i + 1;
        assert(annotation_views(r@) =~= all.take(i as int));
    }
    assert(all.take(i as int) =~= all);
    r
}

/// A character with an upper case letter made lower case.
pub open spec fn lower(c: char) -> char {
    if 'A' <= c <= 'Z' {
        ((c as u32) + 32) as char
    } else {
        c
    }
}

/// Whether two texts are the same but for the case of their letters.
pub open spec fn same_but_case(a: Seq<char>, b: Seq<char>) -> bool {
    a.len() == b.len() && forall|i: int| 0 <= i < a.len() ==> lower(#[trigger] a[i]) == lower(b[i])
}

fn lower_code(c: char) -> (n: u32)
    ensures
        n == lower(c) as u32,
{
    let n: u32 = c as u32;
    if 'A' <= c && c <= 'Z' {
        n + 32
    } else {
        n
    }
}

/// Whether two texts are the same but for the case of their letters.
pub fn is_same_but_case(a: &str, b: &str) -> (r: bool)
    ensures
        r == same_but_case(a@, b@),
{
    let x = chars_of(a);
    let y = chars_of(b);
    if x.len() != y.len() {
        return false;
    }
    let mut i: usize = 0;
    while i < x.len()
        invariant
            x@ == a@,
            y@ == b@,
            x@.len() == y@.len(),
            i <= x@.len(),
            forall|k: int| 0 <= k < i ==> lower(#[trigger] a@[k]) == lower(b@[k]),
        decreases x.len() - i,
    {
        if lower_code(x[i]) != lower_code(y[i]) {
            assert(lower(a@[i as int]) != lower(b@[i as int]));
            return false;
        }
        i = i + 1;
    }
    true
}

/// Whether an annotation is a true one.
pub open spec fn is_true(a: AnnotationView) -> bool {
    a.kind == AnnotationKindView::Boolean(true)
}

/// The name and the value of an annotation that gives a name a value. A
/// modification counts by its first segment.
pub open spec fn given(a: AnnotationView) -> Option<(Seq<char>, AnnotationView)> {
    if a.items.len() == 0 {
        None
    } else {
        match a.kind {
            AnnotationKindView::NamedArgument { name } => Some((name, a.items[0])),
            AnnotationKindView::Modification { target } => if target.len() > 0 {
                Some((target[0], a.items[0]))
            } else {
                None
            },
            _ => None,
        }
    }
}

/// Whether an annotation asks for evaluation.
pub open spec fn asks_evaluate(a: AnnotationView) -> bool {
    match given(a) {
        Some((name, value)) => name == "Evaluate"@ && is_true(value),
        None => false,
    }
}

/// Whether an annotation marks something as trainable.
pub open spec fn marks_trainable(a: AnnotationView) -> bool {
    match given(a) {
        Some((name, value)) => same_but_case(name, "trainable"@) && is_true(value),
        None => false,
    }
}

/// Whether a target's last segment is the name of the tool.
pub open spec fn targets_tool(target: Seq<Seq<char>>) -> bool {
    target.len() > 0 && same_but_case(target.last(), "__rumoca"@)
}

/// Whether one of the first `n` items marks something as trainable.
pub open spec fn some_marks_trainable(items: Seq<AnnotationView>) -> bool {
    exists|i: int| 0 <= i < items.len() && marks_trainable(#[trigger] items[i])
}

/// Whether an annotation of the tool marks something as trainable.
pub open spec fn tool_trainable(a: AnnotationView) -> bool
    decreases a,
{
    match a.kind {
        AnnotationKindView::ClassModification { target } => targets_tool(target)
            && some_marks_trainable(a.items),
        AnnotationKindView::FunctionCall { target } => targets_tool(target)
            && some_marks_trainable(a.items),
        AnnotationKindView::NamedArgument { name } => same_but_case(name, "__rumoca"@)
            && a.items.len() > 0 && tool_trainable(a.items[0]),
        AnnotationKindView::Modification { target } => targets_tool(target) && a.items.len() > 0
            && tool_trainable(a.items[0]),
        _ => false,
    }
}

fn is_true_value(a: &Annotation) -> (r: bool)
    ensures
        r == is_true(a@),
{
    proof {
        lemma_annotation_items(*a);
    }
    match &a.kind {
        AnnotationKind::Boolean(b) => *b,
        _ => false,
    }
}

fn first_item(a: &Annotation) -> (r: Option<&Annotation>)
    ensures
        match r {
            Some(item) => a@.items.len() > 0 && item@ == a@.items[0] && a.items@.len() > 0 && *item
                == a.items@[0],
            None => a@.items.len() == 0,
        },
{
    proof {
        lemma_annotation_items(*a);
    }
    if a.items.len() > 0 {
        Some(&a.items[0])
    } else {
        None
    }
}

/// Whether an annotation asks for evaluation.
pub fn is_evaluate_true_annotation(a: &Annotation) -> (r: bool)
    ensures
        r == asks_evaluate(a@),
{
    proof {
        lemma_annotation_items(*a);
    }
    let value = match first_item(a) {
        Some(v) => v,
        None => {
            return false;
        },
    };
    match &a.kind {
        AnnotationKind::NamedArgument { name } => same_text(name.as_str(), "Evaluate")
            && is_true_value(value),
        AnnotationKind::Modification { target } => {
            if target.len() == 0 {
                return false;
            }
            assert(views(target@)[0] == target@[0]@);
            same_text(target[0].as_str(), "Evaluate") && is_true_value(value)
        },
        _ => false,
    }
}

/// Whether an annotation marks something as trainable.
pub fn is_trainable_true_modification(a: &Annotation) -> (r: bool)
    ensures
        r == marks_trainable(a@),
{
    proof {
        lemma_annotation_items(*a);
    }
    let value = match first_item(a) {
        Some(v) => v,
        None => {
            return false;
        },
    };
    match &a.kind {
        AnnotationKind::NamedArgument { name } => is_same_but_case(name.as_str(), "trainable")
            && is_true_value(value),
        AnnotationKind::Modification { target } => {
            if target.len() == 0 {
                return false;
            }
            assert(views(target@)[0] == target@[0]@);
            is_same_but_case(target[0].as_str(), "trainable") && is_true_value(value)
        },
        _ => false,
    }
}

fn is_tool_target(target: &Vec<String>) -> (r: bool)
    ensures
        r == targets_tool(views(target@)),
{
    if target.len() == 0 {
        return false;
    }
    assert(views(target@).last() == target@.last()@);
    is_same_but_case(target[target.len() - 1].as_str(), "__rumoca")
}

fn some_item_trainable(a: &Annotation) -> (r: bool)
    ensures
        r == some_marks_trainable(a@.items),
{
    proof {
        lemma_annotation_items(*a);
    }
    let mut i: usize = 0;
    while i < a.items.len()
        invariant
            i <= a.items@.len(),
            a@.items == annotation_views(a.items@),
            forall|k: int| 0 <= k < i ==> !marks_trainable(#[trigger] a@.items[k]),
        decreases a.items.len() - i,
    {
        assert(a@.items[i as int] == a.items@[i as int]@);
        if is_trainable_true_modification(&a.items[i]) {
            return true;
        }
        i = i + 1;
    }
    false
}

/// Whether an annotation of the tool marks something as trainable.
pub fn is_rumoca_trainable_annotation(a: &Annotation) -> (r: bool)
    ensures
        r == tool_trainable(a@),
    decreases a,
{
    proof {
        lemma_annotation_items(*a);
    }
    match &a.kind {
        AnnotationKind::ClassModification { target } => is_tool_target(target)
            && some_item_trainable(a),
        AnnotationKind::FunctionCall { target } => is_tool_target(target) && some_item_trainable(a),
        AnnotationKind::NamedArgument { name } => {
            if !is_same_but_case(name.as_str(), "__rumoca") || a.items.len() == 0 {
                return false;
            }
            assert(a@.items[0] == a.items@[0]@);
            is_rumoca_trainable_annotation(&a.items[0])
        },
        AnnotationKind::Modification { target } => {
            if !is_tool_target(target) || a.items.len() == 0 {
                return false;
            }
            assert(a@.items[0] == a.items@[0]@);
            is_rumoca_trainable_annotation(&a.items[0])
        },
        _ => false,
    }
}

/// Whether a component is to be evaluated: it is final, or an annotation asks for
/// it.
pub open spec fn to_evaluate(is_final: bool, annotations: Seq<AnnotationView>) -> bool {
    is_final || exists|i: int| 0 <= i < annotations.len() && asks_evaluate(
        #[trigger] annotations[i],
    )
}

/// Whether a component is to be evaluated.
pub fn has_evaluate_annotation(is_final: bool, annotations: &Vec<Annotation>) -> (r: bool)
    ensures
        r == to_evaluate(is_final, annotation_views(annotations@)),
{
    if is_final {
        return true;
    }
    let ghost list = annotation_views(annotations@);
    let mut i: usize = 0;
    while i < annotations.len()
        invariant
            i <= annotations@.len(),
            list == annotation_views(annotations@),
            forall|k: int| 0 <= k < i ==> !asks_evaluate(#[trigger] list[k]),
        decreases annotations.len() - i,
    {
        assert(list[i as int] == annotations@[i as int]@);
        if is_evaluate_true_annotation(&annotations[i]) {
            return true;
        }
        i = i + 1;
    }
    false
}

/// Whether a component is trainable.
pub open spec fn to_train(annotations: Seq<AnnotationView>) -> bool {
    exists|i: int| 0 <= i < annotations.len() && tool_trainable(#[trigger] annotations[i])
}

/// Whether a component is trainable.
pub fn has_trainable_annotation(annotations: &Vec<Annotation>) -> (r: bool)
    ensures
        r == to_train(annotation_views(annotations@)),
{
    let ghost list = annotation_views(annotations@);
    let mut i: usize = 0;
    while i < annotations.len()
        invariant
            i <= annotations@.len(),
            list == annotation_views(annotations@),
            forall|k: int| 0 <= k < i ==> !tool_trainable(#[trigger] list[k]),
        decreases annotations.len() - i,
    {
        assert(list[i as int] == annotations@[i as int]@);
        if is_rumoca_trainable_annotation(&annotations[i]) {
            return true;
        }
        i = i + 1;
    }
    false
}

} // verus!
