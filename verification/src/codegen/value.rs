//! Values that templates hand to the renderers, and reading them.
use crate::text::{owned, same_text, views};
use vstd::prelude::*;

verus! {

/// What a value is, apart from what it holds.
#[derive(Debug)]
pub enum ValueKind {
    Undefined,
    Null,
    Bool(bool),
    Integer(i128),
    /// A number that is no integer, by its text.
    Number(String),
    Text(String),
    /// Items: the elements.
    List,
    /// Items: the fields, under the names.
    Record,
}

pub enum KindView {
    Undefined,
    Null,
    Bool(bool),
    Integer(i128),
    Number(Seq<char>),
    Text(Seq<char>),
    List,
    Record,
}

impl View for ValueKind {
    type V = KindView;

    open spec fn view(&self) -> KindView {
        match *self {
            ValueKind::Undefined => KindView::Undefined,
            ValueKind::Null => KindView::Null,
            ValueKind::Bool(b) => KindView::Bool(b),
            ValueKind::Integer(i) => KindView::Integer(i),
            ValueKind::Number(s) => KindView::Number(s@),
            ValueKind::Text(s) => KindView::Text(s@),
            ValueKind::List => KindView::List,
            ValueKind::Record => KindView::Record,
        }
    }
}

/// A value of a template.
#[derive(Debug)]
pub struct TemplateValue {
    pub kind: ValueKind,
    pub names: Vec<String>,
    pub items: Vec<TemplateValue>,
}

/// The mathematical content of a [`TemplateValue`].
#[verifier::ext_equal]
pub struct ValueView {
    pub kind: KindView,
    pub names: Seq<Seq<char>>,
    pub items: Seq<ValueView>,
}

/// The content of a value, item by item.
pub open spec fn value_view(v: TemplateValue) -> ValueView
    decreases v,
{
    ValueView {
        kind: v.kind@,
        names: views(v.names@),
        items: Seq::new(
            v.items@.len(),
            |i: int|
                if 0 <= i < v.items@.len() {
                    value_view(v.items@[i])
                } else {
                    arbitrary()
                },
        ),
    }
}

impl View for TemplateValue {
    type V = ValueView;

    open spec fn view(&self) -> ValueView {
        value_view(*self)
    }
}

/// The content of a list of values.
pub open spec fn value_views(list: Seq<TemplateValue>) -> Seq<ValueView> {
    Seq::new(list.len(), |i: int| list[i]@)
}

/// The items of a value, by content.
pub proof fn lemma_view_items(v: TemplateValue)
    ensures
        v@.items == value_views(v.items@),
        v@.kind == v.kind@,
        v@.names == views(v.names@),
        v@.names.len() == v.names@.len(),
        v@.items.len() == v.items@.len(),
{
    reveal_with_fuel(value_view, 2);
    assert(v@.items =~= value_views(v.items@));
}

/// Why something could not be rendered.
#[derive(Debug)]
pub struct RenderError {
    pub detail: String,
}

impl View for RenderError {
    type V = Seq<char>;

    open spec fn view(&self) -> Seq<char> {
        self.detail@
    }
}

/// The text of an error with this detail.
pub open spec fn error_text(detail: Seq<char>) -> Seq<char> {
    "invalid operation: "@ + detail
}

impl RenderError {
    /// The text of the error.
    pub fn message(&self) -> (s: String)
        ensures
            s@ == error_text(self@),
    {
        let mut s = owned("invalid operation: ");
        s.append(self.detail.as_str());
        s
    }
}

/// The error with this detail.
pub fn render_err(detail: &str) -> (e: RenderError)
    ensures
        e@ == detail@,
{
    RenderError { detail: owned(detail) }
}

/// What a step of rendering gives: its value or the detail of an error.
pub type Outcome<T> = Result<T, Seq<char>>;

impl TemplateValue {
    /// A value without items.
    pub fn leaf(kind: ValueKind) -> (v: TemplateValue)
        ensures
            v@ == (ValueView { kind: kind@, names: Seq::empty(), items: Seq::empty() }),
    {
        let v = TemplateValue { kind, names: Vec::new(), items: Vec::new() };
        proof {
            lemma_view_items(v);
        }
        assert(v@.names =~= Seq::<Seq<char>>::empty());
        assert(v@.items =~= Seq::<ValueView>::empty());
        v
    }

    /// A list of values.
    pub fn list(items: Vec<TemplateValue>) -> (v: TemplateValue)
        ensures
            v@ == (ValueView {
                kind: KindView::List,
                names: Seq::empty(),
                items: value_views(items@),
            }),
    {
        let v = TemplateValue { kind: ValueKind::List, names: Vec::new(), items };
        proof {
            lemma_view_items(v);
        }
        assert(v@.names =~= Seq::<Seq<char>>::empty());
        v
    }

    /// A record of fields.
    pub fn record(names: Vec<String>, items: Vec<TemplateValue>) -> (v: TemplateValue)
        ensures
            v@ == (ValueView {
                kind: KindView::Record,
                names: views(names@),
                items: value_views(items@),
            }),
    {
        let v = TemplateValue { kind: ValueKind::Record, names, items };
        proof {
            lemma_view_items(v);
        }
        v
    }
}

impl ValueView {
    /// Where the first of the first `n` fields with this name stands.
    pub open spec fn field_at(self, name: Seq<char>, n: int) -> Option<int>
        decreases n,
    {
        if n <= 0 || n > self.names.len() || n > self.items.len() {
            None
        } else {
            match self.field_at(name, n - 1) {
                Some(i) => Some(i),
                None => if self.names[n - 1] == name {
                    Some(n - 1)
                } else {
                    None
                },
            }
        }
    }

    /// How many fields a record has.
    pub open spec fn field_count(self) -> int {
        if self.names.len() < self.items.len() {
            self.names.len() as int
        } else {
            self.items.len() as int
        }
    }

    /// A field of a record.
    pub open spec fn field(self, name: Seq<char>) -> Option<ValueView> {
        if self.kind is Record {
            match self.field_at(name, self.field_count()) {
                Some(i) => Some(self.items[i]),
                None => None,
            }
        } else {
            None
        }
    }

    /// The value as a count.
    pub open spec fn as_usize(self) -> Option<usize> {
        match self.kind {
            KindView::Bool(b) => Some(
                if b {
                    1
                } else {
                    0
                },
            ),
            KindView::Integer(i) => if 0 <= i <= usize::MAX {
                Some(i as usize)
            } else {
                None
            },
            _ => None,
        }
    }

    /// Whether a word occurs in the text of the value: in a text or in the name
    /// of a field.
    pub open spec fn mentions(self, word: Seq<char>) -> bool
        decreases self,
    {
        ||| self.kind matches KindView::Text(s) && occurs(s, word)
        ||| exists|i: int| 0 <= i < self.names.len() && occurs(#[trigger] self.names[i], word)
        ||| exists|i: int| 0 <= i < self.items.len() && (#[trigger] self.items[i]).mentions(word)
    }
}

/// Whether a word occurs in a text.
pub open spec fn occurs(s: Seq<char>, word: Seq<char>) -> bool {
    exists|k: int| occurs_at(s, word, k)
}

/// Whether a word stands at a position of a text.
pub open spec fn occurs_at(s: Seq<char>, word: Seq<char>, k: int) -> bool {
    0 <= k && k + word.len() <= s.len() && s.subrange(k, k + word.len()) == word
}

/// The error for a missing field.
pub open spec fn missing_field(name: Seq<char>) -> Seq<char> {
    "missing field `"@ + name + "`"@
}

proof fn lemma_field_stays(v: ValueView, name: Seq<char>, k: int, n: int)
    requires
        0 <= k <= n <= v.field_count(),
        v.field_at(name, k) is Some,
    ensures
        v.field_at(name, n) == v.field_at(name, k),
    decreases n,
{
    if k < n {
        lemma_field_stays(v, name, k, n - 1);
    }
}

/// A field of a record.
pub fn get_field<'a>(value: &'a TemplateValue, name: &str) -> (r: Result<
    &'a TemplateValue,
    RenderError,
>)
    ensures
        match r {
            Ok(v) => value@.field(name@) == Some(v@),
            Err(e) => value@.field(name@) is None && e@ == missing_field(name@),
        },
{
    proof {
        lemma_view_items(*value);
    }
    let is_record: bool = match &value.kind {
        ValueKind::Record => true,
        _ => false,
    };
    if is_record {
        let n: usize = if value.names.len() < value.items.len() {
            value.names.len()
        } else {
            value.items.len()
        };
        let mut i: usize = 0;
        while i < n
            invariant
                i <= n,
                n == value@.field_count(),
                n <= value.names@.len(),
                n <= value.items@.len(),
                value@.kind is Record,
                value@.items == value_views(value.items@),
                value@.names == views(value.names@),
                value@.field_at(name@, i as int) is None,
            decreases n - i,
        {
            assert(value@.names[i as int] == value.names@[i as int]@);
            if same_text(value.names[i].as_str(), name) {
                proof {
                    lemma_field_stays(value@, name@, i + 1, n as int);
                }
                return Ok(&value.items[i]);
            }
            i = i + 1;
        }
    }
    let mut detail = owned("missing field `");
    detail.append(name);
    detail.append("`");
    Err(RenderError { detail })
}

/// The value as a count.
pub fn as_usize(value: &TemplateValue) -> (r: Option<usize>)
    ensures
        r == value@.as_usize(),
{
    proof {
        lemma_view_items(*value);
    }
    match &value.kind {
        ValueKind::Bool(b) => Some(
            if *b {
                1usize
            } else {
                0usize
            },
        ),
        ValueKind::Integer(i) => {
            if 0 <= *i && *i <= usize::MAX as i128 {
                Some(*i as usize)
            } else {
                None
            }
        },
        _ => None,
    }
}

/// A value that has to be a count.
pub open spec fn usize_arg(value: ValueView, context: Seq<char>) -> Outcome<usize> {
    match value.as_usize() {
        Some(n) => Ok(n),
        None => Err(context + " must be a non-negative integer"@),
    }
}

/// A value that has to be a count.
pub fn required_usize_arg(value: &TemplateValue, context: &str) -> (r: Result<usize, RenderError>)
    ensures
        match r {
            Ok(n) => usize_arg(value@, context@) == Ok::<_, Seq<char>>(n),
            Err(e) => usize_arg(value@, context@) == Err::<usize, _>(e@),
        },
{
    match as_usize(value) {
        Some(n) => Ok(n),
        None => {
            let mut detail = owned(context);
            detail.append(" must be a non-negative integer");
            Err(RenderError { detail })
        },
    }
}

/// The error for a field that has to be there.
pub open spec fn required_field_missing(name: Seq<char>) -> Seq<char> {
    "missing `"@ + name + "`: "@ + error_text(missing_field(name))
}

/// A field that has to be there.
pub open spec fn required_field(value: ValueView, name: Seq<char>) -> Outcome<ValueView> {
    match value.field(name) {
        Some(v) => Ok(v),
        None => Err(required_field_missing(name)),
    }
}

/// A field that has to be there.
pub fn get_required_field<'a>(value: &'a TemplateValue, name: &str) -> (r: Result<
    &'a TemplateValue,
    RenderError,
>)
    ensures
        match r {
            Ok(v) => required_field(value@, name@) == Ok::<_, Seq<char>>(v@),
            Err(e) => required_field(value@, name@) == Err::<ValueView, _>(e@),
        },
{
    match get_field(value, name) {
        Ok(v) => Ok(v),
        Err(e) => {
            let mut detail = owned("missing `");
            detail.append(name);
            detail.append("`: ");
            detail.append(e.message().as_str());
            Err(RenderError { detail })
        },
    }
}

/// A field that has to be a count.
pub open spec fn usize_field(value: ValueView, name: Seq<char>) -> Outcome<usize> {
    match required_field(value, name) {
        Ok(v) => usize_arg(v, name),
        Err(e) => Err(e),
    }
}

/// A field that has to be a count.
pub fn required_usize_field(value: &TemplateValue, name: &str) -> (r: Result<usize, RenderError>)
    ensures
        match r {
            Ok(n) => usize_field(value@, name@) == Ok::<_, Seq<char>>(n),
            Err(e) => usize_field(value@, name@) == Err::<usize, _>(e@),
        },
{
    match get_required_field(value, name) {
        Ok(v) => required_usize_arg(v, name),
        Err(e) => Err(e),
    }
}

/// A field that has to be a truth value.
pub open spec fn bool_field(value: ValueView, name: Seq<char>) -> Outcome<bool> {
    match required_field(value, name) {
        Ok(v) => match v.kind {
            KindView::Bool(b) => Ok(b),
            _ => Err("`"@ + name + "` must be a boolean"@),
        },
        Err(e) => Err(e),
    }
}

/// A field that has to be a truth value.
pub fn required_bool_field(value: &TemplateValue, name: &str) -> (r: Result<bool, RenderError>)
    ensures
        match r {
            Ok(b) => bool_field(value@, name@) == Ok::<_, Seq<char>>(b),
            Err(e) => bool_field(value@, name@) == Err::<bool, _>(e@),
        },
{
    match get_required_field(value, name) {
        Ok(v) => {
            proof {
                lemma_view_items(*v);
            }
            match &v.kind {
                ValueKind::Bool(b) => Ok(*b),
                _ => {
                    let mut detail = owned("`");
                    detail.append(name);
                    detail.append("` must be a boolean");
                    Err(RenderError { detail })
                },
            }
        },
        Err(e) => Err(e),
    }
}

/// A field that has to be a text.
pub open spec fn text_field(value: ValueView, name: Seq<char>) -> Outcome<Seq<char>> {
    match required_field(value, name) {
        Ok(v) => match v.kind {
            KindView::Text(s) => Ok(s),
            _ => Err("`"@ + name + "` must be a string"@),
        },
        Err(e) => Err(e),
    }
}

/// A field that has to be a text.
pub fn required_string_field(value: &TemplateValue, name: &str) -> (r: Result<String, RenderError>)
    ensures
        match r {
            Ok(s) => text_field(value@, name@) == Ok::<_, Seq<char>>(s@),
            Err(e) => text_field(value@, name@) == Err::<Seq<char>, _>(e@),
        },
{
    match get_required_field(value, name) {
        Ok(v) => {
            proof {
                lemma_view_items(*v);
            }
            match &v.kind {
                ValueKind::Text(s) => Ok(s.clone()),
                _ => {
                    let mut detail = owned("`");
                    detail.append(name);
                    detail.append("` must be a string");
                    Err(RenderError { detail })
                },
            }
        },
        Err(e) => Err(e),
    }
}

fn text_occurs(s: &str, word: &str) -> (r: bool)
    ensures
        r == occurs(s@, word@),
{
    let n: usize = s.unicode_len();
    let m: usize = word.unicode_len();
    if m > n {
        assert forall|k: int| !occurs_at(s@, word@, k) by {}
        return false;
    }
    let mut k: usize = 0;
    while k <= n - m
        invariant
            n == s@.len(),
            m == word@.len(),
            m <= n,
            k <= n - m + 1,
            forall|j: int| 0 <= j < k ==> !occurs_at(s@, word@, j),
        decreases n - m + 1 - k,
    {
        let piece = s.substring_char(k, k + m);
        if same_text(piece, word) {
            assert(occurs_at(s@, word@, k as int));
            return true;
        }
        assert(!occurs_at(s@, word@, k as int));
        if k == n - m {
            assert forall|j: int| !occurs_at(s@, word@, j) by {}
            return false;
        }
        k = k + 1;
    }
    false
}

/// Whether a word occurs in the text of the value.
pub fn value_mentions(value: &TemplateValue, word: &str) -> (r: bool)
    ensures
        r == value@.mentions(word@),
    decreases value,
{
    proof {
        lemma_view_items(*value);
    }
    if let ValueKind::Text(s) = &value.kind {
        if text_occurs(s.as_str(), word) {
            return true;
        }
    }
    let mut i: usize = 0;
    while i < value.names.len()
        invariant
            i <= value.names@.len(),
            value@.names == views(value.names@),
            !(value@.kind matches KindView::Text(s) && occurs(s, word@)),
            forall|k: int| 0 <= k < i ==> !occurs(#[trigger] value@.names[k], word@),
        decreases value.names.len() - i,
    {
        assert(value@.names[i as int] == value.names@[i as int]@);
        if text_occurs(value.names[i].as_str(), word) {
            return true;
        }
        i = i + 1;
    }
    let mut j: usize = 0;
    while j < value.items.len()
        invariant
            j <= value.items@.len(),
            value@.items == value_views(value.items@),
            value@.names.len() == value.names@.len(),
            !(value@.kind matches KindView::Text(s) && occurs(s, word@)),
            forall|k: int|
                0 <= k < value@.names.len() ==> !occurs(#[trigger] value@.names[k], word@),
            forall|k: int| 0 <= k < j ==> !(#[trigger] value@.items[k]).mentions(word@),
        decreases value.items.len() - j,
    {
        if value_mentions(&value.items[j], word) {
            assert(value@.items[j as int].mentions(word@));
            return true;
        }
        j = j + 1;
    }
    false
}

} // verus!
