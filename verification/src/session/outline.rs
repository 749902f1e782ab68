//! Outlines: the classes that a source text declares and the components they
//! declare.
use crate::session::tokens::{tokenize, tokens};
use crate::text::{copy_strings, owned, same_text, views};
use vstd::prelude::*;

verus! {

/// A class declaration: its name, the names that lead to it, and the
/// components it declares.
#[derive(Debug)]
pub struct ClassOutline {
    pub name: String,
    pub path: Vec<String>,
    pub components: Vec<String>,
}

pub struct ClassView {
    pub name: Seq<char>,
    pub path: Seq<Seq<char>>,
    pub components: Seq<Seq<char>>,
}

impl View for ClassOutline {
    type V = ClassView;

    open spec fn view(&self) -> ClassView {
        ClassView {
            name: self.name@,
            path: views(self.path@),
            components: views(self.components@),
        }
    }
}

impl Clone for ClassOutline {
    fn clone(&self) -> (r: Self)
        ensures
            r@ == self@,
    {
        ClassOutline {
            name: self.name.clone(),
            path: copy_strings(&self.path),
            components: copy_strings(&self.components),
        }
    }
}

pub open spec fn class_views(list: Seq<ClassOutline>) -> Seq<ClassView> {
    list.map_values(|c: ClassOutline| c@)
}

pub open spec fn class_keyword(t: Seq<char>) -> bool {
    ||| t == "model"@
    ||| t == "package"@
    ||| t == "class"@
    ||| t == "block"@
    ||| t == "record"@
    ||| t == "connector"@
    ||| t == "function"@
    ||| t == "type"@
    ||| t == "operator"@
}

/// Words that may stand before a class keyword or a component's type.
pub open spec fn declaration_prefix(t: Seq<char>) -> bool {
    ||| t == "partial"@
    ||| t == "encapsulated"@
    ||| t == "replaceable"@
    ||| t == "redeclare"@
    ||| t == "final"@
    ||| t == "inner"@
    ||| t == "outer"@
    ||| t == "expandable"@
    ||| t == "pure"@
    ||| t == "impure"@
    ||| t == "parameter"@
    ||| t == "constant"@
    ||| t == "discrete"@
    ||| t == "input"@
    ||| t == "output"@
    ||| t == "flow"@
    ||| t == "stream"@
}

pub open spec fn block_keyword(t: Seq<char>) -> bool {
    t == "if"@ || t == "for"@ || t == "when"@ || t == "while"@
}

/// First words of statements that declare no component.
pub open spec fn not_a_declaration(t: Seq<char>) -> bool {
    t == "import"@ || t == "extends"@ || t == "within"@ || t == "annotation"@
}

pub open spec fn opening(t: Seq<char>) -> bool {
    t == "("@ || t == "["@ || t == "{"@
}

pub open spec fn closing(t: Seq<char>) -> bool {
    t == ")"@ || t == "]"@ || t == "}"@
}

fn is_class_keyword(t: &str) -> (r: bool)
    ensures
        r == class_keyword(t@),
{
    same_text(t, "model") || same_text(t, "package") || same_text(t, "class") || same_text(
        t,
        "block",
    ) || same_text(t, "record") || same_text(t, "connector") || same_text(t, "function")
        || same_text(t, "type") || same_text(t, "operator")
}

fn is_declaration_prefix(t: &str) -> (r: bool)
    ensures
        r == declaration_prefix(t@),
{
    same_text(t, "partial") || same_text(t, "encapsulated") || same_text(t, "replaceable")
        || same_text(t, "redeclare") || same_text(t, "final") || same_text(t, "inner") || same_text(
        t,
        "outer",
    ) || same_text(t, "expandable") || same_text(t, "pure") || same_text(t, "impure") || same_text(
        t,
        "parameter",
    ) || same_text(t, "constant") || same_text(t, "discrete") || same_text(t, "input") || same_text(
        t,
        "output",
    ) || same_text(t, "flow") || same_text(t, "stream")
}

fn is_block_keyword(t: &str) -> (r: bool)
    ensures
        r == block_keyword(t@),
{
    same_text(t, "if") || same_text(t, "for") || same_text(t, "when") || same_text(t, "while")
}

fn is_not_a_declaration(t: &str) -> (r: bool)
    ensures
        r == not_a_declaration(t@),
{
    same_text(t, "import") || same_text(t, "extends") || same_text(t, "within") || same_text(
        t,
        "annotation",
    )
}

fn is_opening(t: &str) -> (r: bool)
    ensures
        r == opening(t@),
{
    same_text(t, "(") || same_text(t, "[") || same_text(t, "{")
}

fn is_closing(t: &str) -> (r: bool)
    ensures
        r == closing(t@),
{
    same_text(t, ")") || same_text(t, "]") || same_text(t, "}")
}

/// Where the reading of a declaration stands.
pub enum DeclarationPhase {
    /// Before the type.
    Type,
    /// After the type or a comma: the next word is a name.
    Name,
    /// After a name: a comma outside brackets leads to the next one.
    Rest,
}

/// State of reading a declaration.
pub struct DeclarationState {
    pub phase: DeclarationPhase,
    pub depth: nat,
    pub names: Seq<Seq<char>>,
}

pub open spec fn declaration_step(st: DeclarationState, t: Seq<char>) -> DeclarationState {
    if st.phase is Type {
        if declaration_prefix(t) {
            st
        } else {
            DeclarationState { phase: DeclarationPhase::Name, depth: st.depth, names: st.names }
        }
    } else if opening(t) {
        DeclarationState { phase: st.phase, depth: st.depth + 1, names: st.names }
    } else if closing(t) {
        DeclarationState {
            phase: st.phase,
            depth: if st.depth > 0 {
                (st.depth - 1) as nat
            } else {
                0
            },
            names: st.names,
        }
    } else if st.depth > 0 {
        st
    } else if st.phase is Name {
        DeclarationState {
            phase: DeclarationPhase::Rest,
            depth: st.depth,
            names: st.names.push(t),
        }
    } else if t == ","@ {
        DeclarationState { phase: DeclarationPhase::Name, depth: st.depth, names: st.names }
    } else {
        st
    }
}

pub open spec fn declaration_after(statement: Seq<Seq<char>>, n: int) -> DeclarationState
    decreases n,
{
    if n <= 0 {
        DeclarationState { phase: DeclarationPhase::Type, depth: 0, names: Seq::empty() }
    } else {
        declaration_step(declaration_after(statement, n - 1), statement[n - 1])
    }
}

/// The component names of a declaration such as `parameter Real a = 1, b[2]`.
pub open spec fn declared_names(statement: Seq<Seq<char>>) -> Seq<Seq<char>> {
    declaration_after(statement, statement.len() as int).names
}

/// Appends the component names of a declaration.
fn push_declared_names(statement: &Vec<String>, out: &mut Vec<String>)
    ensures
        views(final(out)@) == views(old(out)@) + declared_names(views(statement@)),
{
    let ghost st = views(statement@);
    let mut phase = DeclarationPhase::Type;
    let mut depth: usize = 0;
    let mut i: usize = 0;
    assert(views(out@) =~= views(old(out)@) + declaration_after(st, 0).names);
    while i < statement.len()
        invariant
            i <= statement.len(),
            st == views(statement@),
            depth <= i,
            declaration_after(st, i as int).phase == phase,
            declaration_after(st, i as int).depth == depth,
            views(out@) == views(old(out)@) + declaration_after(st, i as int).names,
        decreases statement.len() - i,
    {
        let t = statement[i].as_str();
        assert(st[i as int] == t@);
        match phase {
            DeclarationPhase::Type => {
                if !is_declaration_prefix(t) {
                    phase = DeclarationPhase::Name;
                }
            },
            DeclarationPhase::Name => {
                if is_opening(t) {
                    depth = depth + 1;
                } else if is_closing(t) {
                    if depth > 0 {
                        depth = depth - 1;
                    }
                } else if depth == 0 {
                    let ghost before = views(out@);
                    out.push(owned(t));
                    assert(views(out@) =~= before.push(t@));
                    phase = DeclarationPhase::Rest;
                    assert(views(out@) =~= views(old(out)@) + declaration_after(
                        st,
                        i as int,
                    ).names.push(t@));
                }
            },
            DeclarationPhase::Rest => {
                if is_opening(t) {
                    depth = depth + 1;
                } else if is_closing(t) {
                    if depth > 0 {
                        depth = depth - 1;
                    }
                } else if depth == 0 && same_text(t, ",") {
                    phase = DeclarationPhase::Name;
                }
            },
        }
        i = i + 1;
    }
}

/// State of reading a source text.
pub struct OutlineState {
    pub classes: Seq<ClassView>,
    /// Positions of the classes that are open, outermost first.
    pub open: Seq<int>,
    /// Whether equations or algorithms are being read.
    pub body: bool,
    /// The tokens of the statement that is being read.
    pub statement: Seq<Seq<char>>,
    pub depth: nat,
    /// Whether an end did not fit the class that is open.
    pub broken: bool,
}

pub open spec fn cleared(st: OutlineState) -> OutlineState {
    OutlineState {
        classes: st.classes,
        open: st.open,
        body: st.body,
        statement: Seq::empty(),
        depth: 0,
        broken: st.broken,
    }
}

pub open spec fn class_closed(st: OutlineState) -> OutlineState {
    if st.open.len() > 0 {
        OutlineState {
            classes: st.classes,
            open: st.open.drop_last(),
            body: false,
            statement: Seq::empty(),
            depth: 0,
            broken: st.broken,
        }
    } else {
        OutlineState {
            classes: st.classes,
            open: st.open,
            body: st.body,
            statement: Seq::empty(),
            depth: 0,
            broken: true,
        }
    }
}

pub open spec fn open_class_name(st: OutlineState) -> Seq<char> {
    st.classes[st.open.last()].name
}

/// A statement is complete.
pub open spec fn statement_finished(st: OutlineState) -> OutlineState {
    let s = st.statement;
    if s.len() == 0 {
        cleared(st)
    } else if s[0] == "="@ {
        class_closed(st)
    } else if s[0] == "end"@ {
        if s.len() >= 2 && block_keyword(s[1]) {
            cleared(st)
        } else if s.len() >= 2 && st.open.len() > 0 && open_class_name(st) == s[1] {
            class_closed(st)
        } else {
            OutlineState {
                classes: st.classes,
                open: st.open,
                body: st.body,
                statement: Seq::empty(),
                depth: 0,
                broken: true,
            }
        }
    } else if st.body || st.open.len() == 0 || not_a_declaration(s[0]) {
        cleared(st)
    } else {
        let k = st.open.last();
        let c = st.classes[k];
        OutlineState {
            classes: st.classes.update(
                k,
                ClassView {
                    name: c.name,
                    path: c.path,
                    components: c.components + declared_names(s),
                },
            ),
            open: st.open,
            body: st.body,
            statement: Seq::empty(),
            depth: 0,
            broken: st.broken,
        }
    }
}

/// Whether the tokens read so far are the head of a class: prefixes, a class
/// keyword and a name.
pub open spec fn class_head(s: Seq<Seq<char>>) -> bool {
    &&& s.len() >= 2
    &&& class_keyword(s[s.len() - 2])
    &&& forall|i: int| 0 <= i < s.len() - 2 ==> declaration_prefix(#[trigger] s[i])
}

pub open spec fn class_opened(st: OutlineState, name: Seq<char>) -> OutlineState {
    let outer = if st.open.len() > 0 {
        st.classes[st.open.last()].path
    } else {
        Seq::empty()
    };
    OutlineState {
        classes: st.classes.push(
            ClassView { name, path: outer.push(name), components: Seq::empty() },
        ),
        open: st.open.push(st.classes.len() as int),
        body: false,
        statement: Seq::empty(),
        depth: 0,
        broken: st.broken,
    }
}

pub open spec fn token_added(st: OutlineState, t: Seq<char>, depth: nat) -> OutlineState {
    let s = st.statement.push(t);
    if !st.body && class_head(s) {
        class_opened(st, t)
    } else {
        OutlineState {
            classes: st.classes,
            open: st.open,
            body: st.body,
            statement: s,
            depth,
            broken: st.broken,
        }
    }
}

/// Reading one token.
pub open spec fn outline_step(st: OutlineState, t: Seq<char>) -> OutlineState {
    if opening(t) {
        token_added(st, t, st.depth + 1)
    } else if closing(t) {
        token_added(
            st,
            t,
            if st.depth > 0 {
                (st.depth - 1) as nat
            } else {
                0
            },
        )
    } else if st.depth == 0 && t == ";"@ {
        statement_finished(st)
    } else if st.statement.len() == 0 && (t == "equation"@ || t == "algorithm"@) {
        OutlineState {
            classes: st.classes,
            open: st.open,
            body: true,
            statement: st.statement,
            depth: st.depth,
            broken: st.broken,
        }
    } else if st.statement.len() == 0 && (t == "public"@ || t == "protected"@) {
        OutlineState {
            classes: st.classes,
            open: st.open,
            body: false,
            statement: st.statement,
            depth: st.depth,
            broken: st.broken,
        }
    } else if st.statement.len() == 0 && t == "initial"@ {
        st
    } else {
        token_added(st, t, st.depth)
    }
}

/// Reading the first `n` tokens.
pub open spec fn outline_after(list: Seq<Seq<char>>, n: int) -> OutlineState
    decreases n,
{
    if n <= 0 {
        OutlineState {
            classes: Seq::empty(),
            open: Seq::empty(),
            body: false,
            statement: Seq::empty(),
            depth: 0,
            broken: false,
        }
    } else {
        outline_step(outline_after(list, n - 1), list[n - 1])
    }
}

/// The classes of a source text, in the order in which they start; nothing
/// where a class is not closed, or closed under another name.
pub open spec fn outline_of(text: Seq<char>) -> Option<Seq<ClassView>> {
    let list = tokens(text);
    let st = outline_after(list, list.len() as int);
    if st.broken || st.open.len() > 0 || st.statement.len() > 0 {
        None
    } else {
        Some(st.classes)
    }
}

/// Reader of a token sequence.
struct OutlineBuilder {
    classes: Vec<ClassOutline>,
    open: Vec<usize>,
    body: bool,
    statement: Vec<String>,
    depth: usize,
    broken: bool,
}

impl OutlineBuilder {
    spec fn state(self) -> OutlineState {
        OutlineState {
            classes: class_views(self.classes@),
            open: self.open@.map_values(|i: usize| i as int),
            body: self.body,
            statement: views(self.statement@),
            depth: self.depth as nat,
            broken: self.broken,
        }
    }

    spec fn wf(self) -> bool {
        forall|i: int| 0 <= i < self.open@.len() ==> #[trigger] self.open@[i] < self.classes@.len()
    }

    fn clear(&mut self)
        requires
            old(self).wf(),
        ensures
            final(self).wf(),
            final(self).state() == cleared(old(self).state()),
    {
        self.statement = Vec::new();
        self.depth = 0;
        assert(self.state().statement =~= Seq::empty());
    }

    fn close_class(&mut self)
        requires
            old(self).wf(),
        ensures
            final(self).wf(),
            final(self).state() == class_closed(old(self).state()),
    {
        self.statement = Vec::new();
        self.depth = 0;
        if self.open.len() > 0 {
            let _ = self.open.pop();
            self.body = false;
            assert(self.state().open =~= old(self).state().open.drop_last());
        } else {
            self.broken = true;
        }
        assert(self.state().statement =~= Seq::empty());
    }

    fn finish_statement(&mut self)
        requires
            old(self).wf(),
        ensures
            final(self).wf(),
            final(self).state() == statement_finished(old(self).state()),
    {
        let n: usize = self.statement.len();
        if n == 0 {
            self.clear();
            return;
        }
        let ghost st = self.state();
        assert(st.statement[0] == self.statement@[0]@);
        if same_text(self.statement[0].as_str(), "=") {
            self.close_class();
        } else if same_text(self.statement[0].as_str(), "end") {
            assert(n >= 2 ==> st.statement[1] == self.statement@[1]@);
            if n >= 2 && is_block_keyword(self.statement[1].as_str()) {
                self.clear();
            } else if n >= 2 && self.open.len() > 0 {
                let k: usize = self.open[self.open.len() - 1];
                assert(st.open.last() == k);
                assert(st.classes[k as int] == self.classes@[k as int]@);
                if same_text(self.classes[k].name.as_str(), self.statement[1].as_str()) {
                    self.close_class();
                } else {
                    self.broken = true;
                    self.clear();
                }
            } else {
                self.broken = true;
                self.clear();
            }
        } else if self.body || self.open.len() == 0 || is_not_a_declaration(
            self.statement[0].as_str(),
        ) {
            self.clear();
        } else {
            let k: usize = self.open[self.open.len() - 1];
            assert(st.open.last() == k);
            assert(st.classes[k as int] == self.classes@[k as int]@);
            let mut class = self.classes[k].clone();
            push_declared_names(&self.statement, &mut class.components);
            self.classes.set(k, class);
            assert(self.state().classes =~= st.classes.update(
                k as int,
                ClassView {
                    name: st.classes[k as int].name,
                    path: st.classes[k as int].path,
                    components: st.classes[k as int].components + declared_names(st.statement),
                },
            ));
            self.clear();
        }
    }

    fn add_token(&mut self, t: &String, depth: usize)
        requires
            old(self).wf(),
        ensures
            final(self).wf(),
            final(self).state() == token_added(old(self).state(), t@, depth as nat),
    {
        let ghost st = self.state();
        self.statement.push(t.clone());
        assert(views(self.statement@) =~= st.statement.push(t@));
        if !self.body && is_class_head(&self.statement) {
            let mut path: Vec<String> = if self.open.len() > 0 {
                let k: usize = self.open[self.open.len() - 1];
                assert(st.open.last() == k);
                assert(st.classes[k as int] == self.classes@[k as int]@);
                copy_strings(&self.classes[k].path)
            } else {
                Vec::new()
            };
            let ghost outer = views(path@);
            assert(st.open.len() == 0 ==> outer =~= Seq::empty());
            path.push(t.clone());
            assert(views(path@) =~= outer.push(t@));
            self.open.push(self.classes.len());
            let class = ClassOutline { name: t.clone(), path, components: Vec::new() };
            assert(class@.components =~= Seq::empty());
            self.classes.push(class);
            self.body = false;
            self.statement = Vec::new();
            self.depth = 0;
            proof {
                assert(self.state().classes =~= st.classes.push(class@));
                assert(self.state().open =~= st.open.push(st.classes.len() as int));
                assert(self.state().statement =~= Seq::empty());
            }
        } else {
            self.depth = depth;
        }
    }

    fn step(&mut self, t: &String)
        requires
            old(self).wf(),
            old(self).depth < usize::MAX,
        ensures
            final(self).wf(),
            final(self).state() == outline_step(old(self).state(), t@),
            final(self).depth <= old(self).depth + 1,
    {
        let word = t.as_str();
        if is_opening(word) {
            self.add_token(t, self.depth + 1);
        } else if is_closing(word) {
            let depth: usize = if self.depth > 0 {
                self.depth - 1
            } else {
                0
            };
            self.add_token(t, depth);
        } else if self.depth == 0 && same_text(word, ";") {
            self.finish_statement();
        } else if self.statement.len() == 0 && (same_text(word, "equation") || same_text(
            word,
            "algorithm",
        )) {
            self.body = true;
        } else if self.statement.len() == 0 && (same_text(word, "public") || same_text(
            word,
            "protected",
        )) {
            self.body = false;
        } else if self.statement.len() == 0 && same_text(word, "initial") {
        } else {
            self.add_token(t, self.depth);
        }
    }
}

fn is_class_head(statement: &Vec<String>) -> (r: bool)
    ensures
        r == class_head(views(statement@)),
{
    let n: usize = statement.len();
    if n < 2 {
        return false;
    }
    let ghost s = views(statement@);
    assert(s[n - 2] == statement@[n - 2]@);
    if !is_class_keyword(statement[n - 2].as_str()) {
        return false;
    }
    let mut i: usize = 0;
    while i < n - 2
        invariant
            n == statement@.len(),
            n >= 2,
            s == views(statement@),
            i <= n - 2,
            forall|k: int| 0 <= k < i ==> declaration_prefix(#[trigger] s[k]),
        decreases n - i,
    {
        assert(s[i as int] == statement@[i as int]@);
        if !is_declaration_prefix(statement[i].as_str()) {
            return false;
        }
        i = i + 1;
    }
    true
}

/// The classes of a source text, in the order in which they start; nothing
/// where a class is not closed, or closed under another name.
pub fn scan_outline(text: &str) -> (r: Option<Vec<ClassOutline>>)
    ensures
        match r {
            Some(classes) => outline_of(text@) == Some(class_views(classes@)),
            None => outline_of(text@) is None,
        },
{
    let list = tokenize(text);
    let mut builder = OutlineBuilder {
        classes: Vec::new(),
        open: Vec::new(),
        body: false,
        statement: Vec::new(),
        depth: 0,
        broken: false,
    };
    proof {
        assert(builder.state().classes =~= Seq::empty());
        assert(builder.state().open =~= Seq::empty());
        assert(builder.state().statement =~= Seq::empty());
    }
    let mut i: usize = 0;
    while i < list.len()
        invariant
            i <= list.len(),
            builder.wf(),
            builder.depth <= i,
            builder.state() == outline_after(views(list@), i as int),
        decreases list.len() - i,
    {
        assert(views(list@)[i as int] == list@[i as int]@);
        builder.step(&list[i]);
        i = i + 1;
    }
    if builder.broken || builder.open.len() > 0 || builder.statement.len() > 0 {
        None
    } else {
        Some(builder.classes)
    }
}

} // verus!
