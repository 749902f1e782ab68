//! What the outline of a source text holds.
use crate::session::outline::{
    block_keyword, class_head, class_keyword, declaration_after, declaration_prefix,
    declared_names, not_a_declaration, outline_step, ClassView, OutlineState,
};
use vstd::prelude::*;

verus! {

/// Whether a word starts a class, before its name.
pub open spec fn is_class_word(t: Seq<char>) -> bool {
    ||| t == "model"@
    ||| t == "package"@
    ||| t == "class"@
    ||| t == "block"@
    ||| t == "record"@
    ||| t == "connector"@
    ||| t == "function"@
    ||| t == "type"@
    ||| t == "operator"@
}

/// Whether a token starts like a name.
pub open spec fn starts_like_a_name(t: Seq<char>) -> bool {
    t.len() > 0 && ('a' <= t[0] <= 'z' || 'A' <= t[0] <= 'Z')
}

/// Whether a token starts a section of a class.
pub open spec fn starts_a_section(t: Seq<char>) -> bool {
    t == "equation"@ || t == "algorithm"@ || t == "public"@ || t == "protected"@ || t == "initial"@
}

/// Reading tokens one after the other.
pub open spec fn read_all(st: OutlineState, list: Seq<Seq<char>>) -> OutlineState
    decreases list.len(),
{
    if list.len() == 0 {
        st
    } else {
        outline_step(read_all(st, list.drop_last()), list.last())
    }
}

proof fn lemma_marks(t: Seq<char>)
    requires
        starts_like_a_name(t),
    ensures
        t != "("@,
        t != "["@,
        t != "{"@,
        t != ")"@,
        t != "]"@,
        t != "}"@,
        t != ";"@,
        t != ","@,
        t != "="@,
        ";"@ != "("@,
        ";"@ != "["@,
        ";"@ != "{"@,
        ";"@ != ")"@,
        ";"@ != "]"@,
        ";"@ != "}"@,
{
    reveal_strlit("(");
    reveal_strlit("[");
    reveal_strlit("{");
    reveal_strlit(")");
    reveal_strlit("]");
    reveal_strlit("}");
    reveal_strlit(";");
    reveal_strlit(",");
    reveal_strlit("=");
    assert("("@[0] == '(' && "["@[0] == '[' && "{"@[0] == '{');
    assert(")"@[0] == ')' && "]"@[0] == ']' && "}"@[0] == '}');
    assert(";"@[0] == ';' && ","@[0] == ',' && "="@[0] == '=');
}

proof fn lemma_class_words(t: Seq<char>)
    requires
        is_class_word(t),
    ensures
        starts_like_a_name(t),
        !starts_a_section(t),
        t != "end"@,
        class_keyword(t),
{
    reveal_strlit("model");
    reveal_strlit("package");
    reveal_strlit("class");
    reveal_strlit("block");
    reveal_strlit("record");
    reveal_strlit("connector");
    reveal_strlit("function");
    reveal_strlit("type");
    reveal_strlit("operator");
    reveal_strlit("equation");
    reveal_strlit("algorithm");
    reveal_strlit("public");
    reveal_strlit("protected");
    reveal_strlit("initial");
    reveal_strlit("end");
    assert("model"@[0] == 'm' && "package"@[0] == 'p' && "class"@[0] == 'c' && "block"@[0] == 'b');
    assert("record"@[0] == 'r' && "connector"@[0] == 'c' && "function"@[0] == 'f');
    assert("type"@[0] == 't' && "operator"@[0] == 'o');
    assert("equation"@[0] == 'e' && "algorithm"@[0] == 'a' && "public"@[0] == 'p');
    assert("protected"@[0] == 'p' && "initial"@[0] == 'i' && "end"@[0] == 'e');
    assert("package"@.len() == 7 && "public"@.len() == 6 && "protected"@.len() == 9);
}

proof fn lemma_end()
    ensures
        starts_like_a_name("end"@),
        !starts_a_section("end"@),
        !class_keyword("end"@),
{
    assert(!is_class_word("end"@)) by {
        if is_class_word("end"@) {
            lemma_class_words("end"@);
        }
    }
    reveal_strlit("equation");
    reveal_strlit("algorithm");
    reveal_strlit("public");
    reveal_strlit("protected");
    reveal_strlit("initial");
    reveal_strlit("end");
    assert("end"@[0] == 'e' && "end"@.len() == 3 && "equation"@.len() == 8);
    assert("algorithm"@.len() == 9 && "public"@.len() == 6 && "protected"@.len() == 9);
    assert("initial"@.len() == 7);
}

/// A class that starts where no statement is being read, outside the equations, and ends with
/// its name, is a class of the outline. Its path is that of the class around it with its
/// own name behind. What was open before is open again.
pub proof fn law_classes_are_outlined(st: OutlineState, word: Seq<char>, name: Seq<char>)
    requires
        st.statement.len() == 0,
        st.depth == 0,
        !st.body,
        is_class_word(word),
        starts_like_a_name(name),
        !block_keyword(name),
    ensures
        ({
            let after = read_all(st, seq![word, name, "end"@, name, ";"@]);
            let around = if st.open.len() > 0 {
                st.classes[st.open.last()].path
            } else {
                Seq::empty()
            };
            &&& after.classes == st.classes.push(
                ClassView { name, path: around.push(name), components: Seq::empty() },
            )
            &&& after.open == st.open
            &&& !after.body
            &&& after.statement.len() == 0
            &&& after.broken == st.broken
        }),
{
    lemma_class_words(word);
    lemma_end();
    lemma_marks(word);
    lemma_marks(name);
    lemma_marks("end"@);
    lemma_read_five(st, word, name, "end"@, name, ";"@);
    let a = outline_step(st, word);
    assert(a.statement =~= seq![word]);
    assert(class_head(a.statement.push(name)));
    let b = outline_step(a, name);
    assert(b.statement.len() == 0);
    let c = outline_step(b, "end"@);
    assert(c.statement =~= seq!["end"@]);
    assert(!class_head(c.statement.push(name)));
    let d = outline_step(c, name);
    assert(d.statement =~= seq!["end"@, name]);
    let e = outline_step(d, ";"@);
    assert(e.open =~= st.open);
}

proof fn lemma_read_five(
    st: OutlineState,
    a: Seq<char>,
    b: Seq<char>,
    c: Seq<char>,
    d: Seq<char>,
    e: Seq<char>,
)
    ensures
        read_all(st, seq![a, b, c, d, e]) == outline_step(
            outline_step(outline_step(outline_step(outline_step(st, a), b), c), d),
            e,
        ),
        read_all(st, seq![a, b, c]) == outline_step(outline_step(outline_step(st, a), b), c),
{
    reveal_with_fuel(read_all, 6);
    assert(seq![a, b, c, d, e].drop_last() =~= seq![a, b, c, d]);
    assert(seq![a, b, c, d].drop_last() =~= seq![a, b, c]);
    assert(seq![a, b, c].drop_last() =~= seq![a, b]);
    assert(seq![a, b].drop_last() =~= seq![a]);
    assert(seq![a].drop_last() =~= Seq::empty());
}

/// A declaration inside an open class, outside its equations, gives the class a component
/// with the declared name, behind those that it has. Nothing else changes.
pub proof fn law_declared_components_are_listed(
    st: OutlineState,
    written: Seq<char>,
    name: Seq<char>,
)
    requires
        st.statement.len() == 0,
        st.depth == 0,
        !st.body,
        st.open.len() > 0,
        0 <= st.open.last() < st.classes.len(),
        starts_like_a_name(written),
        starts_like_a_name(name),
        !is_class_word(written),
        !declaration_prefix(written),
        !not_a_declaration(written),
        !starts_a_section(written),
        written != "end"@,
    ensures
        ({
            let after = read_all(st, seq![written, name, ";"@]);
            let k = st.open.last();
            &&& after.classes.len() == st.classes.len()
            &&& forall|i: int|
                0 <= i < st.classes.len() && i != k ==> #[trigger] after.classes[i] == st.classes[i]
            &&& after.classes[k].name == st.classes[k].name
            &&& after.classes[k].path == st.classes[k].path
            &&& after.classes[k].components == st.classes[k].components.push(name)
            &&& after.open == st.open
            &&& !after.body
            &&& after.statement.len() == 0
            &&& after.broken == st.broken
        }),
{
    lemma_marks(written);
    lemma_marks(name);
    lemma_read_five(st, written, name, ";"@, name, ";"@);
    let a = outline_step(st, written);
    assert(a.statement =~= seq![written]);
    assert(!class_head(a.statement.push(name)));
    let b = outline_step(a, name);
    assert(b.statement =~= seq![written, name]);
    reveal_with_fuel(declaration_after, 3);
    assert(declared_names(seq![written, name]) =~= seq![name]);
    let c = outline_step(b, ";"@);
    let k = st.open.last();
    assert(st.classes[k].components + seq![name] =~= st.classes[k].components.push(name));
}

} // verus!
