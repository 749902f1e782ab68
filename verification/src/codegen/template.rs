//! Templates filled in by the template engine.
use crate::text::{chars_of, owned, views};
use vstd::prelude::*;

verus! {

/// Where in a template a character stands.
#[derive(Clone, Copy, PartialEq, Eq, Structural)]
pub enum TemplatePlace {
    /// Between the tags.
    Text,
    /// In `{{ .. }}`.
    Variable,
    /// In `{% .. %}`.
    Block,
    /// In `{# .. #}`.
    Comment,
}

/// The tag that a brace and a second character open.
pub open spec fn opened_tag(c: char) -> Option<TemplatePlace> {
    if c == '{' {
        Some(TemplatePlace::Variable)
    } else if c == '%' {
        Some(TemplatePlace::Block)
    } else if c == '#' {
        Some(TemplatePlace::Comment)
    } else {
        None
    }
}

/// The character that closes a tag together with a brace.
pub open spec fn tag_closer(place: TemplatePlace) -> char {
    match place {
        TemplatePlace::Block => '%',
        TemplatePlace::Comment => '#',
        _ => '}',
    }
}

/// Whether a character may stand in a tag of a simple template: in names, between
/// them, in a comparison, or before a filter. Numbers are made of them too, but
/// nothing to call, subscript or repeat with.
pub open spec fn is_tag_char(c: char) -> bool {
    ||| 'a' <= c <= 'z'
    ||| 'A' <= c <= 'Z'
    ||| '0' <= c <= '9'
    ||| c == '_' || c == ' ' || c == '\n' || c == '.' || c == '|' || c == '-' || c == '~'
    ||| c == '=' || c == '!' || c == '<' || c == '>'
}

/// Whether a character may stand in a place of a simple template: any between the
/// tags, all but an opening brace in a comment.
pub open spec fn may_stand(c: char, place: TemplatePlace) -> bool {
    match place {
        TemplatePlace::Text => true,
        TemplatePlace::Comment => c != '{',
        _ => is_tag_char(c),
    }
}

/// How many characters a simple template may have in its tags, all taken together.
/// The engine goes into the tags by recursion, an operator or a branch at a time.
pub const TAG_CHARACTERS: usize = 1024;

/// How many characters a character takes of those that the tags may have.
pub open spec fn tag_share(place: TemplatePlace) -> nat {
    match place {
        TemplatePlace::Variable => 1,
        TemplatePlace::Block => 1,
        _ => 0,
    }
}

/// Whether a template is simple from a character on, with so many characters left
/// for its tags.
pub open spec fn simple_from(
    template: Seq<char>,
    i: int,
    place: TemplatePlace,
    left: nat,
) -> bool
    decreases template.len() - i,
{
    if i >= template.len() {
        true
    } else if place == TemplatePlace::Text && template[i] == '{' && i + 1 < template.len()
        && opened_tag(template[i + 1]) is Some {
        simple_from(template, i + 2, opened_tag(template[i + 1])->0, left)
    } else if place != TemplatePlace::Text && template[i] == tag_closer(place) && i + 1
        < template.len() && template[i + 1] == '}' {
        simple_from(template, i + 2, TemplatePlace::Text, left)
    } else {
        &&& may_stand(template[i], place)
        &&& tag_share(place) <= left
        &&& simple_from(template, i + 1, place, (left - tag_share(place)) as nat)
    }
}

/// Whether a template is simple: its tags hold names, filters without arguments
/// and comparisons, and not too many characters.
pub open spec fn simple_template(template: Seq<char>) -> bool {
    simple_from(template, 0, TemplatePlace::Text, TAG_CHARACTERS as nat)
}

fn opens_tag(c: char) -> (r: Option<TemplatePlace>)
    ensures
        r == opened_tag(c),
{
    if c == '{' {
        Some(TemplatePlace::Variable)
    } else if c == '%' {
        Some(TemplatePlace::Block)
    } else if c == '#' {
        Some(TemplatePlace::Comment)
    } else {
        None
    }
}

fn closes_tag(c: char, place: TemplatePlace) -> (r: bool)
    ensures
        r == (place != TemplatePlace::Text && c == tag_closer(place)),
{
    match place {
        TemplatePlace::Text => false,
        TemplatePlace::Variable => c == '}',
        TemplatePlace::Block => c == '%',
        TemplatePlace::Comment => c == '#',
    }
}

fn can_stand(c: char, place: TemplatePlace) -> (r: bool)
    ensures
        r == may_stand(c, place),
{
    match place {
        TemplatePlace::Text => true,
        TemplatePlace::Comment => c != '{',
        _ => {
            let in_name = ('a' <= c && c <= 'z') || ('A' <= c && c <= 'Z') || ('0' <= c && c <= '9')
                || c == '_';
            let between = c == ' ' || c == '\n' || c == '.' || c == '|' || c == '-' || c == '~';
            in_name || between || c == '=' || c == '!' || c == '<' || c == '>'
        },
    }
}

/// Whether a template is simple.
pub fn is_simple_template(template: &str) -> (r: bool)
    ensures
        r == simple_template(template@),
{
    let chars = chars_of(template);
    let n: usize = chars.len();
    let mut place = TemplatePlace::Text;
    let mut left: usize = TAG_CHARACTERS;
    let mut i: usize = 0;
    while i < n
        invariant
            chars@ == template@,
            n == chars@.len(),
            i <= n,
            simple_template(template@) == simple_from(template@, i as int, place, left as nat),
        decreases n - i,
    {
        let c = chars[i];
        if i + 1 < n {
            let next = chars[i + 1];
            if place == TemplatePlace::Text && c == '{' {
                if let Some(tag) = opens_tag(next) {
                    place = tag;
                    i = i + 2;
                    continue;
                }
            }
            if next == '}' && closes_tag(c, place) {
                place = TemplatePlace::Text;
                i = i + 2;
                continue;
            }
        }
        if !can_stand(c, place) {
            return false;
        }
        if place == TemplatePlace::Variable || place == TemplatePlace::Block {
            if left == 0 {
                return false;
            }
            left = left - 1;
        }
        i = i + 1;
    }
    true
}

/// What the template engine makes of a template and its text variables: a text,
/// or the message with which it refuses the template.
pub uninterp spec fn engine_outcome(
    template: Seq<char>,
    names: Seq<Seq<char>>,
    texts: Seq<Seq<char>>,
) -> Result<Seq<char>, Seq<char>>;

/// `minijinja::Environment::render_str`, in a new environment without the filter
/// `format`, the test `divisibleby` and the engine's own functions: what comes of a
/// simple template depends on the template and on its variables alone. Which text it
/// is, and which templates the engine refuses, is not said.
///
/// Templates that are not simple are left out: on some of them the engine panics, on
/// a backward slice of an empty text or on a filter with too large a count, and on
/// others it runs out of stack, for operators, attributes, filters and branches in a
/// row are nested calls to it. It panics in the filter and in the test that the
/// environment lacks too, and templates that use one of them are refused. The functions
/// cannot be called in a simple template, and their own text differs from compiler to
/// compiler.
#[verifier::external_body]
fn engine_render(template: &str, names: &Vec<String>, texts: &Vec<String>) -> (r: Result<
    String,
    String,
>)
    requires
        simple_template(template@),
        names@.len() == texts@.len(),
    ensures
        match r {
            Ok(s) => engine_outcome(template@, views(names@), views(texts@)) == Ok::<_, Seq<char>>(
                s@,
            ),
            Err(m) => engine_outcome(template@, views(names@), views(texts@)) == Err::<
                Seq<char>,
                _,
            >(m@),
        },
{
    let names = names.iter().map(|name| name.as_str());
    let context: minijinja::Value = names.zip(texts.iter().map(|text| text.as_str())).collect();
    let mut environment = minijinja::Environment::new();
    environment.remove_filter("format");
    environment.remove_test("divisibleby");
    environment.remove_global("range");
    environment.remove_global("dict");
    environment.remove_global("debug");
    environment.remove_global("namespace");
    environment.render_str(template, context).map_err(|error| error.to_string())
}

/// A template that cannot be filled in.
#[derive(Debug)]
pub struct TemplateError {
    pub message: String,
}

impl View for TemplateError {
    type V = Seq<char>;

    open spec fn view(&self) -> Seq<char> {
        self.message@
    }
}

/// What comes of a template and its text variables: what the engine makes of a
/// simple template, and a refusal of any other.
pub open spec fn rendered(
    template: Seq<char>,
    names: Seq<Seq<char>>,
    texts: Seq<Seq<char>>,
) -> Result<Seq<char>, Seq<char>> {
    if simple_template(template) {
        engine_outcome(template, names, texts)
    } else {
        Err("tags may hold only names, filters without arguments and comparisons, and few of them"@)
    }
}

/// A template filled in with text variables.
pub fn render_template_with_texts(template: &str, names: &Vec<String>, texts: &Vec<String>) -> (r:
    Result<String, TemplateError>)
    requires
        names@.len() == texts@.len(),
    ensures
        match r {
            Ok(s) => rendered(template@, views(names@), views(texts@)) == Ok::<_, Seq<char>>(s@),
            Err(e) => rendered(template@, views(names@), views(texts@)) == Err::<Seq<char>, _>(e@),
        },
{
    if !is_simple_template(template) {
        let message = owned("tags may hold only names, filters without arguments and comparisons, and few of them");
        return Err(TemplateError { message });
    }
    match engine_render(template, names, texts) {
        Ok(s) => Ok(s),
        Err(message) => Err(TemplateError { message }),
    }
}

/// A template about a model, which it knows as `model_name`.
pub fn render_ast_template_with_name(template: &str, model_name: &str) -> (r: Result<
    String,
    TemplateError,
>)
    ensures
        match r {
            Ok(s) => rendered(template@, seq!["model_name"@], seq![model_name@]) == Ok::<
                _,
                Seq<char>,
            >(s@),
            Err(e) => rendered(template@, seq!["model_name"@], seq![model_name@]) == Err::<
                Seq<char>,
                _,
            >(e@),
        },
{
    let names = vec![owned("model_name")];
    let texts = vec![owned(model_name)];
    assert(views(names@) =~= seq!["model_name"@]);
    assert(views(texts@) =~= seq![model_name@]);
    render_template_with_texts(template, &names, &texts)
}

} // verus!
