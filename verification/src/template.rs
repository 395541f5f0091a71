//! URL templates, by way of tinytemplate: a template is compiled once
//! and rendered for each node, with the kind of the node as `node_type`
//! and its number as `id`.
use vstd::prelude::*;
use vstd::string::StringExecFns;
use crate::error::{kind_name, kind_word, GraphError};
use crate::metadata::Kind;

verus! {

/// `tinytemplate::TinyTemplate`, the template engine, carried as it is.
#[verifier::external_type_specification]
#[verifier::external_body]
pub struct ExTinyTemplate<'a>(tinytemplate::TinyTemplate<'a>);

/// `tinytemplate::error::Error`, the error of the engine, carried as it is.
#[verifier::external_type_specification]
#[verifier::external_body]
pub struct ExTemplateError(tinytemplate::error::Error);

/// The templates that were added to an engine: the text of each, by its
/// name.
pub uninterp spec fn registered(engine: tinytemplate::TinyTemplate<'_>) -> Map<Seq<char>, Seq<char>>;

/// Whether the engine compiles a template text.
pub uninterp spec fn compiles(text: Seq<char>) -> bool;

/// What the engine renders for a template text in a context of two
/// values, a string under one key and a number under another, where it
/// renders anything.
pub uninterp spec fn rendered(
    text: Seq<char>,
    key: Seq<char>,
    value: Seq<char>,
    number_key: Seq<char>,
    number: int,
) -> Option<Seq<char>>;

/// The template texts that are handed to the engine: such a text holds
/// neither the opening of a block tag, `{{`, nor that of a comment, `{#`,
/// and does not end in a backslash. It is made of plain text and of value
/// tags such as `{id}`. Among the other texts are some on which the
/// engine panics: the comment `{#}`, the block `{{ if not }}`, and any
/// text that a backslash closes.
pub open spec fn plain(text: Seq<char>) -> bool {
    &&& forall|i: int|
        0 <= i < text.len() - 1 && #[trigger] text[i] == '{' ==> text[i + 1] != '{' && text[i + 1]
            != '#'
    &&& text.len() > 0 ==> text[text.len() - 1] != '\\'
}

/// `TinyTemplate::new`: an engine without templates.
#[verifier::external_body]
fn new_engine<'a>() -> (engine: tinytemplate::TinyTemplate<'a>)
    ensures
        registered(engine) == (Map::<Seq<char>, Seq<char>>::empty()),
{
    tinytemplate::TinyTemplate::new()
}

/// `TinyTemplate::add_template`: compiles a template text and, where that
/// succeeds, registers it under the name; where it fails the engine is as
/// before. Whether it succeeds depends on the text alone. It returns for
/// every plain text.
#[verifier::external_body]
fn add_template<'a>(
    engine: &mut tinytemplate::TinyTemplate<'a>,
    name: &'a str,
    text: &'a str,
) -> (r: Result<(), tinytemplate::error::Error>)
    requires
        plain(text@),
    ensures
        r is Ok <==> compiles(text@),
        r is Ok ==> registered(*final(engine)) == registered(*old(engine)).insert(name@, text@),
        r is Err ==> registered(*final(engine)) == registered(*old(engine)),
{
    engine.add_template(name, text)
}

/// `TinyTemplate::render` of a registered template, in a context of two
/// values: a string under `key` and a number under `number_key`. For a
/// plain template, which calls no other, whether it succeeds and the text
/// it gives depend on the text of the template and on the context alone.
/// The engine is one that `new_engine` made: it formats values as
/// tinytemplate does by default.
#[verifier::external_body]
fn render_template(
    engine: &tinytemplate::TinyTemplate,
    name: &str,
    key: &str,
    value: &str,
    number_key: &str,
    number: i32,
) -> (r: Result<String, tinytemplate::error::Error>)
    requires
        registered(*engine).contains_key(name@),
        plain(registered(*engine)[name@]),
    ensures
        match rendered(registered(*engine)[name@], key@, value@, number_key@, number as int) {
            Some(t) => r matches Ok(s) && s@ == t,
            None => r is Err,
        },
{
    let mut context = serde_json::Map::new();
    context.insert(key.to_owned(), serde_json::Value::from(value));
    context.insert(number_key.to_owned(), serde_json::Value::from(number));
    engine.render(name, &serde_json::Value::Object(context))
}

/// The message of a `tinytemplate::error::Error`, as its `Display` writes
/// it.
#[verifier::external_body]
fn template_error_message(e: &tinytemplate::error::Error) -> String {
    format!("{}", e)
}

/// Whether a template text is plain.
pub fn is_plain(text: &str) -> (b: bool)
    ensures
        b == plain(text@),
{
    broadcast use vstd::string::group_string_axioms;

    let mut previous: Option<char> = None;
    for c in it: text.chars()
        invariant
            it.seq() == text@,
            match previous {
                Some(p) => it.index() > 0 && p == text@[it.index() - 1],
                None => it.index() == 0,
            },
            forall|i: int|
                0 <= i < it.index() - 1 && #[trigger] text@[i] == '{' ==> text@[i + 1] != '{'
                    && text@[i + 1] != '#',
    {
        assert(it.index() < text@.len());
        assert(c == text@[it.index() as int]);
        match previous {
            Some(p) => {
                if p == '{' && (c == '{' || c == '#') {
                    assert(text@[it.index() - 1] == '{');
                    return false;
                }
            },
            None => {},
        }
        previous = Some(c);
    }
    match previous {
        Some(p) => p != '\\',
        None => true,
    }
}

/// Whether a template text is taken for a URL template: it is plain and
/// the engine compiles it.
pub open spec fn accepted(text: Seq<char>) -> bool {
    plain(text) && compiles(text)
}

/// The URL of a node of a kind and number, for a template text that is
/// accepted: what the engine renders for the text with the word of the
/// kind as `node_type` and the number as `id`.
pub open spec fn url_text(text: Seq<char>, kind: Kind, id: i32) -> Option<Seq<char>> {
    rendered(text, "node_type"@, kind_word(kind), "id"@, id as int)
}

/// A compiled URL template.
pub struct UrlTemplate<'a> {
    source: &'a str,
    engine: tinytemplate::TinyTemplate<'a>,
}

impl<'a> UrlTemplate<'a> {
    /// The text of the template.
    pub closed spec fn text(&self) -> Seq<char> {
        self.source@
    }

    /// The template is registered with its engine.
    pub closed spec fn wf(&self) -> bool {
        &&& plain(self.source@)
        &&& registered(self.engine).contains_key("url"@)
        &&& registered(self.engine)["url"@] == self.source@
    }

    /// Compiles a template text. A text that is not plain is refused
    /// without a call of the engine.
    pub fn compile(text: &'a str) -> (r: Result<UrlTemplate<'a>, GraphError>)
        ensures
            match r {
                Ok(template) => accepted(text@) && template.wf() && template.text() == text@,
                Err(e) => !accepted(text@) && e is Template,
            },
    {
        if !is_plain(text) {
            return Err(
                GraphError::Template(
                    String::from_str(
                        "a URL template holds no block tag, no comment and no closing backslash",
                    ),
                ),
            );
        }
        let mut engine = new_engine();
        match add_template(&mut engine, "url", text) {
            Ok(()) => Ok(UrlTemplate { source: text, engine }),
            Err(e) => Err(GraphError::Template(template_error_message(&e))),
        }
    }

    /// The text of the template.
    pub fn as_str(&self) -> (r: &'a str)
        ensures
            r@ == self.text(),
    {
        self.source
    }

    /// The URL of a node of a kind and number.
    pub fn render(&self, kind: Kind, id: i32) -> (r: Result<String, GraphError>)
        requires
            self.wf(),
        ensures
            match url_text(self.text(), kind, id) {
                Some(url) => r matches Ok(s) && s@ == url,
                None => r matches Err(e) && e is Template,
            },
    {
        match render_template(&self.engine, "url", "node_type", kind_name(kind), "id", id) {
            Ok(url) => Ok(url),
            Err(e) => Err(GraphError::Template(template_error_message(&e))),
        }
    }
}

} // verus!
