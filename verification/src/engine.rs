//! The calls into the template engine, the pattern matcher and the standard
//! library's word splitter. Nothing in this file is proved: each contract
//! states what the called code documents.

use vstd::prelude::*;
use crate::datum::{Datum, Tree};

verus! {

/// The template engine's own value type, opaque here.
#[verifier::external_type_specification]
#[verifier::external_body]
pub struct ExTemplateValue(minijinja::Value);

/// The variables that a template reads without setting them, attribute
/// lookups written out with dots (`a.b`); `None` where the text is no
/// template.
pub uninterp spec fn undeclared_variables(source: Seq<char>) -> Option<Set<Seq<char>>>;

/// Whether a pattern matches somewhere in a text; `None` where the pattern
/// does not compile.
pub uninterp spec fn regex_is_match(pattern: Seq<char>, text: Seq<char>) -> Option<bool>;

/// The text that a template renders to against a context; `None` where the text
/// is no template or rendering fails.
pub uninterp spec fn rendered(source: Seq<char>, context: Tree) -> Option<Seq<char>>;

/// The words of a text: what stands between its stretches of white space.
pub uninterp spec fn whitespace_words(text: Seq<char>) -> Seq<Seq<char>>;

/// Splits `text` with `str::split_whitespace`. The contract claims only that
/// the words depend on the text alone.
#[verifier::external_body]
pub(crate) fn split_words(text: &str) -> (r: Vec<String>)
    ensures
        r.deep_view() == whitespace_words(text@),
{
    text.split_whitespace().map(String::from).collect()
}

/// Parses `source` with minijinja's `Environment::template_from_str`, in a fresh
/// `Environment`, and asks the template for `undeclared_variables(true)`. The
/// engine returns a set; it comes back as a vector in no particular order. The
/// contract claims only that the names returned depend on `source` alone.
#[verifier::external_body]
pub(crate) fn template_variables(source: &str) -> (r: Option<Vec<String>>)
    ensures
        r is Some == undeclared_variables(source@) is Some,
        r matches Some(names) ==> names.deep_view().to_set() == undeclared_variables(source@)->0,
{
    let env = minijinja::Environment::new();
    match env.template_from_str(source) {
        Ok(template) => Some(template.undeclared_variables(true).into_iter().collect()),
        Err(_) => None,
    }
}

/// Compiles `pattern` with `regex::Regex::new` and searches `text` with
/// `Regex::find`. The contract claims only that the answer depends on the two
/// texts alone.
#[verifier::external_body]
pub(crate) fn regex_match(pattern: &str, text: &str) -> (r: Option<bool>)
    ensures
        r == regex_is_match(pattern@, text@),
{
    match regex::Regex::new(pattern) {
        Ok(re) => Some(re.find(text).is_some()),
        Err(_) => None,
    }
}

/// Builds the engine's value for `v` with `minijinja::Value::from` and its
/// `FromIterator` impls, for [`render_str`] to hand to the engine: `Null`
/// becomes the engine's none, a table a map, a list a sequence, and `Other`
/// the text it holds. Nothing is claimed of the result.
#[verifier::external_body]
fn template_value(v: &Datum) -> minijinja::Value {
    match v {
        Datum::Null => minijinja::Value::from(()),
        Datum::Bool(b) => minijinja::Value::from(*b),
        Datum::Int(n) => minijinja::Value::from(*n),
        Datum::Uint(n) => minijinja::Value::from(*n),
        Datum::Text(s) => minijinja::Value::from(s.as_str()),
        Datum::Other(s) => minijinja::Value::from(s.as_str()),
        Datum::List(l) => l.iter().map(template_value).collect(),
        Datum::Table(t) => t.iter().map(|f| (f.0.as_str(), template_value(&f.1))).collect(),
    }
}

/// Renders `source` against `context` with minijinja's
/// `Environment::render_str`, in a fresh `Environment`. The contract claims
/// only that the outcome depends on the template and the context alone.
#[verifier::external_body]
pub(crate) fn render_str(source: &str, context: &Datum) -> (r: Option<String>)
    ensures
        r.deep_view() == rendered(source@, context@),
{
    let env = minijinja::Environment::new();
    env.render_str(source, template_value(context)).ok()
}

} // verus!
