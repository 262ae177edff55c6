//! Template rendering with Tera.

use vstd::prelude::*;

use crate::error::Error;
use crate::strmap::{distinct_keys, entries_map, lemma_entries_map_push, StrMap};
use crate::text::{chars_of, push_all, string_of};

verus! {

#[verifier::external_type_specification]
#[verifier::external_body]
pub struct ExTera(tera::Tera);

#[verifier::external_type_specification]
#[verifier::external_body]
pub struct ExTeraContext(tera::Context);

/// `Tera::render` of a template with a context. Its output depends on the
/// templates loaded and is left unsaid.
#[verifier::external_body]
fn render_template(tera: &tera::Tera, name: &str, context: &tera::Context) -> Result<String, String> {
    tera.render(name, context).map_err(|e| e.to_string())
}

/// What a Tera context holds as text: the names whose value is a JSON
/// string, with that string.
pub uninterp spec fn context_strings(c: tera::Context) -> Map<Seq<char>, Seq<char>>;

/// `tera::Context::new`: an empty context.
#[verifier::external_body]
fn new_context() -> (fresh: tera::Context)
    ensures
        context_strings(fresh).dom() == Set::<Seq<char>>::empty(),
{
    tera::Context::new()
}

/// `tera::Context::insert`: sets `key` to the string `value`, replacing
/// what the name held.
#[verifier::external_body]
fn context_insert(context: &mut tera::Context, key: &str, value: &str)
    ensures
        context_strings(*final(context)) == context_strings(*old(context)).insert(key@, value@),
{
    context.insert(key, value);
}

/// A Tera context holding each entry of `data` as a string.
fn context_of(data: &StrMap) -> (c: tera::Context)
    ensures
        context_strings(c) == data@,
{
    data.keys_distinct();
    let ghost e = data.entries();
    let mut context = new_context();
    let mut i: usize = 0;
    proof {
        assert(entries_map(e.subrange(0, 0)) =~= Map::<Seq<char>, Seq<char>>::empty());
    }
    while i < data.len()
        invariant
            i <= e.len(),
            e == data.entries(),
            distinct_keys(e),
            context_strings(context) == entries_map(e.subrange(0, i as int)),
        decreases e.len() - i,
    {
        let (k, v) = data.entry_at(i);
        context_insert(&mut context, k.as_str(), v.as_str());
        proof {
            let pre = e.subrange(0, i + 1);
            assert(pre.drop_last() =~= e.subrange(0, i as int));
            assert(distinct_keys(pre)) by {
                assert forall|a: int, b: int| 0 <= a < pre.len() && 0 <= b < pre.len() && a != b implies pre[a].0 != pre[b].0 by {
                    assert(pre[a] == e[a] && pre[b] == e[b]);
                }
            }
            lemma_entries_map_push(pre);
        }
        i = i + 1;
    }
    assert(e.subrange(0, e.len() as int) =~= e);
    context
}

/// `Tera::add_raw_template`: parses and adds a template. Whether it parses
/// is left unsaid.
#[verifier::external_body]
fn add_raw(tera: &mut tera::Tera, name: &str, content: &str) -> Result<(), String> {
    tera.add_raw_template(name, content).map_err(|e| e.to_string())
}

/// Whether an error is a template error with the given label before the
/// engine's message.
pub open spec fn labelled(e: Error, label: Seq<char>) -> bool {
    e matches Error::Template(m) && exists|t: Seq<char>| m@ == label + t
}

fn labelled_error(label: &str, message: String) -> (e: Error)
    ensures
        e matches Error::Template(m) && m@ == label@ + message@,
{
    let mut t = chars_of(label);
    let mc = chars_of(message.as_str());
    push_all(&mut t, mc.as_slice());
    Error::Template(string_of(t.as_slice()))
}

/// A template engine: a set of named templates.
pub struct TemplateEngine {
    tera: tera::Tera,
}

impl TemplateEngine {
    /// An engine over templates already loaded into Tera (reading them
    /// from disk is the caller's part).
    pub fn from_tera(tera: tera::Tera) -> (e: Self)
        ensures
            e.engine() == tera,
    {
        TemplateEngine { tera }
    }

    /// The error for templates that could not be loaded: Tera's message
    /// behind `Failed to load templates: `.
    pub fn load_error(message: String) -> (e: Error)
        ensures
            e matches Error::Template(m) && m@ == "Failed to load templates: "@ + message@,
    {
        labelled_error("Failed to load templates: ", message)
    }

    /// Renders a template with string data.
    pub fn render(&self, template: &str, data: &StrMap) -> (r: Result<String, Error>)
        ensures
            r matches Err(e) ==> labelled(e, "Render error: "@),
    {
        let context = context_of(data);
        self.render_with_context(template, &context)
    }

    /// Renders a template with a Tera context.
    pub fn render_with_context(&self, template: &str, context: &tera::Context) -> (r: Result<String, Error>)
        ensures
            r matches Err(e) ==> labelled(e, "Render error: "@),
    {
        match render_template(&self.tera, template, context) {
            Ok(s) => Ok(s),
            Err(m) => Err(labelled_error("Render error: ", m)),
        }
    }

    /// Adds a template from a string.
    pub fn add_template(&mut self, name: &str, content: &str) -> (r: Result<(), Error>)
        ensures
            r matches Err(e) ==> labelled(e, "Failed to add template: "@),
    {
        match add_raw(&mut self.tera, name, content) {
            Ok(()) => Ok(()),
            Err(m) => Err(labelled_error("Failed to add template: ", m)),
        }
    }

    /// The Tera instance this engine renders with.
    pub closed spec fn engine(&self) -> tera::Tera {
        self.tera
    }

    /// The underlying Tera instance.
    pub fn tera(&self) -> (t: &tera::Tera)
        ensures
            *t == self.engine(),
    {
        &self.tera
    }

    /// The underlying Tera instance, for changing.
    pub fn tera_mut(&mut self) -> (t: &mut tera::Tera)
        ensures
            *t == old(self).engine(),
            final(self).engine() == *final(t),
    {
        &mut self.tera
    }
}

} // verus!
