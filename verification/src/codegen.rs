//! Code generation: each entry of a code generation query's JSON tree is
//! rendered, through a tera template that the entry names, into a file that
//! the entry names.
use vstd::prelude::*;
use tera::{Context, Tera};
use crate::analysis::{codegen_field, field_text};
use crate::json::JsonValue;

verus! {

/// `tera::Tera`, held opaque.
#[verifier::external_type_specification]
#[verifier::external_body]
pub struct ExTera(Tera);

/// `tera::Error`, carried opaque.
#[verifier::external_type_specification]
#[verifier::external_body]
pub struct ExTeraError(tera::Error);

/// `serde_json::Value`, held opaque.
#[verifier::external_type_specification]
#[verifier::external_body]
pub struct ExSerdeJsonValue(serde_json::Value);

/// The names of the templates that a tera engine holds.
pub uninterp spec fn engine_templates(engine: Tera) -> Set<Seq<char>>;

/// The names of a list of templates.
pub open spec fn template_names(templates: Seq<(String, String)>) -> Set<Seq<char>> {
    Set::new(|n: Seq<char>| exists|i: int| 0 <= i < templates.len() && (#[trigger] templates[i]).0@ == n)
}

/// `Tera::new`, then `add_raw_templates` with each (name, text) pair, then
/// `autoescape_on` with no suffix. Claimed: on success the engine holds
/// exactly the templates of the given names (a new engine holds none, and
/// `add_raw_templates` inserts each template under its name, undoing all of
/// them where one fails to parse). Whether the templates parse is not
/// claimed.
#[verifier::external_body]
fn new_engine(templates: &Vec<(String, String)>) -> (r: Result<Tera, tera::Error>)
    ensures
        r matches Ok(e) ==> engine_templates(e) == template_names(templates@),
{
    let mut tera = Tera::new();
    tera.add_raw_templates(templates.iter().map(|(n, t)| (n.as_str(), t.as_str())))?;
    tera.autoescape_on(Vec::<&str>::new());
    Ok(tera)
}

/// A `serde_json::Value` from a JSON value of the library, one variant for
/// one; a number from its decimal text.
#[verifier::external_body]
fn to_serde_value(v: &JsonValue) -> (r: serde_json::Value) {
    match v {
        JsonValue::Null => serde_json::Value::Null,
        JsonValue::Bool(b) => serde_json::Value::Bool(*b),
        JsonValue::Number(n) => serde_json::from_str(&n.text).unwrap_or(serde_json::Value::Null),
        JsonValue::String(s) => serde_json::Value::String(s.clone()),
        JsonValue::Array(items) => serde_json::Value::Array(items.iter().map(to_serde_value).collect()),
        JsonValue::Object(entries) => serde_json::Value::Object(
            entries.iter().map(|(k, v)| (k.clone(), to_serde_value(v))).collect(),
        ),
    }
}

/// `Context::from_serialize` of the entry, then `Tera::render` of the named
/// template. Claimed: rendering succeeds only for a template that the
/// engine holds (the engine has no fallback prefix, so a name is looked up
/// as it is). What the text holds is not claimed: a template may walk the
/// entries of a map, which tera keeps in a `HashMap` and walks in its
/// order.
#[verifier::external_body]
fn render_entry(engine: &Tera, name: &str, entry: &JsonValue) -> (r: Result<String, tera::Error>)
    ensures
        r is Ok ==> engine_templates(*engine).contains(name@),
{
    let ctx = Context::from_serialize(&to_serde_value(entry))?;
    engine.render(name, &ctx)
}

/// A tera engine with the given templates, each a pair of its name and its
/// text; the error of tera where one fails to load.
pub fn load_templates(templates: &Vec<(String, String)>) -> (r: Result<Tera, tera::Error>)
    ensures
        r matches Ok(e) ==> engine_templates(e) == template_names(templates@),
{
    new_engine(templates)
}

/// A file that code generation produces: its name, the template it was
/// rendered with, and the text or the error of rendering.
pub struct GeneratedFile {
    pub file_name: String,
    pub template: String,
    pub content: Result<String, tera::Error>,
}

/// The file that each entry asks for, in order: named by its `ex_f_name`
/// field, rendered with the template named by its `ex_f_tpl` field and the
/// entry as the template's context.
pub fn render_all(engine: &Tera, entries: &Vec<JsonValue>) -> (r: Vec<GeneratedFile>)
    ensures
        r@.len() == entries@.len(),
        forall|i: int|
            0 <= i < r@.len() ==> {
                &&& (#[trigger] r@[i]).file_name@ == field_text(entries@[i], "ex_f_name"@)
                &&& r@[i].template@ == field_text(entries@[i], "ex_f_tpl"@)
                &&& (r@[i].content is Ok ==> engine_templates(*engine).contains(r@[i].template@))
            },
{
    let mut files: Vec<GeneratedFile> = Vec::new();
    let n = entries.len();
    let mut i: usize = 0;
    while i < n
        invariant
            n == entries@.len(),
            i <= n,
            files@.len() == i,
            forall|j: int|
                0 <= j < i ==> {
                    &&& (#[trigger] files@[j]).file_name@ == field_text(entries@[j], "ex_f_name"@)
                    &&& files@[j].template@ == field_text(entries@[j], "ex_f_tpl"@)
                    &&& (files@[j].content is Ok ==> engine_templates(*engine).contains(
                        files@[j].template@,
                    ))
                },
        decreases n - i,
    {
        let entry = &entries[i];
        let file_name = codegen_field(entry, "ex_f_name");
        let template = codegen_field(entry, "ex_f_tpl");
        let content = render_entry(engine, template.as_str(), entry);
        files.push(GeneratedFile { file_name, template, content });
        i = i + 1;
    }
    files
}

} // verus!
