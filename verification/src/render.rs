use vstd::prelude::*;
use crate::route::vars_view;

verus! {

/// What rendering the template `template`, registered under `name`, against
/// a flat map of string variables yields: the rendered text, or the failure
/// description.  A function of its arguments alone.
pub uninterp spec fn render_vars_spec(
    name: Seq<char>,
    template: Seq<char>,
    vars: Map<Seq<char>, Seq<char>>,
) -> Result<Seq<char>, Seq<char>>;

/// What parsing a response body as JSON and rendering the template
/// `template`, registered under `name`, against the parsed value yields:
/// the rendered text, or `Err((true, m))` for a body that does not parse,
/// or `Err((false, m))` for a template that fails to compile or render.  A
/// function of its arguments alone.
pub uninterp spec fn render_json_spec(
    name: Seq<char>,
    template: Seq<char>,
    body: Seq<u8>,
) -> Result<Seq<char>, (bool, Seq<char>)>;

/// The outcome of rendering a response body.
#[derive(Debug, PartialEq)]
pub enum Rendered {
    /// The rendered text.
    Done(String),
    /// The body did not parse as JSON.
    BadBody(String),
    /// The template failed to compile or render.
    BadTemplate(String),
}

/// Relies on tinytemplate::TinyTemplate (new, add_template, render) with the
/// variable map as context: the outcome is a function of the template name,
/// the template text and the variables, named by `render_vars_spec`.  On a
/// repeated variable the later entry wins, as in the map.
#[verifier::external_body]
pub fn render_vars(name: &str, template: &str, vars: &Vec<(String, String)>) -> (r: Result<
    String,
    String,
>)
    ensures
        match r {
            Ok(s) => render_vars_spec(name@, template@, vars_view(vars@)) == Ok::<
                Seq<char>,
                Seq<char>,
            >(s@),
            Err(e) => render_vars_spec(name@, template@, vars_view(vars@)) == Err::<
                Seq<char>,
                Seq<char>,
            >(e@),
        },
{
    let mut t = tinytemplate::TinyTemplate::new();
    if let Err(e) = t.add_template(name, template) {
        return Err(e.to_string());
    }
    let mut cxt: std::collections::HashMap<&str, &str> = std::collections::HashMap::new();
    for (k, v) in vars.iter() {
        cxt.insert(k.as_str(), v.as_str());
    }
    match t.render(name, &cxt) {
        Ok(s) => Ok(s),
        Err(e) => Err(e.to_string()),
    }
}

/// Relies on serde_json::from_slice (to parse the body) and on
/// tinytemplate::TinyTemplate (new, add_template, render against the parsed
/// value): the outcome is a function of the arguments alone, named by
/// `render_json_spec`.
#[verifier::external_body]
pub fn render_json(name: &str, template: &str, body: &Vec<u8>) -> (r: Rendered)
    ensures
        match r {
            Rendered::Done(s) => render_json_spec(name@, template@, body@) == Ok::<
                Seq<char>,
                (bool, Seq<char>),
            >(s@),
            Rendered::BadBody(m) => render_json_spec(name@, template@, body@) == Err::<
                Seq<char>,
                (bool, Seq<char>),
            >((true, m@)),
            Rendered::BadTemplate(m) => render_json_spec(name@, template@, body@) == Err::<
                Seq<char>,
                (bool, Seq<char>),
            >((false, m@)),
        },
{
    let value: serde_json::Value = match serde_json::from_slice(body.as_slice()) {
        Ok(v) => v,
        Err(e) => return Rendered::BadBody(e.to_string()),
    };
    let mut t = tinytemplate::TinyTemplate::new();
    if let Err(e) = t.add_template(name, template) {
        return Rendered::BadTemplate(e.to_string());
    }
    match t.render(name, &value) {
        Ok(s) => Rendered::Done(s),
        Err(e) => Rendered::BadTemplate(e.to_string()),
    }
}

} // verus!
