//! Rendering of the user-configured callback template.

use vstd::prelude::*;

verus! {

/// What rendering the callback template yields for the given variables, or
/// `None` when the template cannot be rendered from them. The value is a
/// function of the arguments alone.
pub uninterp spec fn rendered_of(
    template: Seq<char>,
    id: usize,
    command: Seq<char>,
    path: Seq<char>,
    result: Seq<char>,
) -> Option<Seq<char>>;

/// Relies on `handlebars::Handlebars::render_template` in strict mode: the
/// rendered command is a function of the template and the four variables
/// alone, and rendering fails exactly when the template cannot be rendered
/// from them (an unknown variable, a syntax error).
#[verifier::external_body]
pub(crate) fn render_template(
    template: &String,
    id: usize,
    command: &String,
    path: &String,
    result: &String,
) -> (r: Option<String>)
    ensures
        match r {
            Some(s) => rendered_of(template@, id, command@, path@, result@) == Some(s@),
            None => rendered_of(template@, id, command@, path@, result@) is None,
        },
{
    let mut registry = handlebars::Handlebars::new();
    registry.set_strict_mode(true);
    let mut parameters = std::collections::HashMap::new();
    parameters.insert("id", id.to_string());
    parameters.insert("command", command.clone());
    parameters.insert("path", path.clone());
    parameters.insert("result", result.clone());
    registry.render_template(template.as_str(), &parameters).ok()
}

/// Relies on `String`'s `FromIterator<&char>` impl: the collected string
/// holds exactly the characters of `v`, in order.
#[verifier::external_body]
pub(crate) fn string_from_chars(v: &Vec<char>) -> (r: String)
    ensures
        r@ == v@,
{
    v.iter().collect()
}

}
