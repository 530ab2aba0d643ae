use crate::dates::{date_formats, expand_dates, strftime_replace, DateError};
use crate::table::SubstitutionTable;
use crate::unescape::{decode, unescape_mapped, DecodeError, DecodeFault};
use vstd::prelude::*;

verus! {

/// Why a template could not be rendered.
#[derive(Debug)]
pub enum TemplateError {
    /// Its date expressions are malformed.
    Date(DateError),
    /// Its escapes or placeholders are malformed.
    Decode(DecodeError),
}

/// Why a template could not be rendered, as a value of the model.
pub enum TemplateFault {
    Date(DateError),
    Decode(DecodeFault),
}

impl View for TemplateError {
    type V = TemplateFault;

    open spec fn view(&self) -> TemplateFault {
        match self {
            TemplateError::Date(e) => TemplateFault::Date(*e),
            TemplateError::Decode(e) => TemplateFault::Decode(e@),
        }
    }
}

/// A result with its text as a sequence of characters and its error as a
/// value of the model.
pub open spec fn template_result(r: Result<String, TemplateError>) -> Result<
    Seq<char>,
    TemplateFault,
> {
    match r {
        Ok(t) => Ok(t@),
        Err(e) => Err(e@),
    }
}

/// What rendering the template `src` gives: its date expressions become
/// `stamps`, then its escapes and placeholders are decoded with `table`.
pub open spec fn render(src: Seq<char>, stamps: Seq<Seq<char>>, table: Map<char, Seq<char>>) -> Result<
    Seq<char>,
    TemplateFault,
> {
    match expand_dates(src, stamps) {
        Err(e) => Err(TemplateFault::Date(e)),
        Ok(x) => match decode(x, table) {
            Ok(y) => Ok(y),
            Err(d) => Err(TemplateFault::Decode(d)),
        },
    }
}

/// Renders `text` with the current local time and `table`: date expressions
/// first, then escapes and placeholders.
pub fn format_text(text: String, table: &SubstitutionTable) -> (r: Result<String, TemplateError>)
    ensures
        exists|stamps: Seq<Seq<char>>|
            stamps.len() == date_formats(text@).len() && #[trigger] render(text@, stamps, table@)
                == template_result(r),
{
    let ghost src = text@;
    let expanded = strftime_replace(text);
    let ghost w = choose|stamps: Seq<Seq<char>>|
        stamps.len() == date_formats(src).len() && #[trigger] expand_dates(src, stamps)
            == crate::dates::date_result(expanded);
    let r = match expanded {
        Err(e) => Err(TemplateError::Date(e)),
        Ok(x) => match unescape_mapped(x, table) {
            Ok(y) => Ok(y),
            Err(d) => Err(TemplateError::Decode(d)),
        },
    };
    assert(render(src, w, table@) == template_result(r));
    r
}

/// The template that a prompt is rendered from: the override where there is
/// one, else the default.
pub open spec fn prompt_source(template: Option<String>, default: String) -> Seq<char> {
    match template {
        Some(t) => t@,
        None => default@,
    }
}

/// Renders a prompt from `template` (an override, where one is set) or else
/// from `default`. Where rendering fails, the prompt is `default` itself,
/// not decoded, and the error comes with it.
pub fn get_prompt(template: Option<String>, default: String, mapping: &SubstitutionTable) -> (r: (
    String,
    Option<TemplateError>,
))
    ensures
        exists|stamps: Seq<Seq<char>>|
            {
                &&& stamps.len() == date_formats(prompt_source(template, default)).len()
                &&& match #[trigger] render(prompt_source(template, default), stamps, mapping@) {
                    Ok(y) => r.0@ == y && r.1 is None,
                    Err(e) => r.0@ == default@ && r.1 is Some && r.1->0@ == e,
                }
            },
{
    let ghost source = prompt_source(template, default);
    let src = match template {
        Some(t) => t,
        None => default.clone(),
    };
    assert(src@ == source);
    let r = format_text(src, mapping);
    match r {
        Ok(p) => (p, None),
        Err(e) => (default, Some(e)),
    }
}

} // verus!
