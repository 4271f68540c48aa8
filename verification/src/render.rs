//! The template-rendering capability, provided by the `tera` engine.
//!
//! A template plus a set of named text variables yields a rendered text, or
//! an engine error.  A template may call engine functions whose results
//! depend on more than the variables (the time, for one), so nothing is
//! assumed about the text that comes back: every caller states what holds
//! whatever the engine returned.

use vstd::prelude::*;

verus! {

#[verifier::external_type_specification]
#[verifier::external_body]
pub struct ExContext(tera::Context);

/// Relies on `tera::Context::new`: a fresh context holds no variables.
#[verifier::external_body]
fn context_new() -> tera::Context {
    tera::Context::new()
}

/// Relies on `tera::Context::insert`: binds the name to the text,
/// replacing any earlier binding of the same name.  What a context holds
/// can only reach a caller through `one_off`, whose result is unpinned, so
/// nothing is stated here.
#[verifier::external_body]
fn context_insert(c: &mut tera::Context, key: &str, val: &str) {
    c.insert(key, val);
}

/// Relies on `tera::Tera::one_off`: renders the template against the
/// context, without HTML escaping.  The engine's errors are carried as
/// plain text.
#[verifier::external_body]
fn one_off(template: &str, c: &tera::Context) -> (r: Result<String, String>)
{
    match tera::Tera::one_off(template, c, false) {
        Ok(s) => Ok(s),
        Err(e) => Err(format!("{}", e)),
    }
}

/// Render a template against named text variables.
///
/// What text comes back is up to the engine; the variables are handed over
/// exactly, in order, later bindings of a name replacing earlier ones.
pub fn render_template(template: &str, vars: &Vec<(String, String)>) -> (r: Result<String, String>)
{
    let mut ctx = context_new();
    let n = vars.len();
    let mut i: usize = 0;
    while i < n
        invariant
            n == vars@.len(),
            i <= n,
        decreases n - i,
    {
        let (k, v) = &vars[i];
        context_insert(&mut ctx, k.as_str(), v.as_str());
        i += 1;
    }
    one_off(template, &ctx)
}

} // verus!
