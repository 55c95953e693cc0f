//! Template bindings, what rendering reports, and byte comparison.
use vstd::prelude::*;

verus! {

/// A value that a template variable is bound to. A real number is kept as
/// the text it was written with.
#[derive(Clone, Debug)]
pub enum TemplateVar {
    Str(String),
    Int(i64),
    Real(String),
}

/// Variables of one binding, by name.
pub type Vars = Vec<(String, TemplateVar)>;

/// Template bindings: each a list of literal paths and the variables that
/// files at those paths are rendered with.
pub type Templates = Vec<(Vec<String>, Vars)>;

/// Why rendering a template failed, as whoever rendered it reports.
pub enum RenderError {
    /// The text is not UTF-8, or is not a well-formed liquid template.
    Parse,
    /// The template parsed, but rendering it failed.
    Render(String),
}

/// Byte-wise equality.
pub fn bytes_eq(a: &[u8], b: &[u8]) -> (r: bool)
    ensures
        r == (a@ == b@),
{
    if a.len() != b.len() {
        return false;
    }
    let mut i: usize = 0;
    while i < a.len()
        invariant
            a@.len() == b@.len(),
            i <= a@.len(),
            forall|k: int| 0 <= k < i ==> a@[k] == b@[k],
        decreases a.len() - i,
    {
        if a[i] != b[i] {
            return false;
        }
        i += 1;
    }
    assert(a@ =~= b@);
    true
}

} // verus!
