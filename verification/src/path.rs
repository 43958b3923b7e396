//! Paths, modelled by their text.
use vstd::prelude::*;

use crate::text::chars_of;

verus! {

/// `PathBuf::join` with a relative component on Unix: the component is
/// appended after a `/`, unless `base` is empty or already ends with `/`.
pub open spec fn join(base: Seq<char>, component: Seq<char>) -> Seq<char> {
    if base.len() == 0 || base.last() == '/' {
        base + component
    } else {
        base + seq!['/'] + component
    }
}

/// `base` joined with the relative `component`.
pub fn join_path(base: &str, component: &str) -> (r: String)
    requires
        component@.len() == 0 || component@[0] != '/',
    ensures
        r@ == join(base@, component@),
{
    let chars = chars_of(base);
    let mut r = String::from_str(base);
    if chars.len() > 0 && chars[chars.len() - 1] != '/' {
        crate::text::push_char(&mut r, '/');
    }
    r.append(component);
    r
}

} // verus!
