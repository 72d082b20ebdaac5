//! What the library asks of the user's environment.
//!
//! The two functions here are not verified: each hands a question to a
//! crate outside this one, and Verus takes their contracts on trust. Both
//! answers depend on the environment of the process, so the contracts say
//! only what holds of every answer.

use vstd::prelude::*;

verus! {

/// Whether `path` opens with a tilde that stands for a home directory: one
/// that ends the path or is followed by a separator. The backslash counts
/// as a separator because it is one on some systems.
pub open spec fn opens_with_tilde(path: Seq<char>) -> bool {
    path.len() > 0 && path[0] == '~' && (path.len() == 1 || path[1] == '/' || path[1] == '\\')
}

/// Whether `expanded` can be what tilde expansion makes of `path`: either
/// `path` itself, or, where `path` opens with a tilde, some text followed by
/// what stands after that tilde.
pub open spec fn tilde_expansion(path: Seq<char>, expanded: Seq<char>) -> bool {
    expanded == path || (opens_with_tilde(path) && path.skip(1).is_suffix_of(expanded))
}

/// Asks `dirs::config_dir` for the user's configuration directory. Nothing
/// is claimed of the answer. A directory whose path is not valid Unicode
/// counts as none.
#[verifier::external_body]
pub(crate) fn config_dir() -> Option<String> {
    match dirs::config_dir() {
        Some(dir) => dir.into_os_string().into_string().ok(),
        None => None,
    }
}

/// Calls `shellexpand::tilde` on `path`. It replaces a leading tilde that
/// stands alone or before a separator by the user's home directory, and
/// returns every other text, and any text when no home directory is known,
/// as it is. Which directory that is depends on the environment, so the
/// contract claims only the shape of the result: it is `path`, or `path`
/// opens with such a tilde and the result ends with what follows it.
#[verifier::external_body]
pub(crate) fn expand_tilde(path: &str) -> (expanded: String)
    ensures
        tilde_expansion(path@, expanded@),
{
    shellexpand::tilde(path).into_owned()
}

} // verus!
