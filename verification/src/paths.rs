//! Paths as they are written.

use vstd::prelude::*;

verus! {

/// Whether some text is a path in the home directory of the user.
pub open spec fn in_home(text: Seq<char>) -> bool {
    text.len() > 0 && text[0] == '~' && (text.len() > 1 ==> text[1] == '/' || text[1] == '\\')
}

/// A path with its tilde replaced by a home directory, where there is one.
pub open spec fn expanded(text: Seq<char>, home: Option<Seq<char>>) -> Seq<char> {
    match home {
        Some(home) => home + text.drop_first(),
        None => text,
    }
}

/// Whether a tilde is replaced on every system: behind a backslash it is on some only.
pub open spec fn in_home_everywhere(text: Seq<char>) -> bool {
    in_home(text) && (text.len() > 1 ==> text[1] == '/')
}

/// Calls `shellexpand::tilde`. It puts the home directory of the user in the place
/// of a tilde at the start of a path, where the system knows of one, and leaves any
/// other text as it is. Which directory that is, and whether there is one, is up to
/// the environment.
#[verifier::external_body]
fn tilde(text: &str) -> (r: String)
    ensures
        !in_home(text@) ==> r@ == text@,
        exists|home: Option<Seq<char>>| r@ == #[trigger] expanded(text@, home),
{
    shellexpand::tilde(text).into_owned()
}

/// Calls `shellexpand::tilde_with_context` with a home directory. It puts the directory
/// in the place of a tilde that is all of the text or stands before a slash, and leaves
/// any other text as it is. A tilde before a backslash is replaced on Windows alone.
#[verifier::external_body]
fn tilde_with_home(text: &str, home: Option<&str>) -> (r: String)
    ensures
        !in_home(text@) || home is None ==> r@ == text@,
        in_home_everywhere(text@) && home is Some ==> r@ == home->0@ + text@.drop_first(),
        home matches Some(home) ==> r@ == text@ || r@ == home@ + text@.drop_first(),
{
    shellexpand::tilde_with_context(text, || home).into_owned()
}

/// Expands a leading `~` in a path using the current user's home directory.
pub fn expand_path(path: &str) -> (r: String)
    ensures
        !in_home(path@) ==> r@ == path@,
        exists|home: Option<Seq<char>>| r@ == #[trigger] expanded(path@, home),
{
    tilde(path)
}

/// Expands a leading `~` in a path using a home directory, where there is one.
pub fn expand_path_in(path: &str, home: Option<&str>) -> (r: String)
    ensures
        !in_home(path@) || home is None ==> r@ == path@,
        in_home_everywhere(path@) && home is Some ==> r@ == expanded(path@, Some(home->0@)),
        home matches Some(home) ==> r@ == path@ || r@ == expanded(path@, Some(home@)),
{
    tilde_with_home(path, home)
}

} // verus!
