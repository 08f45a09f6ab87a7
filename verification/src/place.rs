//! Where files live, and how a failure to use one reads.

use vstd::prelude::*;

verus! {

/// What a path starts at.
#[derive(Clone, Copy, PartialEq, Eq, Debug, Structural)]
pub enum Base {
    /// The variable that names the file itself.
    Explicit,
    /// `$XDG_CONFIG_HOME`.
    ConfigHome,
    /// `$XDG_STATE_HOME`.
    StateHome,
    /// `$HOME`.
    Home,
    /// The current directory.
    Here,
}

/// A path: what it starts at, and what is below that. Nothing is below an
/// explicit path.
#[derive(Clone, Copy, Debug)]
pub struct Place {
    pub base: Base,
    pub below: &'static str,
}

/// How a failure to do something to a path reads.
pub open spec fn could_not_text(what: Seq<char>, path: Seq<char>, error: Seq<char>) -> Seq<char> {
    "could not "@ + what + " "@ + path + ": "@ + error
}

/// How a failure to do something to a path reads.
pub fn could_not(what: &str, path: &str, error: &str) -> (r: String)
    ensures
        r@ == could_not_text(what@, path@, error@),
{
    let mut r = "could not ".to_string();
    r.append(what);
    r.append(" ");
    r.append(path);
    r.append(": ");
    r.append(error);
    r
}

/// A failure is told by what was to be done, by where and by why, in these words.
pub proof fn law_a_failure_names_what_where_and_why(
    what: Seq<char>,
    path: Seq<char>,
    error: Seq<char>,
)
    ensures
        ("could not "@ + what + " "@ + path).is_prefix_of(could_not_text(what, path, error)),
        (path + ": "@ + error).is_suffix_of(could_not_text(what, path, error)),
{
    let m = could_not_text(what, path, error);
    let head = "could not "@ + what + " "@ + path;
    assert(head =~= m.subrange(0, head.len() as int));
    let tail = path + ": "@ + error;
    assert(tail =~= m.subrange(m.len() - tail.len(), m.len() as int));
}

} // verus!
