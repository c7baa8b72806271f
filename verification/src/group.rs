//! Finding the first variant group of a string.
//!
//! A variant group is a prefix, a separator and a parenthesised body, as in
//! `hover:(underline text-red)`. The grammar of a group is written down as a
//! regular expression, [`GROUP_PATTERN`], and matched by the `regex` crate;
//! everything the rest of this crate does with a match is verified, the
//! matching itself is trusted.

use regex::Regex;
use vstd::prelude::*;

verus! {

/// The grammar of one variant group.
///
/// * The prefix is one or more word characters, `!`, `+`, `:`, `_`, `/`,
///   `-`, or bracketed runs, taken as short as the rest of the pattern
///   allows.
/// * The separator is `:` or `-`.
/// * The body stands between `(` and the next `)` and holds no parenthesis
///   of its own outside brackets.
pub const GROUP_PATTERN: &'static str =
    r"((?:[!\w+:_/-]|\[&?>?:?.*\])+?)([:-])\(((?:[~!\w\s:/\\,%#.$-]|\[.*?\])*?)\)";

/// One occurrence of a variant group in a text, cut into its parts.
#[derive(Clone, Debug)]
pub struct GroupMatch {
    /// The text in front of the group.
    pub before: String,
    /// The whole group as it stands in the text.
    pub whole: String,
    /// The prefix shared by the members.
    pub prefix: String,
    /// What stands between the prefix and the opening parenthesis.
    pub separator: String,
    /// What stands between the parentheses.
    pub body: String,
    /// The text behind the group.
    pub after: String,
}

/// The mathematical value of a [`GroupMatch`].
pub ghost struct GroupParts {
    pub before: Seq<char>,
    pub whole: Seq<char>,
    pub prefix: Seq<char>,
    pub separator: Seq<char>,
    pub body: Seq<char>,
    pub after: Seq<char>,
}

impl View for GroupMatch {
    type V = GroupParts;

    open spec fn view(&self) -> GroupParts {
        GroupParts {
            before: self.before@,
            whole: self.whole@,
            prefix: self.prefix@,
            separator: self.separator@,
            body: self.body@,
            after: self.after@,
        }
    }
}

/// The leftmost match of the regular expression `pattern` in `text`, as the
/// `regex` crate finds it, cut into the text before it, the match, its
/// first three capture groups, and the text behind it. `None` where
/// `pattern` does not compile, nothing matches, or one of the three groups
/// took no part in the match.
pub uninterp spec fn leftmost_match(pattern: Seq<char>, text: Seq<char>) -> Option<GroupParts>;

/// The first variant group in `text`, if there is one.
pub open spec fn first_group(text: Seq<char>) -> Option<GroupParts> {
    leftmost_match(GROUP_PATTERN@, text)
}

/// Calls `Regex::new` on `pattern` and `Regex::captures` on `text`, and
/// copies out the parts of the match, read through `Captures::get` and
/// `Match::{start, end, as_str}`.
///
/// The contract claims two things of the `regex` crate, neither of them
/// proved here. Compiling and matching are deterministic in the pattern and
/// the text, so the result is [`leftmost_match`] of the two. And the bounds
/// of a match lie in the text, in order and between characters, so the text
/// before the match, the match and the text behind it make up the text.
#[verifier::external_body]
fn search(pattern: &str, text: &str) -> (found: Option<GroupMatch>)
    ensures
        match found {
            Some(m) => leftmost_match(pattern@, text@) == Some(m@),
            None => leftmost_match(pattern@, text@) is None,
        },
        found matches Some(m) ==> text@ == m.before@ + m.whole@ + m.after@,
{
    let re = Regex::new(pattern).ok()?;
    let caps = re.captures(text)?;
    let whole = caps.get(0)?;
    Some(GroupMatch {
        before: text[..whole.start()].to_string(),
        whole: whole.as_str().to_string(),
        prefix: caps.get(1)?.as_str().to_string(),
        separator: caps.get(2)?.as_str().to_string(),
        body: caps.get(3)?.as_str().to_string(),
        after: text[whole.end()..].to_string(),
    })
}

/// Finds the first variant group in `text` and cuts the text at it.
///
/// The pattern is compiled anew on every call.
pub fn find_group(text: &str) -> (found: Option<GroupMatch>)
    ensures
        match found {
            Some(m) => first_group(text@) == Some(m@),
            None => first_group(text@) is None,
        },
        found matches Some(m) ==> text@ == m.before@ + m.whole@ + m.after@,
{
    search(GROUP_PATTERN, text)
}

} // verus!
