//! Expanding the members of one variant group.
//!
//! Each whitespace-delimited member of a group's body becomes one class
//! name that carries the group's prefix and separator in front. Two forms
//! are special: the member `~` stands for the bare prefix, and a member
//! that starts with `!` hands its `!` to the front of the class name.

use crate::group::{GroupMatch, GroupParts};
use crate::words::{
    is_space, is_word, join, lemma_words_are_words, lemma_words_of_join, split_words, words,
};
use vstd::prelude::*;
use vstd::string::{StrSliceExecFns, StringExecFns};

verus! {

/// The class name that one member of a group stands for.
pub open spec fn member_expansion(
    prefix: Seq<char>,
    separator: Seq<char>,
    member: Seq<char>,
) -> Seq<char> {
    if member == seq!['~'] {
        prefix
    } else if member.len() > 0 && member[0] == '!' {
        seq!['!'] + prefix + separator + member.skip(1)
    } else {
        prefix + separator + member
    }
}

/// The class names of all members, in the members' order.
pub open spec fn member_expansions(
    prefix: Seq<char>,
    separator: Seq<char>,
    members: Seq<Seq<char>>,
) -> Seq<Seq<char>> {
    Seq::new(members.len(), |i: int| member_expansion(prefix, separator, members[i]))
}

/// What a group with the given parts expands to: the class names of the
/// body's members, joined by single spaces. A body without members gives
/// the empty string.
pub open spec fn body_expansion(
    prefix: Seq<char>,
    separator: Seq<char>,
    body: Seq<char>,
) -> Seq<char> {
    join(member_expansions(prefix, separator, words(body)))
}

/// Whether `separator` is one of the two separators that mark a group for
/// expansion, `-` and `:`.
pub open spec fn is_separator(separator: Seq<char>) -> bool {
    separator == seq!['-'] || separator == seq![':']
}

/// What replaces a matched group in the text: its expansion, or, where the
/// separator is not one that marks a group for expansion, the group itself.
pub open spec fn replacement(m: GroupParts) -> Seq<char> {
    if is_separator(m.separator) {
        body_expansion(m.prefix, m.separator, m.body)
    } else {
        m.whole
    }
}

/// A body that holds nothing but whitespace expands to the empty string:
/// the group is deleted.
pub proof fn law_empty_body(prefix: Seq<char>, separator: Seq<char>, body: Seq<char>)
    requires
        forall|k: int| 0 <= k < body.len() ==> is_space(#[trigger] body[k]),
    ensures
        body_expansion(prefix, separator, body) == Seq::<char>::empty(),
{
    lemma_words_are_words(body);
    lemma_no_words(body);
    assert(member_expansions(prefix, separator, words(body)).len() == 0);
}

/// A string of whitespace has no words.
proof fn lemma_no_words(s: Seq<char>)
    requires
        forall|k: int| 0 <= k < s.len() ==> is_space(#[trigger] s[k]),
    ensures
        words(s).len() == 0,
    decreases s.len(),
{
    if s.len() > 0 {
        assert forall|k: int| 0 <= k < s.skip(1).len() implies is_space(#[trigger] s.skip(1)[k]) by {
            assert(s.skip(1)[k] == s[k + 1]);
        }
        lemma_no_words(s.skip(1));
    }
}

/// The expansion of a member is one class name, not empty and free of
/// whitespace, where the prefix is one and the separator holds no
/// whitespace.
pub proof fn lemma_member_expansion_is_word(
    prefix: Seq<char>,
    separator: Seq<char>,
    member: Seq<char>,
)
    requires
        is_word(prefix),
        forall|k: int| 0 <= k < separator.len() ==> !is_space(#[trigger] separator[k]),
        is_word(member),
    ensures
        is_word(member_expansion(prefix, separator, member)),
{
    let out = member_expansion(prefix, separator, member);
    assert forall|k: int| 0 <= k < out.len() implies !is_space(#[trigger] out[k]) by {
        if member == seq!['~'] {
        } else if member[0] == '!' {
            let rest = member.skip(1);
            if k == 0 {
            } else if k < 1 + prefix.len() {
                assert(out[k] == prefix[k - 1]);
            } else if k < 1 + prefix.len() + separator.len() {
                assert(out[k] == separator[k - 1 - prefix.len()]);
            } else {
                assert(out[k] == rest[k - 1 - prefix.len() - separator.len()]);
                assert(out[k] == member[k - prefix.len() - separator.len()]);
            }
        } else {
            if k < prefix.len() {
                assert(out[k] == prefix[k]);
            } else if k < prefix.len() + separator.len() {
                assert(out[k] == separator[k - prefix.len()]);
            } else {
                assert(out[k] == member[k - prefix.len() - separator.len()]);
            }
        }
    }
}

/// Every member of a body gives exactly one class name, and they come in
/// the members' order: splitting the expansion of a group at whitespace
/// gives back the expansions of its members, one by one. This holds where
/// the prefix is not empty and neither prefix nor separator holds
/// whitespace.
pub proof fn law_one_name_per_member(prefix: Seq<char>, separator: Seq<char>, body: Seq<char>)
    requires
        is_word(prefix),
        forall|k: int| 0 <= k < separator.len() ==> !is_space(#[trigger] separator[k]),
    ensures
        words(body_expansion(prefix, separator, body)) == member_expansions(
            prefix,
            separator,
            words(body),
        ),
{
    let members = words(body);
    let names = member_expansions(prefix, separator, members);
    lemma_words_are_words(body);
    assert forall|i: int| 0 <= i < names.len() implies is_word(#[trigger] names[i]) by {
        lemma_member_expansion_is_word(prefix, separator, members[i]);
    }
    lemma_words_of_join(names);
}

/// Expands one member of a group.
pub fn expand_member(prefix: &str, separator: &str, member: &str) -> (expanded: String)
    ensures
        expanded@ == member_expansion(prefix@, separator@, member@),
{
    let n = member.unicode_len();
    if n == 1 && member.get_char(0) == '~' {
        proof {
            assert(member@ =~= seq!['~']);
        }
        String::from_str(prefix)
    } else if n > 0 && member.get_char(0) == '!' {
        let mut expanded = String::new();
        expanded.push('!');
        expanded.append(prefix);
        expanded.append(separator);
        expanded.append(member.substring_char(1, n));
        proof {
            assert(Seq::<char>::empty().push('!') =~= seq!['!']);
        }
        expanded
    } else {
        let mut expanded = String::from_str(prefix);
        expanded.append(separator);
        expanded.append(member);
        expanded
    }
}

/// Expands every member of `body` and joins the results with single spaces.
pub fn expand_body(prefix: &str, separator: &str, body: &str) -> (expanded: String)
    ensures
        expanded@ == body_expansion(prefix@, separator@, body@),
{
    let members = split_words(body);
    let ghost all = member_expansions(prefix@, separator@, words(body@));
    let mut expanded = String::new();
    let mut i: usize = 0;
    while i < members.len()
        invariant
            i <= members.len(),
            members.deep_view() == words(body@),
            all == member_expansions(prefix@, separator@, words(body@)),
            expanded@ == join(all.take(i as int)),
        decreases members.len() - i,
    {
        let one = expand_member(prefix, separator, members[i].as_str());
        proof {
            let upto = all.take(i + 1);
            assert(members[i as int]@ == members.deep_view()[i as int]);
            assert(upto.drop_last() =~= all.take(i as int));
            assert(upto.last() == one@);
            if i == 0 {
                assert(expanded@ + one@ =~= one@);
            }
        }
        if i > 0 {
            expanded.push(' ');
        }
        expanded.append(one.as_str());
        i += 1;
    }
    proof {
        assert(all.take(members.len() as int) =~= all);
    }
    expanded
}

/// Whether `separator` is `-` or `:`.
pub fn marks_group(separator: &str) -> (r: bool)
    ensures
        r == is_separator(separator@),
{
    if separator.unicode_len() == 1 {
        let c = separator.get_char(0);
        proof {
            assert(separator@ =~= seq![c]);
            assert(seq!['-'][0] == '-');
            assert(seq![':'][0] == ':');
        }
        c == '-' || c == ':'
    } else {
        false
    }
}

/// Computes what replaces the matched group `m` in its text.
///
/// A group whose separator is neither `-` nor `:` is handed back character
/// for character.
pub fn expand_group(m: &GroupMatch) -> (expanded: String)
    ensures
        expanded@ == replacement(m@),
        !is_separator(m.separator@) ==> expanded@ == m.whole@,
{
    if marks_group(m.separator.as_str()) {
        expand_body(m.prefix.as_str(), m.separator.as_str(), m.body.as_str())
    } else {
        m.whole.clone()
    }
}

} // verus!
