//! Rewriting a whole string: one pass, and passes repeated up to a bound.
//!
//! One pass replaces the variant groups of a string from left to right,
//! none overlapping another. A group nested in the body of another is out
//! of the outer group's reach until it has been expanded itself, so every
//! level of nesting takes one more pass. [`transform`] makes at most
//! [`MAX_PASSES`] of them.

use crate::expand::{expand_group, is_separator, replacement};
use crate::group::{find_group, first_group, GroupParts};
use crate::words::{split_words, words};
use vstd::prelude::*;
use vstd::string::StringExecFns;

verus! {

/// The number of passes that [`transform`] makes at most.
pub const MAX_PASSES: u8 = 10;

/// The result of one pass over `text`.
///
/// Where `text` holds no group it is the result. Otherwise the first group
/// is replaced, the text in front of it is kept, and the pass goes on behind
/// the group. A match that leaves no less text behind it than there was to
/// search ends the pass: what is behind it is kept as it is.
pub open spec fn rewrite(text: Seq<char>) -> Seq<char>
    decreases text.len(),
{
    match first_group(text) {
        None => text,
        Some(m) => if m.after.len() < text.len() {
            m.before + replacement(m) + rewrite(m.after)
        } else {
            m.before + replacement(m) + m.after
        },
    }
}

/// The result of `n` passes over `text`, each on the result of the one
/// before.
pub open spec fn rewrite_n(text: Seq<char>, n: nat) -> Seq<char>
    decreases n,
{
    if n == 0 {
        text
    } else {
        rewrite_n(rewrite(text), (n - 1) as nat)
    }
}

/// What [`transform`] returns for `text`.
pub open spec fn transformed(text: Seq<char>) -> Seq<char> {
    rewrite_n(text, MAX_PASSES as nat)
}

/// The class names that a list of inputs stands for: the words of each
/// transformed input, input after input.
pub open spec fn tokens(inputs: Seq<Seq<char>>) -> Seq<Seq<char>>
    decreases inputs.len(),
{
    if inputs.len() == 0 {
        Seq::empty()
    } else {
        tokens(inputs.drop_last()) + words(transformed(inputs.last()))
    }
}

/// A pass more at the end is a pass more at the start.
pub proof fn lemma_rewrite_n_last(text: Seq<char>, n: nat)
    ensures
        rewrite_n(text, n + 1) == rewrite(rewrite_n(text, n)),
    decreases n,
{
    if n == 0 {
        assert(rewrite_n(text, 1) == rewrite_n(rewrite(text), 0));
    } else {
        lemma_rewrite_n_last(rewrite(text), (n - 1) as nat);
        assert(rewrite_n(text, n + 1) == rewrite_n(rewrite(text), n));
    }
}

/// A string that one pass leaves unchanged is left unchanged by any number
/// of passes.
pub proof fn lemma_fixed_point_stays(text: Seq<char>, n: nat)
    requires
        rewrite(text) == text,
    ensures
        rewrite_n(text, n) == text,
    decreases n,
{
    if n > 0 {
        lemma_fixed_point_stays(text, (n - 1) as nat);
    }
}

/// Once a pass changes nothing, more passes change nothing: if `text` is
/// at rest after `k` passes, then `n >= k` passes give what `k` passes give.
pub proof fn lemma_converged_stays(text: Seq<char>, k: nat, n: nat)
    requires
        k <= n,
        rewrite(rewrite_n(text, k)) == rewrite_n(text, k),
    ensures
        rewrite_n(text, n) == rewrite_n(text, k),
    decreases k,
{
    if k == 0 {
        lemma_fixed_point_stays(text, n);
    } else {
        lemma_converged_stays(rewrite(text), (k - 1) as nat, (n - 1) as nat);
    }
}

/// A string without a group is what one pass over it gives.
pub proof fn law_no_group_no_change(text: Seq<char>)
    requires
        first_group(text) is None,
    ensures
        rewrite(text) == text,
        transformed(text) == text,
{
    lemma_fixed_point_stays(text, MAX_PASSES as nat);
}

/// A pass hands a group whose separator is neither `-` nor `:` on as it
/// stands, between the text in front of it and what the pass makes of the
/// text behind it.
pub proof fn law_guarded_group_is_kept(text: Seq<char>, m: GroupParts)
    requires
        first_group(text) == Some(m),
        !is_separator(m.separator),
    ensures
        replacement(m) == m.whole,
        rewrite(text) == m.before + m.whole + if m.after.len() < text.len() {
            rewrite(m.after)
        } else {
            m.after
        },
{
}

/// Transforming a fully expanded string, one that a pass leaves as it is,
/// returns it unchanged.
pub proof fn law_expanded_is_unchanged(text: Seq<char>)
    requires
        rewrite(text) == text,
    ensures
        transformed(text) == text,
{
    lemma_fixed_point_stays(text, MAX_PASSES as nat);
}

/// One pass over the result of [`transform`] gives exactly what one pass
/// more than [`MAX_PASSES`] over the input gives: the bound cuts the work
/// short and loses none of it.
pub proof fn law_one_more_pass(text: Seq<char>)
    ensures
        rewrite(transformed(text)) == rewrite_n(text, MAX_PASSES as nat + 1),
{
    lemma_rewrite_n_last(text, MAX_PASSES as nat);
}

/// Where the passes come to rest within the bound, the result of
/// [`transform`] is at rest: a pass over it changes nothing, and
/// transforming it again returns it.
pub proof fn law_converged_is_fixed(text: Seq<char>, k: nat)
    requires
        k <= MAX_PASSES,
        rewrite(rewrite_n(text, k)) == rewrite_n(text, k),
    ensures
        transformed(text) == rewrite_n(text, k),
        rewrite(transformed(text)) == transformed(text),
        transformed(transformed(text)) == transformed(text),
{
    lemma_converged_stays(text, k, MAX_PASSES as nat);
    lemma_fixed_point_stays(transformed(text), MAX_PASSES as nat);
}

/// The class names of two lists of inputs, one after the other, are the
/// class names of the first list followed by those of the second.
pub proof fn law_tokens_concat(first: Seq<Seq<char>>, second: Seq<Seq<char>>)
    ensures
        tokens(first + second) == tokens(first) + tokens(second),
    decreases second.len(),
{
    if second.len() == 0 {
        assert(first + second =~= first);
        assert(tokens(first) + tokens(second) =~= tokens(first));
    } else {
        let both = first + second;
        assert(both.drop_last() =~= first + second.drop_last());
        assert(both.last() == second.last());
        law_tokens_concat(first, second.drop_last());
        assert(tokens(first) + tokens(second.drop_last()) + words(transformed(second.last()))
            =~= tokens(first) + (tokens(second.drop_last()) + words(
            transformed(second.last()),
        )));
    }
}

/// Makes one pass over `text`: every group that the pass meets, from left
/// to right, is replaced by its expansion.
pub fn shallow_transform(text: &str) -> (out: String)
    ensures
        out@ == rewrite(text@),
{
    let mut out = String::new();
    let mut rest = String::from_str(text);
    proof {
        assert(out@ + rewrite(rest@) =~= rewrite(text@));
    }
    loop
        invariant
            rewrite(text@) == out@ + rewrite(rest@),
        decreases rest@.len(),
    {
        let ghost done = out@;
        match find_group(rest.as_str()) {
            None => {
                out.append(rest.as_str());
                return out;
            },
            Some(m) => {
                let expanded = expand_group(&m);
                out.append(m.before.as_str());
                out.append(expanded.as_str());
                if !(m.before.as_str().is_empty() && m.whole.as_str().is_empty()) {
                    proof {
                        assert(rest@.len() == m.before@.len() + m.whole@.len() + m.after@.len());
                        assert(done + (m.before@ + expanded@ + rewrite(m.after@)) =~= out@
                            + rewrite(m.after@));
                    }
                    rest = m.after;
                } else {
                    out.append(m.after.as_str());
                    proof {
                        assert(rest@.len() == m.before@.len() + m.whole@.len() + m.after@.len());
                        assert(done + (m.before@ + expanded@ + m.after@) =~= out@);
                    }
                    return out;
                }
            },
        }
    }
}

/// Expands the variant groups of `text`, nested ones included as far as
/// [`MAX_PASSES`] passes reach.
///
/// The passes stop early once one of them changes nothing; the result is
/// the same as that of all [`MAX_PASSES`] passes.
pub fn transform(text: &str) -> (out: String)
    ensures
        out@ == transformed(text@),
{
    let mut current = String::from_str(text);
    let mut made: u8 = 0;
    while made < MAX_PASSES
        invariant
            made <= MAX_PASSES,
            transformed(text@) == rewrite_n(current@, (MAX_PASSES - made) as nat),
        decreases MAX_PASSES - made,
    {
        let next = shallow_transform(current.as_str());
        if next == current {
            proof {
                lemma_fixed_point_stays(current@, (MAX_PASSES - made) as nat);
            }
            return current;
        }
        made += 1;
        current = next;
    }
    current
}

/// Transforms every input and returns the class names of all of them as
/// one list, in the order of the inputs and, within an input, in the order
/// in which they stand.
pub fn class_tokens(inputs: &Vec<String>) -> (names: Vec<String>)
    ensures
        names.deep_view() == tokens(inputs.deep_view()),
{
    let mut names: Vec<String> = Vec::new();
    let mut i: usize = 0;
    proof {
        assert(inputs.deep_view().take(0) =~= Seq::empty());
        assert(names.deep_view() =~= Seq::empty());
    }
    while i < inputs.len()
        invariant
            i <= inputs.len(),
            names.deep_view() == tokens(inputs.deep_view().take(i as int)),
        decreases inputs.len() - i,
    {
        let flat = transform(inputs[i].as_str());
        let mut found = split_words(flat.as_str());
        let ghost before = names.deep_view();
        let ghost added = found.deep_view();
        proof {
            let upto = inputs.deep_view().take(i + 1);
            assert(upto.drop_last() =~= inputs.deep_view().take(i as int));
            assert(upto.last() == inputs[i as int]@);
        }
        names.append(&mut found);
        proof {
            assert(names.deep_view() =~= before + added);
        }
        i += 1;
    }
    proof {
        assert(inputs.deep_view().take(inputs.len() as int) =~= inputs.deep_view());
    }
    names
}

} // verus!
