use vstd::prelude::*;

verus! {

/// Relies on String::push: the character goes at the end of the string.
#[verifier::external_body]
pub(crate) fn push_char(s: &mut String, c: char)
    ensures
        final(s)@ == old(s)@.push(c),
{
    s.push(c);
}


/// What `shlex::split` gives for a text: its words, or `None`.
pub uninterp spec fn shell_words(s: Seq<char>) -> Option<Seq<Seq<char>>>;

pub open spec fn views(v: Seq<String>) -> Seq<Seq<char>> {
    v.map_values(|w: String| w@)
}

pub proof fn lemma_views_push(v: Seq<String>, x: String)
    ensures
        views(v.push(x)) == views(v).push(x@),
{
    assert(views(v.push(x)) =~= views(v).push(x@));
}

pub proof fn lemma_views_insert(v: Seq<String>, i: int, x: String)
    requires
        0 <= i <= v.len(),
    ensures
        views(v.insert(i, x)) == views(v).insert(i, x@),
{
    assert(views(v.insert(i, x)) =~= views(v).insert(i, x@));
}

/// Relies on shlex::split: the words of `s` under POSIX shell rules, or `None`
/// where a quote is left open or the text ends in an escape. Every character
/// of a word is one of the characters of `s`.
#[verifier::external_body]
pub(crate) fn split_words(s: &str) -> (r: Option<Vec<String>>)
    ensures
        r is None <==> shell_words(s@) is None,
        r is Some ==> shell_words(s@) == Some(views(r->0@)),
        r is Some ==> forall|i: int, j: int|
            0 <= i < r->0@.len() && 0 <= j < r->0@[i]@.len() ==> s@.contains(
                #[trigger] r->0@[i]@[j],
            ),
{
    shlex::split(s)
}

} // verus!
