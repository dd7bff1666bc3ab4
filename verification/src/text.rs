//! Operations on texts, stated over their character sequences.

use vstd::prelude::*;

verus! {

/// `String::push`: appends one character to the end of `text`.
#[verifier::external_body]
pub(crate) fn push_char(text: &mut String, c: char)
    ensures
        final(text)@ == old(text)@.push(c),
{
    text.push(c)
}

/// Whether `left` holds the characters of `right`, in the same order.
pub fn same_text(left: &String, right: &str) -> (same: bool)
    ensures
        same == (left@ == right@),
{
    *left == right.to_owned()
}

/// A copy of `texts`, text by text.
pub fn clone_texts(texts: &Vec<String>) -> (copy: Vec<String>)
    ensures
        copy.deep_view() == texts.deep_view(),
{
    let mut copy: Vec<String> = Vec::new();
    let mut at: usize = 0;
    while at < texts.len()
        invariant
            at <= texts.len(),
            copy.len() == at,
            forall|i: int| 0 <= i < at ==> copy[i]@ == texts[i]@,
        decreases texts.len() - at,
    {
        copy.push(texts[at].clone());
        at = at + 1;
    }
    assert(copy.deep_view() =~= texts.deep_view());
    copy
}

} // verus!
