//! Text built from capture bytes.

use vstd::prelude::*;
use vstd::string::*;

verus! {

/// The text that `String::from_utf8_lossy` makes of some bytes.
pub uninterp spec fn utf8_lossy(bytes: Seq<u8>) -> Seq<char>;

/// The text that `str::trim` leaves of a string.
pub uninterp spec fn trimmed(text: Seq<char>) -> Seq<char>;

/// Relies on String::from_utf8_lossy: the text depends on the bytes alone, and no bytes give
/// no text.
#[verifier::external_body]
pub(crate) fn text_from_bytes(bytes: &[u8]) -> (r: String)
    ensures
        r@ == utf8_lossy(bytes@),
        bytes@.len() == 0 ==> r@.len() == 0,
{
    String::from_utf8_lossy(bytes).into_owned()
}

/// Relies on str::trim: the result depends on the text alone, and an empty text stays empty.
#[verifier::external_body]
pub(crate) fn trim_text(text: &str) -> (r: String)
    ensures
        r@ == trimmed(text@),
        text@.len() == 0 ==> r@.len() == 0,
{
    text.trim().to_string()
}

/// Texts joined with a separator between each two of them.
pub open spec fn joined(parts: Seq<Seq<char>>, sep: Seq<char>) -> Seq<char>
    decreases parts.len(),
{
    if parts.len() == 0 {
        seq![]
    } else if parts.len() == 1 {
        parts[0]
    } else {
        joined(parts.drop_last(), sep) + sep + parts.last()
    }
}

/// Joins the labels of a domain name with dots.
pub fn join_labels(labels: &Vec<String>) -> (r: String)
    ensures
        r@ == joined(labels@.map_values(|l: String| l@), "."@),
{
    let ghost texts = labels@.map_values(|l: String| l@);
    let mut name = String::new();
    let mut i: usize = 0;
    while i < labels.len()
        invariant
            i <= labels@.len(),
            texts == labels@.map_values(|l: String| l@),
            name@ == joined(texts.subrange(0, i as int), "."@),
        decreases labels@.len() - i,
    {
        if i > 0 {
            name.append(".");
        }
        name.append(labels[i].as_str());
        proof {
            let s = texts.subrange(0, i + 1);
            assert(s.drop_last() =~= texts.subrange(0, i as int));
            if i == 0 {
                assert(texts.subrange(0, 0) =~= seq![]);
                assert(name@ =~= s[0]);
            }
        }
        i = i + 1;
    }
    assert(texts.subrange(0, i as int) =~= texts);
    name
}

} // verus!
