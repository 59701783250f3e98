//! Mathematical models of the feed data: authors, entries, feeds and
//! search-result items, plus the derivation of the PDF link from an
//! entry identifier.

use vstd::prelude::*;

verus! {

/// One author of a paper: a name and an optional affiliation.
pub struct AuthorModel {
    pub name: Seq<char>,
    pub affiliation: Option<Seq<char>>,
}

/// One raw feed entry, exactly as parsed from the XML.
pub struct EntryModel {
    pub id: Seq<char>,
    pub updated: Seq<char>,
    pub published: Seq<char>,
    pub title: Seq<char>,
    pub summary: Seq<char>,
    pub authors: Seq<AuthorModel>,
}

/// A feed: its entries, in document order.
pub struct FeedModel {
    pub entries: Seq<EntryModel>,
}

/// One public search-result item.
pub struct ItemModel {
    pub id: Seq<char>,
    pub updated: Seq<char>,
    pub published: Seq<char>,
    pub title: Seq<char>,
    pub summary: Seq<char>,
    pub authors: Seq<AuthorModel>,
    pub pdf: Option<Seq<char>>,
}

/// Whether the characters `"abs"` stand at position `i` of `s`.
pub open spec fn abs_at(s: Seq<char>, i: int) -> bool {
    &&& 0 <= i
    &&& i + 3 <= s.len()
    &&& s[i] == 'a'
    &&& s[i + 1] == 'b'
    &&& s[i + 2] == 's'
}

/// The first position at or after `i` where `"abs"` occurs in `s`.
pub open spec fn find_abs(s: Seq<char>, i: int) -> Option<int>
    decreases s.len() - i,
{
    if !(0 <= i && i + 3 <= s.len()) {
        None
    } else if abs_at(s, i) {
        Some(i)
    } else {
        find_abs(s, i + 1)
    }
}

/// The derived PDF address: the identifier with its first occurrence of
/// `"abs"` replaced by `"pdf"`; the identifier unchanged when there is
/// no such occurrence.
pub open spec fn pdf_of(id: Seq<char>) -> Seq<char> {
    match find_abs(id, 0) {
        None => id,
        Some(k) => id.subrange(0, k) + seq!['p', 'd', 'f'] + id.subrange(k + 3, id.len() as int),
    }
}

/// The search-result item derived from one entry: every field copied
/// verbatim, and the PDF link synthesized from the identifier.
pub open spec fn item_of(e: EntryModel) -> ItemModel {
    ItemModel {
        id: e.id,
        updated: e.updated,
        published: e.published,
        title: e.title,
        summary: e.summary,
        authors: e.authors,
        pdf: Some(pdf_of(e.id)),
    }
}

} // verus!

verus! {

proof fn lemma_find_abs_none(s: Seq<char>, i: int)
    requires
        0 <= i,
        forall|k: int| !abs_at(s, k),
    ensures
        find_abs(s, i) is None,
    decreases s.len() - i,
{
    if 0 <= i && i + 3 <= s.len() {
        lemma_find_abs_none(s, i + 1);
    }
}

/// An identifier in which `"abs"` never occurs derives a PDF address
/// equal to the identifier itself, unchanged.
pub proof fn lemma_pdf_without_abs(id: Seq<char>)
    requires
        forall|k: int| !abs_at(id, k),
    ensures
        pdf_of(id) == id,
{
    lemma_find_abs_none(id, 0);
}

} // verus!
