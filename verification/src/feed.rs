//! The public feed types: authors, timestamps, entries, feeds and
//! search-result items, the parse step from feed text, and the mapping
//! to result items.

use vstd::prelude::*;
use crate::model::{AuthorModel, EntryModel, FeedModel, ItemModel};

verus! {

/// One author of a paper: a required name and an optional affiliation.
pub struct Author {
    pub name: String,
    pub affiliation: Option<String>,
}

impl View for Author {
    type V = AuthorModel;

    open spec fn view(&self) -> AuthorModel {
        AuthorModel { name: self.name@, affiliation: self.affiliation.deep_view() }
    }
}

impl DeepView for Author {
    type V = AuthorModel;

    open spec fn deep_view(&self) -> AuthorModel {
        self@
    }
}

} // verus!

use crate::err::ArxivError;
use crate::model::{find_abs, item_of, pdf_of};
use crate::strutil::{push_char, str_to_chars};
use crate::xml::{parse_document, parse_document_e, RawEntry};

verus! {

/// Whether a text is a well-formed RFC 3339 timestamp; decided by the
/// calendar library, named here.
pub uninterp spec fn rfc3339_valid(s: Seq<char>) -> bool;

/// Relies on chrono's `DateTime::parse_from_rfc3339`: whether a text
/// parses as an RFC 3339 timestamp is a function of its characters
/// alone.
#[verifier::external_body]
fn is_rfc3339(s: &str) -> (r: bool)
    ensures
        r == rfc3339_valid(s@),
{
    chrono::DateTime::<chrono::FixedOffset>::parse_from_rfc3339(s).is_ok()
}

/// An RFC 3339 timestamp, kept as its original text. A value of this
/// type is always well-formed: the constructor validates the text.
pub struct Timestamp {
    text: String,
}

impl View for Timestamp {
    type V = Seq<char>;

    closed spec fn view(&self) -> Seq<char> {
        self.text@
    }
}

impl DeepView for Timestamp {
    type V = Seq<char>;

    closed spec fn deep_view(&self) -> Seq<char> {
        self.text@
    }
}

impl Timestamp {
    /// Well-formedness: the text is a valid RFC 3339 timestamp.
    pub closed spec fn valid(&self) -> bool {
        rfc3339_valid(self.text@)
    }

    /// Validates and wraps a timestamp text; succeeds exactly on
    /// well-formed RFC 3339 texts, and keeps the text verbatim.
    pub fn parse(text: String) -> (r: Option<Timestamp>)
        ensures
            r is Some <==> rfc3339_valid(text@),
            r matches Some(t) ==> t@ == text@ && t.valid(),
    {
        if is_rfc3339(text.as_str()) {
            Some(Timestamp { text })
        } else {
            None
        }
    }

    /// The timestamp text.
    pub fn as_str(&self) -> (r: &str)
        ensures
            r@ == self@,
    {
        self.text.as_str()
    }
}

/// One entry of a parsed feed, timestamps validated.
pub(crate) struct ArxivEntry {
    pub id: String,
    pub updated: Timestamp,
    pub published: Timestamp,
    pub title: String,
    pub summary: String,
    pub author: Vec<Author>,
}

impl DeepView for ArxivEntry {
    type V = EntryModel;

    closed spec fn deep_view(&self) -> EntryModel {
        EntryModel {
            id: self.id@,
            updated: self.updated@,
            published: self.published@,
            title: self.title@,
            summary: self.summary@,
            authors: self.author.deep_view(),
        }
    }
}

/// One public search-result item: the entry's fields copied verbatim,
/// plus the derived PDF address.
pub struct SearchResultItem {
    pub id: String,
    pub updated: Timestamp,
    pub published: Timestamp,
    pub title: String,
    pub summary: String,
    pub author: Vec<Author>,
    pub pdf: Option<String>,
}

impl View for SearchResultItem {
    type V = ItemModel;

    open spec fn view(&self) -> ItemModel {
        ItemModel {
            id: self.id@,
            updated: self.updated@,
            published: self.published@,
            title: self.title@,
            summary: self.summary@,
            authors: self.author.deep_view(),
            pdf: self.pdf.deep_view(),
        }
    }
}

impl DeepView for SearchResultItem {
    type V = ItemModel;

    open spec fn deep_view(&self) -> ItemModel {
        self@
    }
}

/// The PDF address derived from an identifier: the first occurrence of
/// `"abs"` replaced by `"pdf"`, or the identifier unchanged when there
/// is no occurrence.
pub fn derive_pdf_url(id: &str) -> (r: String)
    ensures
        r@ == pdf_of(id@),
{
    let v = str_to_chars(id);
    let n = v.len();
    let mut i: usize = 0;
    loop
        invariant
            v@ == id@,
            n == v@.len(),
            i <= n,
            find_abs(v@, 0) == find_abs(v@, i as int),
        decreases n - i,
    {
        if n < 3 || i > n - 3 {
            return String::from_str(id);
        }
        if v[i] == 'a' && v[i + 1] == 'b' && v[i + 2] == 's' {
            let mut r = String::new();
            let mut j: usize = 0;
            while j < i
                invariant
                    v@ == id@,
                    n == v@.len(),
                    i + 3 <= n,
                    j <= i,
                    r@ == v@.subrange(0, j as int),
                decreases i - j,
            {
                push_char(&mut r, v[j]);
                assert(r@ =~= v@.subrange(0, j + 1 as int));
                j = j + 1;
            }
            push_char(&mut r, 'p');
            push_char(&mut r, 'd');
            push_char(&mut r, 'f');
            assert(r@ =~= v@.subrange(0, i as int) + seq!['p', 'd', 'f']);
            let mut k = i + 3;
            while k < n
                invariant
                    v@ == id@,
                    n == v@.len(),
                    i + 3 <= k <= n,
                    r@ == v@.subrange(0, i as int) + seq!['p', 'd', 'f'] + v@.subrange(
                        i + 3 as int,
                        k as int,
                    ),
                decreases n - k,
            {
                push_char(&mut r, v[k]);
                assert(r@ =~= v@.subrange(0, i as int) + seq!['p', 'd', 'f'] + v@.subrange(
                    i + 3 as int,
                    k + 1 as int,
                ));
                k = k + 1;
            }
            proof {
                assert(find_abs(v@, i as int) == Some(i as int));
                assert(r@ =~= pdf_of(id@));
            }
            return r;
        }
        i = i + 1;
    }
}

/// Every timestamp of the model is a well-formed RFC 3339 text.
pub open spec fn times_valid(fm: FeedModel) -> bool {
    forall|k: int|
        0 <= k < fm.entries.len() ==> rfc3339_valid((#[trigger] fm.entries[k]).updated)
            && rfc3339_valid(fm.entries[k].published)
}

/// A feed: the entries of one response, in document order.
pub struct Feed {
    entry: Vec<ArxivEntry>,
}

impl View for Feed {
    type V = FeedModel;

    closed spec fn view(&self) -> FeedModel {
        FeedModel { entries: self.entry.deep_view() }
    }
}

impl Feed {
    /// Parses feed text. Succeeds exactly when the text parses under
    /// the feed grammar with every timestamp well-formed, and then
    /// returns exactly the parsed feed; any failure is a `Parse`
    /// error, never a partial feed.
    pub fn from_text(text: &str) -> (r: Result<Feed, ArxivError>)
        ensures
            r matches Ok(f) ==> (parse_document(text@) matches Some(fm) && f@ == fm),
            r is Ok <==> (parse_document(text@) matches Some(fm) && times_valid(fm)),
            r matches Err(e) ==> e is Parse,
    {
        let v = str_to_chars(text);
        match parse_document_e(&v) {
            None => Err(ArxivError::Parse(String::from_str("malformed feed text"))),
            Some(raws) => {
                let ghost orig = raws.deep_view();
                let mut raws = raws;
                let mut out: Vec<ArxivEntry> = Vec::new();
                let ghost total = orig.len();
                proof {
                    assert(out.deep_view() =~= orig.take(0));
                }
                loop
                    invariant
                        raws.deep_view().len() + out.deep_view().len() == total,
                        orig.len() == total,
                        raws.deep_view() =~= orig.skip(out.deep_view().len() as int),
                        out.deep_view() =~= orig.take(out.deep_view().len() as int),
                        parse_document(text@) matches Some(fm) && fm.entries == orig,
                        forall|k: int|
                            0 <= k < out.deep_view().len() ==> rfc3339_valid(
                                #[trigger] orig[k].updated,
                            ) && rfc3339_valid(orig[k].published),
                    decreases raws@.len(),
                {
                    let ghost done = out.deep_view().len() as int;
                    if raws.len() == 0 {
                        proof {
                            assert(out.deep_view() =~= orig);
                        }
                        let f = Feed { entry: out };
                        proof {
                            let fm = parse_document(text@)->Some_0;
                            assert(f@ == fm);
                            assert(times_valid(fm));
                        }
                        return Ok(f);
                    }
                    let ghost prevv = raws@;
                    let ghost prev = raws.deep_view();
                    let e = raws.remove(0);
                    proof {
                        assert(e.deep_view() == prev[0]);
                        assert(prev[0] == orig.skip(done)[0]);
                        assert(e.deep_view() == orig[done]);
                        assert forall|k: int| 0 <= k < raws.deep_view().len() implies raws.deep_view()[k]
                            == orig.skip(done + 1)[k] by {
                            assert(raws@[k] == prevv[k + 1]);
                            assert(raws.deep_view()[k] == prev[k + 1]);
                            assert(prev[k + 1] == orig.skip(done)[k + 1]);
                        }
                        assert(raws.deep_view() =~= orig.skip(done + 1));
                    }
                    let RawEntry { id, updated, published, title, summary, authors } = e;
                    let up = match Timestamp::parse(updated) {
                        Some(t) => t,
                        None => {
                            proof {
                                let fm = parse_document(text@)->Some_0;
                                assert(!rfc3339_valid(fm.entries[done].updated));
                                assert(!times_valid(fm));
                            }
                            return Err(
                                ArxivError::Parse(String::from_str("unparseable timestamp")),
                            );
                        },
                    };
                    let pb = match Timestamp::parse(published) {
                        Some(t) => t,
                        None => {
                            proof {
                                let fm = parse_document(text@)->Some_0;
                                assert(!rfc3339_valid(fm.entries[done].published));
                                assert(!times_valid(fm));
                            }
                            return Err(
                                ArxivError::Parse(String::from_str("unparseable timestamp")),
                            );
                        },
                    };
                    let ae = ArxivEntry {
                        id,
                        updated: up,
                        published: pb,
                        title,
                        summary,
                        author: authors,
                    };
                    proof {
                        assert(ae.deep_view() == orig[done]);
                    }
                    let ghost outv = out@;
                    out.push(ae);
                    proof {
                        assert forall|k: int| 0 <= k < out.deep_view().len() implies out.deep_view()[k]
                            == orig.take(done + 1)[k] by {
                            if k < done {
                                assert(out@[k] == outv[k]);
                                assert(out@[k].deep_view() == orig.take(done)[k]);
                            } else {
                                assert(out@[k] == ae);
                            }
                        }
                        assert(out.deep_view() =~= orig.take(done + 1));
                    }
                }
            },
        }
    }

    /// Maps every entry, in order, to its search-result item: the
    /// fields copied verbatim, the PDF address derived from the
    /// identifier.
    pub fn into_items(self) -> (items: Vec<SearchResultItem>)
        ensures
            items.deep_view().len() == self@.entries.len(),
            forall|k: int|
                0 <= k < self@.entries.len() ==> items.deep_view()[k] == item_of(
                    #[trigger] self@.entries[k],
                ),
    {
        let ghost orig = self@.entries;
        let mut entry = self.entry;
        let mut items: Vec<SearchResultItem> = Vec::new();
        while entry.len() > 0
            invariant
                entry.deep_view().len() + items.deep_view().len() == orig.len(),
                entry.deep_view() =~= orig.skip(items.deep_view().len() as int),
                forall|k: int|
                    0 <= k < items.deep_view().len() ==> items.deep_view()[k] == item_of(
                        #[trigger] orig[k],
                    ),
            decreases entry@.len(),
        {
            let ghost done = items.deep_view().len() as int;
            let ghost prevv = entry@;
            let ghost prev = entry.deep_view();
            let e = entry.remove(0);
            proof {
                assert(e.deep_view() == prev[0]);
                assert(prev[0] == orig.skip(done)[0]);
                assert(e.deep_view() == orig[done]);
                assert forall|k: int| 0 <= k < entry.deep_view().len() implies entry.deep_view()[k]
                    == orig.skip(done + 1)[k] by {
                    assert(entry@[k] == prevv[k + 1]);
                    assert(entry.deep_view()[k] == prev[k + 1]);
                    assert(prev[k + 1] == orig.skip(done)[k + 1]);
                }
                assert(entry.deep_view() =~= orig.skip(done + 1));
            }
            let item = entry_to_item(e);
            let ghost itemsv = items@;
            items.push(item);
            proof {
                assert forall|k: int| 0 <= k < items.deep_view().len() implies items.deep_view()[k]
                    == item_of(orig[k]) by {
                    if k < done {
                        assert(items@[k] == itemsv[k]);
                    } else {
                        assert(items@[k] == item);
                        assert(item@ == item_of(orig[done]));
                    }
                }
            }
        }
        items
    }
}

/// One entry's search-result item.
fn entry_to_item(e: ArxivEntry) -> (r: SearchResultItem)
    ensures
        r@ == item_of(e.deep_view()),
{
    let pdf = derive_pdf_url(e.id.as_str());
    SearchResultItem {
        id: e.id,
        updated: e.updated,
        published: e.published,
        title: e.title,
        summary: e.summary,
        author: e.author,
        pdf: Some(pdf),
    }
}

/// The full address of one search request for a rendered query string.
pub fn api_url(query: &str) -> (r: String)
    ensures
        r@ == "https://export.arxiv.org/api/query?"@ + query@,
{
    let r = String::from_str("https://export.arxiv.org/api/query?");
    r.concat(query)
}

/// Interprets one HTTP exchange: a non-success status is a transport
/// failure and the body is not looked at; on a success status the body
/// goes to the feed parser and the entries are mapped to items.
pub fn response_to_items(status: u16, body: &str) -> (r: Result<Vec<SearchResultItem>, ArxivError>)
    ensures
        !(200 <= status < 300) ==> (r matches Err(e) && e is Transport),
        200 <= status < 300 ==> ((r is Ok) <==> (parse_document(body@) matches Some(fm)
            && times_valid(fm))),
        200 <= status < 300 ==> (r matches Ok(items) ==> (parse_document(
            body@,
        ) matches Some(fm) && items.deep_view().len() == fm.entries.len() && (forall|k: int|
            0 <= k < fm.entries.len() ==> items.deep_view()[k] == item_of(
                #[trigger] fm.entries[k],
            )))),
        200 <= status < 300 ==> (r matches Err(e) ==> e is Parse),
{
    if !(200 <= status && status < 300) {
        return Err(
            ArxivError::Transport(
                String::from_str("the endpoint answered with a non-success status"),
            ),
        );
    }
    match Feed::from_text(body) {
        Err(e) => Err(e),
        Ok(f) => Ok(f.into_items()),
    }
}

} // verus!
