//! The feed grammar: a small XML subset sufficient for the Atom-style
//! feed the search endpoint returns. The spec functions here are the
//! authoritative definition of which documents parse and to what; the
//! executable parser is proved equal to them.
//!
//! The subset: an optional prolog of processing instructions, then one
//! root element; elements with attributes (skipped, with quoting
//! respected) and self-closing forms; character data with the five
//! named entities decoded. Comments, CDATA and doctypes are rejected.

use vstd::prelude::*;

verus! {

/// XML whitespace.
pub open spec fn is_ws(c: char) -> bool {
    c == ' ' || c == '\t' || c == '\r' || c == '\n'
}

/// A character that may stand in an element name.
pub open spec fn is_name_char(c: char) -> bool {
    ('a' <= c && c <= 'z') || ('A' <= c && c <= 'Z') || ('0' <= c && c <= '9') || c == '_' || c
        == ':' || c == '-' || c == '.'
}

/// The first position at or after `i` holding a non-whitespace
/// character (or the end of `s`).
pub open spec fn skip_ws(s: Seq<char>, i: int) -> int
    decreases s.len() - i,
{
    if 0 <= i && i < s.len() && is_ws(s[i]) {
        skip_ws(s, i + 1)
    } else {
        i
    }
}

pub proof fn lemma_skip_ws_bounds(s: Seq<char>, i: int)
    requires
        0 <= i <= s.len(),
    ensures
        i <= skip_ws(s, i) <= s.len(),
    decreases s.len() - i,
{
    if i < s.len() && is_ws(s[i]) {
        lemma_skip_ws_bounds(s, i + 1);
    }
}

/// The end of the run of name characters starting at `i`.
pub open spec fn scan_name(s: Seq<char>, i: int) -> int
    decreases s.len() - i,
{
    if 0 <= i && i < s.len() && is_name_char(s[i]) {
        scan_name(s, i + 1)
    } else {
        i
    }
}

pub proof fn lemma_scan_name_bounds(s: Seq<char>, i: int)
    requires
        0 <= i <= s.len(),
    ensures
        i <= scan_name(s, i) <= s.len(),
    decreases s.len() - i,
{
    if i < s.len() && is_name_char(s[i]) {
        lemma_scan_name_bounds(s, i + 1);
    }
}

/// Scans the attribute region of a tag, from just after the name to the
/// closing `>` or `/>`; quoted attribute values may contain `>`.
/// Returns whether the tag was self-closing, and the position after it.
pub open spec fn skip_attrs(s: Seq<char>, i: int, quote: Option<char>) -> Option<(bool, int)>
    decreases s.len() - i,
{
    if !(0 <= i && i < s.len()) {
        None
    } else {
        match quote {
            Some(q) => {
                if s[i] == q {
                    skip_attrs(s, i + 1, None)
                } else {
                    skip_attrs(s, i + 1, quote)
                }
            },
            None => {
                if s[i] == '>' {
                    Some((false, i + 1))
                } else if s[i] == '/' && i + 1 < s.len() && s[i + 1] == '>' {
                    Some((true, i + 2))
                } else if s[i] == '"' || s[i] == '\'' {
                    skip_attrs(s, i + 1, Some(s[i]))
                } else {
                    skip_attrs(s, i + 1, None)
                }
            },
        }
    }
}

pub proof fn lemma_skip_attrs_bounds(s: Seq<char>, i: int, quote: Option<char>)
    requires
        0 <= i <= s.len(),
    ensures
        skip_attrs(s, i, quote) matches Some((sc, j)) ==> i < j <= s.len(),
    decreases s.len() - i,
{
    if i < s.len() {
        lemma_skip_attrs_bounds(s, i + 1, None);
        lemma_skip_attrs_bounds(s, i + 1, quote);
        if quote is None && s[i] != '>' && (s[i] == '"' || s[i] == '\'') {
            lemma_skip_attrs_bounds(s, i + 1, Some(s[i]));
        }
    }
}

/// The position just after the `?>` that ends a processing instruction.
pub open spec fn find_pi_end(s: Seq<char>, i: int) -> Option<int>
    decreases s.len() - i,
{
    if !(0 <= i && i < s.len()) {
        None
    } else if s[i] == '?' && i + 1 < s.len() && s[i + 1] == '>' {
        Some(i + 2)
    } else {
        find_pi_end(s, i + 1)
    }
}

pub proof fn lemma_find_pi_end_bounds(s: Seq<char>, i: int)
    requires
        0 <= i <= s.len(),
    ensures
        find_pi_end(s, i) matches Some(j) ==> i < j <= s.len(),
    decreases s.len() - i,
{
    if i < s.len() && !(s[i] == '?' && i + 1 < s.len() && s[i + 1] == '>') {
        lemma_find_pi_end_bounds(s, i + 1);
    }
}

/// The entity reference starting at the `&` at position `i`: the
/// character it denotes and the position after the `;`. Only the five
/// named entities are recognized.
pub open spec fn entity_at(s: Seq<char>, i: int) -> Option<(char, int)> {
    if 0 <= i && i + 5 <= s.len() && s[i + 1] == 'a' && s[i + 2] == 'm' && s[i + 3] == 'p' && s[i
        + 4] == ';' {
        Some(('&', i + 5))
    } else if 0 <= i && i + 4 <= s.len() && s[i + 1] == 'l' && s[i + 2] == 't' && s[i + 3] == ';' {
        Some(('<', i + 4))
    } else if 0 <= i && i + 4 <= s.len() && s[i + 1] == 'g' && s[i + 2] == 't' && s[i + 3] == ';' {
        Some(('>', i + 4))
    } else if 0 <= i && i + 6 <= s.len() && s[i + 1] == 'q' && s[i + 2] == 'u' && s[i + 3] == 'o'
        && s[i + 4] == 't' && s[i + 5] == ';' {
        Some(('"', i + 6))
    } else if 0 <= i && i + 6 <= s.len() && s[i + 1] == 'a' && s[i + 2] == 'p' && s[i + 3] == 'o'
        && s[i + 4] == 's' && s[i + 5] == ';' {
        Some(('\'', i + 6))
    } else {
        None
    }
}

/// The character data run starting at `i`: its decoded text and the
/// position of the `<` (or end of input) that stops it. An `&` that is
/// not a recognized entity reference is an error.
pub open spec fn parse_text(s: Seq<char>, i: int) -> Option<(Seq<char>, int)>
    decreases s.len() - i,
{
    if !(0 <= i && i < s.len()) || s[i] == '<' {
        Some((Seq::empty(), i))
    } else if s[i] == '&' {
        match entity_at(s, i) {
            None => None,
            Some((c, j)) => match parse_text(s, j) {
                None => None,
                Some((t, k)) => Some((seq![c] + t, k)),
            },
        }
    } else {
        match parse_text(s, i + 1) {
            None => None,
            Some((t, k)) => Some((seq![s[i]] + t, k)),
        }
    }
}

pub proof fn lemma_parse_text_bounds(s: Seq<char>, i: int)
    requires
        0 <= i <= s.len(),
    ensures
        parse_text(s, i) matches Some((t, k)) ==> i <= k <= s.len() && (k == s.len() || s[k]
            == '<'),
    decreases s.len() - i,
{
    if i < s.len() && s[i] != '<' {
        if s[i] == '&' {
            if let Some((c, j)) = entity_at(s, i) {
                lemma_parse_text_bounds(s, j);
            }
        } else {
            lemma_parse_text_bounds(s, i + 1);
        }
    }
}

/// One lexical event of the document.
pub enum Token {
    /// A run of character data, entities decoded.
    Text(Seq<char>),
    /// An opening tag: its name, and whether it was self-closing.
    Open(Seq<char>, bool),
    /// A closing tag: its name.
    Close(Seq<char>),
    /// A processing instruction, skipped whole.
    Pi,
}

/// The next token at position `i`, with the position after it. `None`
/// at the end of input or on malformed markup.
pub open spec fn next_token(s: Seq<char>, i: int) -> Option<(Token, int)> {
    if !(0 <= i && i < s.len()) {
        None
    } else if s[i] == '<' {
        if i + 1 < s.len() && s[i + 1] == '/' {
            let j = scan_name(s, i + 2);
            let k = skip_ws(s, j);
            if j > i + 2 && k < s.len() && s[k] == '>' {
                Some((Token::Close(s.subrange(i + 2, j)), k + 1))
            } else {
                None
            }
        } else if i + 1 < s.len() && s[i + 1] == '?' {
            match find_pi_end(s, i + 2) {
                None => None,
                Some(j) => Some((Token::Pi, j)),
            }
        } else {
            let j = scan_name(s, i + 1);
            if j > i + 1 {
                match skip_attrs(s, j, None) {
                    None => None,
                    Some((sc, k)) => Some((Token::Open(s.subrange(i + 1, j), sc), k)),
                }
            } else {
                None
            }
        }
    } else {
        match parse_text(s, i) {
            None => None,
            Some((t, k)) => Some((Token::Text(t), k)),
        }
    }
}

pub proof fn lemma_next_token_bounds(s: Seq<char>, i: int)
    requires
        0 <= i <= s.len(),
    ensures
        next_token(s, i) matches Some((t, j)) ==> i < j <= s.len(),
{
    if i < s.len() {
        if s[i] == '<' {
            if i + 1 < s.len() && s[i + 1] == '/' {
                if i + 2 <= s.len() {
                    lemma_scan_name_bounds(s, i + 2);
                    lemma_skip_ws_bounds(s, scan_name(s, i + 2));
                }
            } else if i + 1 < s.len() && s[i + 1] == '?' {
                lemma_find_pi_end_bounds(s, i + 2);
            } else {
                lemma_scan_name_bounds(s, i + 1);
                lemma_skip_attrs_bounds(s, scan_name(s, i + 1), None);
            }
        } else {
            lemma_parse_text_bounds(s, i);
            if let Some((t, k)) = parse_text(s, i) {
                assert(k > i);
            }
        }
    }
}

} // verus!

use crate::model::{AuthorModel, EntryModel, FeedModel};

verus! {

/// The fields of an author element gathered so far.
pub struct AuthorAcc {
    pub name: Option<Seq<char>>,
    pub affiliation: Option<Seq<char>>,
}

/// The fields of an entry element gathered so far.
pub struct EntryAcc {
    pub id: Option<Seq<char>>,
    pub updated: Option<Seq<char>>,
    pub published: Option<Seq<char>>,
    pub title: Option<Seq<char>>,
    pub summary: Option<Seq<char>>,
    pub authors: Seq<AuthorModel>,
}

/// The accumulator both element parsers start from.
pub open spec fn empty_entry_acc() -> EntryAcc {
    EntryAcc {
        id: None,
        updated: None,
        published: None,
        title: None,
        summary: None,
        authors: Seq::empty(),
    }
}

pub open spec fn empty_author_acc() -> AuthorAcc {
    AuthorAcc { name: None, affiliation: None }
}

/// Skips the rest of an element whose opening tag has just been
/// consumed, `depth` levels deep; nesting is tracked by depth alone,
/// the names of skipped tags are not inspected.
pub open spec fn skip_elem(s: Seq<char>, i: int, depth: nat) -> Option<int>
    decreases s.len() - i,
{
    if depth == 0 {
        Some(i)
    } else {
        match next_token(s, i) {
            None => None,
            Some((t, j)) => {
                proof {
                    if 0 <= i && i <= s.len() {
                        lemma_next_token_bounds(s, i);
                    }
                }
                match t {
                    Token::Open(name, sc) => {
                        if sc {
                            skip_elem(s, j, depth)
                        } else {
                            skip_elem(s, j, depth + 1)
                        }
                    },
                    Token::Close(name) => {
                        if depth == 1 {
                            Some(j)
                        } else {
                            skip_elem(s, j, (depth - 1) as nat)
                        }
                    },
                    _ => skip_elem(s, j, depth),
                }
            },
        }
    }
}

pub proof fn lemma_skip_elem_bounds(s: Seq<char>, i: int, depth: nat)
    requires
        0 <= i <= s.len(),
    ensures
        skip_elem(s, i, depth) matches Some(j) ==> i <= j <= s.len() && (depth > 0 ==> i < j),
    decreases s.len() - i,
{
    if depth > 0 {
        lemma_next_token_bounds(s, i);
        match next_token(s, i) {
            None => {},
            Some((t, j)) => {
                match t {
                    Token::Open(name, sc) => {
                        if sc {
                            lemma_skip_elem_bounds(s, j, depth);
                        } else {
                            lemma_skip_elem_bounds(s, j, depth + 1);
                        }
                    },
                    Token::Close(name) => {
                        if depth != 1 {
                            lemma_skip_elem_bounds(s, j, (depth - 1) as nat);
                        }
                    },
                    _ => lemma_skip_elem_bounds(s, j, depth),
                }
            },
        }
    }
}

/// The content of a text-only element whose opening tag has just been
/// consumed: one character-data run, then the matching closing tag.
/// A child element inside is an error.
pub open spec fn parse_simple(s: Seq<char>, i: int, name: Seq<char>) -> Option<(Seq<char>, int)> {
    match parse_text(s, i) {
        None => None,
        Some((t, j)) => match next_token(s, j) {
            Some((Token::Close(n2), k)) => if n2 == name {
                Some((t, k))
            } else {
                None
            },
            _ => None,
        },
    }
}

pub proof fn lemma_parse_simple_bounds(s: Seq<char>, i: int, name: Seq<char>)
    requires
        0 <= i <= s.len(),
    ensures
        parse_simple(s, i, name) matches Some((t, k)) ==> i < k <= s.len(),
{
    lemma_parse_text_bounds(s, i);
    if let Some((t, j)) = parse_text(s, i) {
        lemma_next_token_bounds(s, j);
    }
}

/// An author element, after its opening tag: a required `name`, an
/// optional `affiliation`, other children skipped, duplicates rejected.
/// A self-closing known child stands for an empty text.
pub open spec fn parse_author(s: Seq<char>, i: int, acc: AuthorAcc) -> Option<(AuthorModel, int)>
    decreases s.len() - i,
{
    match next_token(s, i) {
        None => None,
        Some((t, j)) => {
            proof {
                if 0 <= i && i <= s.len() {
                    lemma_next_token_bounds(s, i);
                    lemma_parse_simple_bounds(s, j, "name"@);
                    lemma_parse_simple_bounds(s, j, "affiliation"@);
                    lemma_skip_elem_bounds(s, j, 1);
                }
            }
            match t {
                Token::Text(_) => parse_author(s, j, acc),
                Token::Pi => parse_author(s, j, acc),
                Token::Close(n) => {
                    if n == "author"@ {
                        match acc.name {
                            Some(nm) => Some(
                                (AuthorModel { name: nm, affiliation: acc.affiliation }, j),
                            ),
                            None => None,
                        }
                    } else {
                        None
                    }
                },
                Token::Open(n, sc) => {
                    if n == "name"@ {
                        if acc.name is Some {
                            None
                        } else if sc {
                            parse_author(
                                s,
                                j,
                                AuthorAcc { name: Some(Seq::empty()), affiliation: acc.affiliation },
                            )
                        } else {
                            match parse_simple(s, j, n) {
                                None => None,
                                Some((t2, k)) => parse_author(
                                    s,
                                    k,
                                    AuthorAcc { name: Some(t2), affiliation: acc.affiliation },
                                ),
                            }
                        }
                    } else if n == "affiliation"@ {
                        if acc.affiliation is Some {
                            None
                        } else if sc {
                            parse_author(
                                s,
                                j,
                                AuthorAcc { name: acc.name, affiliation: Some(Seq::empty()) },
                            )
                        } else {
                            match parse_simple(s, j, n) {
                                None => None,
                                Some((t2, k)) => parse_author(
                                    s,
                                    k,
                                    AuthorAcc { name: acc.name, affiliation: Some(t2) },
                                ),
                            }
                        }
                    } else {
                        if sc {
                            parse_author(s, j, acc)
                        } else {
                            match skip_elem(s, j, 1) {
                                None => None,
                                Some(k) => parse_author(s, k, acc),
                            }
                        }
                    }
                },
            }
        },
    }
}

pub proof fn lemma_parse_author_bounds(s: Seq<char>, i: int, acc: AuthorAcc)
    requires
        0 <= i <= s.len(),
    ensures
        parse_author(s, i, acc) matches Some((a, j)) ==> i < j <= s.len(),
    decreases s.len() - i,
{
    lemma_next_token_bounds(s, i);
    if let Some((t, j)) = next_token(s, i) {
        lemma_parse_simple_bounds(s, j, "name"@);
        lemma_parse_simple_bounds(s, j, "affiliation"@);
        lemma_skip_elem_bounds(s, j, 1);
        match t {
            Token::Text(_) => lemma_parse_author_bounds(s, j, acc),
            Token::Pi => lemma_parse_author_bounds(s, j, acc),
            Token::Close(n) => {},
            Token::Open(n, sc) => {
                if n == "name"@ {
                    if acc.name is Some {
                    } else if sc {
                        lemma_parse_author_bounds(
                            s,
                            j,
                            AuthorAcc { name: Some(Seq::empty()), affiliation: acc.affiliation },
                        );
                    } else {
                        if let Some((t2, k)) = parse_simple(s, j, n) {
                            lemma_parse_author_bounds(
                                s,
                                k,
                                AuthorAcc { name: Some(t2), affiliation: acc.affiliation },
                            );
                        }
                    }
                } else if n == "affiliation"@ {
                    if acc.affiliation is Some {
                    } else if sc {
                        lemma_parse_author_bounds(
                            s,
                            j,
                            AuthorAcc { name: acc.name, affiliation: Some(Seq::empty()) },
                        );
                    } else {
                        if let Some((t2, k)) = parse_simple(s, j, n) {
                            lemma_parse_author_bounds(
                                s,
                                k,
                                AuthorAcc { name: acc.name, affiliation: Some(t2) },
                            );
                        }
                    }
                } else {
                    if sc {
                        lemma_parse_author_bounds(s, j, acc);
                    } else {
                        if let Some(k) = skip_elem(s, j, 1) {
                            lemma_parse_author_bounds(s, k, acc);
                        }
                    }
                }
            },
        }
    }
}

} // verus!

verus! {

/// An entry element, after its opening tag: the five required text
/// fields, any number of authors, other children skipped, duplicate
/// fields rejected. A self-closing known text field stands for an
/// empty text.
pub open spec fn parse_entry(s: Seq<char>, i: int, acc: EntryAcc) -> Option<(EntryModel, int)>
    decreases s.len() - i,
{
    match next_token(s, i) {
        None => None,
        Some((t, j)) => {
            proof {
                if 0 <= i && i <= s.len() {
                    lemma_next_token_bounds(s, i);
                    lemma_parse_simple_bounds(s, j, "id"@);
                    lemma_parse_simple_bounds(s, j, "updated"@);
                    lemma_parse_simple_bounds(s, j, "published"@);
                    lemma_parse_simple_bounds(s, j, "title"@);
                    lemma_parse_simple_bounds(s, j, "summary"@);
                    lemma_parse_author_bounds(s, j, empty_author_acc());
                    lemma_skip_elem_bounds(s, j, 1);
                }
            }
            match t {
                Token::Text(_) => parse_entry(s, j, acc),
                Token::Pi => parse_entry(s, j, acc),
                Token::Close(n) => {
                    if n == "entry"@ {
                        match (acc.id, acc.updated, acc.published, acc.title, acc.summary) {
                            (Some(id), Some(up), Some(pb), Some(ti), Some(su)) => Some(
                                (
                                    EntryModel {
                                        id: id,
                                        updated: up,
                                        published: pb,
                                        title: ti,
                                        summary: su,
                                        authors: acc.authors,
                                    },
                                    j,
                                ),
                            ),
                            _ => None,
                        }
                    } else {
                        None
                    }
                },
                Token::Open(n, sc) => {
                    if n == "id"@ || n == "updated"@ || n == "published"@ || n == "title"@ || n
                        == "summary"@ {
                        let prev = if n == "id"@ {
                            acc.id
                        } else if n == "updated"@ {
                            acc.updated
                        } else if n == "published"@ {
                            acc.published
                        } else if n == "title"@ {
                            acc.title
                        } else {
                            acc.summary
                        };
                        if prev is Some {
                            None
                        } else if sc {
                            parse_entry(s, j, entry_acc_with(acc, n, Seq::empty()))
                        } else {
                            match parse_simple(s, j, n) {
                                None => None,
                                Some((t2, k)) => parse_entry(s, k, entry_acc_with(acc, n, t2)),
                            }
                        }
                    } else if n == "author"@ {
                        if sc {
                            None
                        } else {
                            match parse_author(s, j, empty_author_acc()) {
                                None => None,
                                Some((a, k)) => parse_entry(
                                    s,
                                    k,
                                    EntryAcc {
                                        id: acc.id,
                                        updated: acc.updated,
                                        published: acc.published,
                                        title: acc.title,
                                        summary: acc.summary,
                                        authors: acc.authors.push(a),
                                    },
                                ),
                            }
                        }
                    } else {
                        if sc {
                            parse_entry(s, j, acc)
                        } else {
                            match skip_elem(s, j, 1) {
                                None => None,
                                Some(k) => parse_entry(s, k, acc),
                            }
                        }
                    }
                },
            }
        },
    }
}

/// `acc` with the text field named `n` set to `t`; the names are
/// tried in the order the entry parser tries them.
pub open spec fn entry_acc_with(acc: EntryAcc, n: Seq<char>, t: Seq<char>) -> EntryAcc {
    if n == "id"@ {
        EntryAcc {
            id: Some(t),
            updated: acc.updated,
            published: acc.published,
            title: acc.title,
            summary: acc.summary,
            authors: acc.authors,
        }
    } else if n == "updated"@ {
        EntryAcc {
            id: acc.id,
            updated: Some(t),
            published: acc.published,
            title: acc.title,
            summary: acc.summary,
            authors: acc.authors,
        }
    } else if n == "published"@ {
        EntryAcc {
            id: acc.id,
            updated: acc.updated,
            published: Some(t),
            title: acc.title,
            summary: acc.summary,
            authors: acc.authors,
        }
    } else if n == "title"@ {
        EntryAcc {
            id: acc.id,
            updated: acc.updated,
            published: acc.published,
            title: Some(t),
            summary: acc.summary,
            authors: acc.authors,
        }
    } else {
        EntryAcc {
            id: acc.id,
            updated: acc.updated,
            published: acc.published,
            title: acc.title,
            summary: Some(t),
            authors: acc.authors,
        }
    }
}

pub proof fn lemma_parse_entry_bounds(s: Seq<char>, i: int, acc: EntryAcc)
    requires
        0 <= i <= s.len(),
    ensures
        parse_entry(s, i, acc) matches Some((e, j)) ==> i < j <= s.len(),
    decreases s.len() - i,
{
    lemma_next_token_bounds(s, i);
    if let Some((t, j)) = next_token(s, i) {
        lemma_parse_simple_bounds(s, j, "id"@);
        lemma_parse_simple_bounds(s, j, "updated"@);
        lemma_parse_simple_bounds(s, j, "published"@);
        lemma_parse_simple_bounds(s, j, "title"@);
        lemma_parse_simple_bounds(s, j, "summary"@);
        lemma_parse_author_bounds(s, j, empty_author_acc());
        lemma_skip_elem_bounds(s, j, 1);
        match t {
            Token::Text(_) => lemma_parse_entry_bounds(s, j, acc),
            Token::Pi => lemma_parse_entry_bounds(s, j, acc),
            Token::Close(n) => {},
            Token::Open(n, sc) => {
                if n == "id"@ || n == "updated"@ || n == "published"@ || n == "title"@ || n
                    == "summary"@ {
                    let prev = if n == "id"@ {
                        acc.id
                    } else if n == "updated"@ {
                        acc.updated
                    } else if n == "published"@ {
                        acc.published
                    } else if n == "title"@ {
                        acc.title
                    } else {
                        acc.summary
                    };
                    if prev is Some {
                    } else if sc {
                        lemma_parse_entry_bounds(s, j, entry_acc_with(acc, n, Seq::empty()));
                    } else {
                        if let Some((t2, k)) = parse_simple(s, j, n) {
                            lemma_parse_entry_bounds(s, k, entry_acc_with(acc, n, t2));
                        }
                    }
                } else if n == "author"@ {
                    if !sc {
                        if let Some((a, k)) = parse_author(s, j, empty_author_acc()) {
                            lemma_parse_entry_bounds(
                                s,
                                k,
                                EntryAcc {
                                    id: acc.id,
                                    updated: acc.updated,
                                    published: acc.published,
                                    title: acc.title,
                                    summary: acc.summary,
                                    authors: acc.authors.push(a),
                                },
                            );
                        }
                    }
                } else {
                    if sc {
                        lemma_parse_entry_bounds(s, j, acc);
                    } else {
                        if let Some(k) = skip_elem(s, j, 1) {
                            lemma_parse_entry_bounds(s, k, acc);
                        }
                    }
                }
            },
        }
    }
}

/// The children of the root element: `entry` children are parsed, any
/// other element is skipped, character data and processing
/// instructions between children are ignored. Any closing tag ends the
/// root element.
pub open spec fn parse_feed_body(s: Seq<char>, i: int, acc: Seq<EntryModel>) -> Option<
    (Seq<EntryModel>, int),
>
    decreases s.len() - i,
{
    match next_token(s, i) {
        None => None,
        Some((t, j)) => {
            proof {
                if 0 <= i && i <= s.len() {
                    lemma_next_token_bounds(s, i);
                    lemma_parse_entry_bounds(s, j, empty_entry_acc());
                    lemma_skip_elem_bounds(s, j, 1);
                }
            }
            match t {
                Token::Text(_) => parse_feed_body(s, j, acc),
                Token::Pi => parse_feed_body(s, j, acc),
                Token::Close(n) => Some((acc, j)),
                Token::Open(n, sc) => {
                    if n == "entry"@ {
                        if sc {
                            None
                        } else {
                            match parse_entry(s, j, empty_entry_acc()) {
                                None => None,
                                Some((e, k)) => parse_feed_body(s, k, acc.push(e)),
                            }
                        }
                    } else {
                        if sc {
                            parse_feed_body(s, j, acc)
                        } else {
                            match skip_elem(s, j, 1) {
                                None => None,
                                Some(k) => parse_feed_body(s, k, acc),
                            }
                        }
                    }
                },
            }
        },
    }
}

pub proof fn lemma_parse_feed_body_bounds(s: Seq<char>, i: int, acc: Seq<EntryModel>)
    requires
        0 <= i <= s.len(),
    ensures
        parse_feed_body(s, i, acc) matches Some((es, j)) ==> i < j <= s.len(),
    decreases s.len() - i,
{
    lemma_next_token_bounds(s, i);
    if let Some((t, j)) = next_token(s, i) {
        lemma_parse_entry_bounds(s, j, empty_entry_acc());
        lemma_skip_elem_bounds(s, j, 1);
        match t {
            Token::Text(_) => lemma_parse_feed_body_bounds(s, j, acc),
            Token::Pi => lemma_parse_feed_body_bounds(s, j, acc),
            Token::Close(n) => {},
            Token::Open(n, sc) => {
                if n == "entry"@ {
                    if !sc {
                        if let Some((e, k)) = parse_entry(s, j, empty_entry_acc()) {
                            lemma_parse_feed_body_bounds(s, k, acc.push(e));
                        }
                    }
                } else {
                    if sc {
                        lemma_parse_feed_body_bounds(s, j, acc);
                    } else {
                        if let Some(k) = skip_elem(s, j, 1) {
                            lemma_parse_feed_body_bounds(s, k, acc);
                        }
                    }
                }
            },
        }
    }
}

/// The prolog before the root element: whitespace and processing
/// instructions. Returns the position of the first character of the
/// root element's tag.
pub open spec fn skip_prolog(s: Seq<char>, i: int) -> int
    decreases s.len() - i,
{
    let k = skip_ws(s, i);
    proof {
        if 0 <= i && i <= s.len() {
            lemma_skip_ws_bounds(s, i);
            lemma_next_token_bounds(s, k);
        }
    }
    if 0 <= i && i <= s.len() {
        match next_token(s, k) {
            Some((Token::Pi, j)) => skip_prolog(s, j),
            _ => k,
        }
    } else {
        k
    }
}

pub proof fn lemma_skip_prolog_bounds(s: Seq<char>, i: int)
    requires
        0 <= i <= s.len(),
    ensures
        i <= skip_prolog(s, i) <= s.len(),
    decreases s.len() - i,
{
    let k = skip_ws(s, i);
    lemma_skip_ws_bounds(s, i);
    lemma_next_token_bounds(s, k);
    match next_token(s, k) {
        Some((Token::Pi, j)) => lemma_skip_prolog_bounds(s, j),
        _ => {},
    }
}

/// Whether only whitespace stands from `i` to the end of `s`.
pub open spec fn trailing_ok(s: Seq<char>, i: int) -> bool {
    skip_ws(s, i) == s.len()
}

/// The whole document: a prolog, one root element (its name is not
/// inspected) whose children are parsed as the feed's entries, and
/// trailing whitespace.
pub open spec fn parse_document(s: Seq<char>) -> Option<FeedModel> {
    let i = skip_prolog(s, 0);
    match next_token(s, i) {
        Some((Token::Open(name, sc), j)) => {
            if sc {
                if trailing_ok(s, j) {
                    Some(FeedModel { entries: Seq::empty() })
                } else {
                    None
                }
            } else {
                match parse_feed_body(s, j, Seq::empty()) {
                    None => None,
                    Some((entries, k)) => if trailing_ok(s, k) {
                        Some(FeedModel { entries })
                    } else {
                        None
                    },
                }
            }
        },
        _ => None,
    }
}

} // verus!

use crate::strutil::push_char;

verus! {

/// One lexical event, as the executable scanner reports it: tag names
/// are given as index ranges into the scanned character vector.
pub enum TokenE {
    Text(String),
    Open(usize, usize, bool),
    Close(usize, usize),
    Pi,
}

/// How an executable token relates to a spec token at the same input.
pub open spec fn tok_rel(s: Seq<char>, r: Option<(TokenE, usize)>, m: Option<(Token, int)>) -> bool {
    match (r, m) {
        (None, None) => true,
        (Some((te, j)), Some((tm, jm))) => j as int == jm && jm <= s.len() && (match (te, tm) {
            (TokenE::Text(t), Token::Text(tm2)) => t@ == tm2,
            (TokenE::Open(a, b, sc), Token::Open(nm, scm)) => a <= b <= s.len() && s.subrange(
                a as int,
                b as int,
            ) == nm && sc == scm,
            (TokenE::Close(a, b), Token::Close(nm)) => a <= b <= s.len() && s.subrange(
                a as int,
                b as int,
            ) == nm,
            (TokenE::Pi, Token::Pi) => true,
            _ => false,
        }),
        _ => false,
    }
}

fn is_ws_e(c: char) -> (r: bool)
    ensures
        r == is_ws(c),
{
    c == ' ' || c == '\t' || c == '\r' || c == '\n'
}

fn is_name_char_e(c: char) -> (r: bool)
    ensures
        r == is_name_char(c),
{
    ('a' <= c && c <= 'z') || ('A' <= c && c <= 'Z') || ('0' <= c && c <= '9') || c == '_' || c
        == ':' || c == '-' || c == '.'
}

fn skip_ws_e(v: &Vec<char>, i: usize) -> (r: usize)
    requires
        i <= v@.len(),
    ensures
        r as int == skip_ws(v@, i as int),
        i <= r <= v@.len(),
{
    let mut p = i;
    loop
        invariant
            i <= p <= v@.len(),
            skip_ws(v@, i as int) == skip_ws(v@, p as int),
        decreases v@.len() - p,
    {
        if p >= v.len() {
            return p;
        }
        if !is_ws_e(v[p]) {
            return p;
        }
        p = p + 1;
    }
}

fn scan_name_e(v: &Vec<char>, i: usize) -> (r: usize)
    requires
        i <= v@.len(),
    ensures
        r as int == scan_name(v@, i as int),
        i <= r <= v@.len(),
{
    let mut p = i;
    loop
        invariant
            i <= p <= v@.len(),
            scan_name(v@, i as int) == scan_name(v@, p as int),
        decreases v@.len() - p,
    {
        if p >= v.len() {
            return p;
        }
        if !is_name_char_e(v[p]) {
            return p;
        }
        p = p + 1;
    }
}

fn skip_attrs_e(v: &Vec<char>, i: usize) -> (r: Option<(bool, usize)>)
    requires
        i <= v@.len(),
    ensures
        ({
            let m = skip_attrs(v@, i as int, None);
            match (r, m) {
                (None, None) => true,
                (Some((sc, j)), Some((scm, jm))) => sc == scm && j as int == jm && i < j <= v@.len(),
                _ => false,
            }
        }),
{
    let mut p = i;
    let mut quote: Option<char> = None;
    proof {
        lemma_skip_attrs_bounds(v@, i as int, None);
    }
    loop
        invariant
            i <= p <= v@.len(),
            skip_attrs(v@, i as int, None) == skip_attrs(v@, p as int, quote),
            skip_attrs(v@, i as int, None) matches Some((sc, j)) ==> i < j <= v@.len(),
        decreases v@.len() - p,
    {
        if p >= v.len() {
            return None;
        }
        let c = v[p];
        match quote {
            Some(q) => {
                if c == q {
                    quote = None;
                }
                p = p + 1;
            },
            None => {
                if c == '>' {
                    return Some((false, p + 1));
                } else if c == '/' && p + 1 < v.len() && v[p + 1] == '>' {
                    return Some((true, p + 2));
                } else if c == '"' || c == '\'' {
                    quote = Some(c);
                    p = p + 1;
                } else {
                    p = p + 1;
                }
            },
        }
    }
}

fn find_pi_end_e(v: &Vec<char>, i: usize) -> (r: Option<usize>)
    requires
        i <= v@.len(),
    ensures
        ({
            let m = find_pi_end(v@, i as int);
            match (r, m) {
                (None, None) => true,
                (Some(j), Some(jm)) => j as int == jm && i < j <= v@.len(),
                _ => false,
            }
        }),
{
    let mut p = i;
    proof {
        lemma_find_pi_end_bounds(v@, i as int);
    }
    loop
        invariant
            i <= p <= v@.len(),
            find_pi_end(v@, i as int) == find_pi_end(v@, p as int),
            find_pi_end(v@, i as int) matches Some(j) ==> i < j <= v@.len(),
        decreases v@.len() - p,
    {
        if p >= v.len() {
            return None;
        }
        if v[p] == '?' && p + 1 < v.len() && v[p + 1] == '>' {
            return Some(p + 2);
        }
        p = p + 1;
    }
}

fn entity_at_e(v: &Vec<char>, i: usize) -> (r: Option<(char, usize)>)
    requires
        i <= v@.len(),
    ensures
        ({
            let m = entity_at(v@, i as int);
            match (r, m) {
                (None, None) => true,
                (Some((c, j)), Some((cm, jm))) => c == cm && j as int == jm && i < j <= v@.len(),
                _ => false,
            }
        }),
{
    let n = v.len();
    if n - i >= 5 && v[i + 1] == 'a' && v[i + 2] == 'm' && v[i + 3] == 'p' && v[i + 4] == ';' {
        Some(('&', i + 5))
    } else if n - i >= 4 && v[i + 1] == 'l' && v[i + 2] == 't' && v[i + 3] == ';' {
        Some(('<', i + 4))
    } else if n - i >= 4 && v[i + 1] == 'g' && v[i + 2] == 't' && v[i + 3] == ';' {
        Some(('>', i + 4))
    } else if n - i >= 6 && v[i + 1] == 'q' && v[i + 2] == 'u' && v[i + 3] == 'o' && v[i + 4] == 't'
        && v[i + 5] == ';' {
        Some(('"', i + 6))
    } else if n - i >= 6 && v[i + 1] == 'a' && v[i + 2] == 'p' && v[i + 3] == 'o' && v[i + 4] == 's'
        && v[i + 5] == ';' {
        Some(('\'', i + 6))
    } else {
        None
    }
}

fn parse_text_e(v: &Vec<char>, i: usize) -> (r: Option<(String, usize)>)
    requires
        i <= v@.len(),
    ensures
        ({
            let m = parse_text(v@, i as int);
            match (r, m) {
                (None, None) => true,
                (Some((t, k)), Some((tm, km))) => t@ == tm && k as int == km && i <= k <= v@.len(),
                _ => false,
            }
        }),
{
    let mut p = i;
    let mut acc = String::new();
    proof {
        lemma_parse_text_bounds(v@, i as int);
    }
    loop
        invariant
            i <= p <= v@.len(),
            parse_text(v@, i as int) == (match parse_text(v@, p as int) {
                None => None::<(Seq<char>, int)>,
                Some((t, k)) => Some((acc@ + t, k)),
            }),
            parse_text(v@, i as int) matches Some((t, k)) ==> i <= k <= v@.len(),
        decreases v@.len() - p,
    {
        if p >= v.len() {
            proof {
                assert((acc@ + Seq::<char>::empty()) =~= acc@);
            }
            return Some((acc, p));
        }
        let c = v[p];
        if c == '<' {
            proof {
                assert((acc@ + Seq::<char>::empty()) =~= acc@);
            }
            return Some((acc, p));
        }
        if c == '&' {
            match entity_at_e(v, p) {
                None => {
                    return None;
                },
                Some((c2, j)) => {
                    proof {
                        let ghost acc0 = acc@;
                        assert forall|t: Seq<char>| (acc0 + (seq![c2] + t)) =~= (acc0.push(c2)
                            + t) by {}
                    }
                    push_char(&mut acc, c2);
                    p = j;
                },
            }
        } else {
            proof {
                let ghost acc0 = acc@;
                assert forall|t: Seq<char>| (acc0 + (seq![c] + t)) =~= (acc0.push(c) + t) by {}
            }
            push_char(&mut acc, c);
            p = p + 1;
        }
    }
}

/// The executable scanner for one token; equal to `next_token`.
fn next_token_e(v: &Vec<char>, i: usize) -> (r: Option<(TokenE, usize)>)
    requires
        i <= v@.len(),
    ensures
        tok_rel(v@, r, next_token(v@, i as int)),
        r matches Some((t, j)) ==> i < j <= v@.len(),
{
    proof {
        lemma_next_token_bounds(v@, i as int);
    }
    if i >= v.len() {
        return None;
    }
    let c = v[i];
    if c == '<' {
        if i + 1 < v.len() && v[i + 1] == '/' {
            let j = scan_name_e(v, i + 2);
            let k = skip_ws_e(v, j);
            if j > i + 2 && k < v.len() && v[k] == '>' {
                Some((TokenE::Close(i + 2, j), k + 1))
            } else {
                None
            }
        } else if i + 1 < v.len() && v[i + 1] == '?' {
            match find_pi_end_e(v, i + 2) {
                None => None,
                Some(j) => Some((TokenE::Pi, j)),
            }
        } else {
            let j = scan_name_e(v, i + 1);
            if j > i + 1 {
                match skip_attrs_e(v, j) {
                    None => None,
                    Some((sc, k)) => Some((TokenE::Open(i + 1, j, sc), k)),
                }
            } else {
                None
            }
        }
    } else {
        match parse_text_e(v, i) {
            None => None,
            Some((t, k)) => {
                proof {
                    lemma_parse_text_bounds(v@, i as int);
                }
                Some((TokenE::Text(t), k))
            },
        }
    }
}

} // verus!

use crate::feed::Author;
use crate::strutil::chars_eq_str;

verus! {

/// One entry as parsed, before timestamp validation.
pub struct RawEntry {
    pub id: String,
    pub updated: String,
    pub published: String,
    pub title: String,
    pub summary: String,
    pub authors: Vec<Author>,
}

impl DeepView for RawEntry {
    type V = EntryModel;

    open spec fn deep_view(&self) -> EntryModel {
        EntryModel {
            id: self.id@,
            updated: self.updated@,
            published: self.published@,
            title: self.title@,
            summary: self.summary@,
            authors: self.authors.deep_view(),
        }
    }
}

/// Whether two index ranges of `v` hold the same characters.
fn chars_eq_range(v: &Vec<char>, a: usize, b: usize, a2: usize, b2: usize) -> (r: bool)
    requires
        a <= b <= v@.len(),
        a2 <= b2 <= v@.len(),
    ensures
        r == (v@.subrange(a as int, b as int) == v@.subrange(a2 as int, b2 as int)),
{
    if b - a != b2 - a2 {
        proof {
            assert(v@.subrange(a as int, b as int).len() != v@.subrange(a2 as int, b2 as int).len());
        }
        return false;
    }
    let n = b - a;
    let mut i: usize = 0;
    while i < n
        invariant
            i <= n,
            n == b - a,
            n == b2 - a2,
            a <= b <= v@.len(),
            a2 <= b2 <= v@.len(),
            forall|k: int| 0 <= k < i ==> v@[a + k] == #[trigger] v@[a2 + k],
        decreases n - i,
    {
        if v[a + i] != v[a2 + i] {
            proof {
                assert(v@.subrange(a as int, b as int)[i as int] != v@.subrange(
                    a2 as int,
                    b2 as int,
                )[i as int]);
            }
            return false;
        }
        i = i + 1;
    }
    proof {
        assert forall|k: int| 0 <= k < (b - a) implies v@.subrange(a as int, b as int)[k]
            == v@.subrange(a2 as int, b2 as int)[k] by {
            assert(v@[a + k] == v@[a2 + k]);
        }
        assert(v@.subrange(a as int, b as int) =~= v@.subrange(a2 as int, b2 as int));
    }
    true
}

/// Skips one already-opened element; equal to `skip_elem` at depth 1.
fn skip_elem_e(v: &Vec<char>, i: usize) -> (r: Option<usize>)
    requires
        1 <= i <= v@.len(),
    ensures
        ({
            let m = skip_elem(v@, i as int, 1);
            match (r, m) {
                (None, None) => true,
                (Some(j), Some(jm)) => j as int == jm && i < j <= v@.len(),
                _ => false,
            }
        }),
{
    proof {
        lemma_skip_elem_bounds(v@, i as int, 1);
    }
    let mut p = i;
    let mut depth: usize = 1;
    loop
        invariant
            i <= p <= v@.len(),
            1 <= depth <= p,
            skip_elem(v@, i as int, 1) == skip_elem(v@, p as int, depth as nat),
            skip_elem(v@, i as int, 1) matches Some(j) ==> i < j <= v@.len(),
        decreases v@.len() - p,
    {
        match next_token_e(v, p) {
            None => {
                return None;
            },
            Some((t, j)) => {
                match t {
                    TokenE::Open(a, b, sc) => {
                        if !sc {
                            depth = depth + 1;
                        }
                        p = j;
                    },
                    TokenE::Close(a, b) => {
                        if depth == 1 {
                            return Some(j);
                        }
                        depth = depth - 1;
                        p = j;
                    },
                    _ => {
                        p = j;
                    },
                }
            },
        }
    }
}

/// The content of a text-only element; equal to `parse_simple` for the
/// name standing at `v[a..b]`.
fn parse_simple_e(v: &Vec<char>, i: usize, a: usize, b: usize) -> (r: Option<(String, usize)>)
    requires
        i <= v@.len(),
        a <= b <= v@.len(),
    ensures
        ({
            let m = parse_simple(v@, i as int, v@.subrange(a as int, b as int));
            match (r, m) {
                (None, None) => true,
                (Some((t, k)), Some((tm, km))) => t@ == tm && k as int == km && i < k <= v@.len(),
                _ => false,
            }
        }),
{
    proof {
        lemma_parse_simple_bounds(v@, i as int, v@.subrange(a as int, b as int));
    }
    match parse_text_e(v, i) {
        None => None,
        Some((t, j)) => {
            match next_token_e(v, j) {
                Some((TokenE::Close(a2, b2), k)) => {
                    if chars_eq_range(v, a2, b2, a, b) {
                        Some((t, k))
                    } else {
                        None
                    }
                },
                _ => None,
            }
        },
    }
}

/// The accumulator view of the author parser's working state.
pub(crate) open spec fn author_acc_of(name: Option<String>, aff: Option<String>) -> AuthorAcc {
    AuthorAcc { name: name.deep_view(), affiliation: aff.deep_view() }
}

/// An author element; equal to `parse_author` from the empty
/// accumulator.
fn parse_author_e(v: &Vec<char>, i: usize) -> (r: Option<(Author, usize)>)
    requires
        i <= v@.len(),
    ensures
        ({
            let m = parse_author(v@, i as int, empty_author_acc());
            match (r, m) {
                (None, None) => true,
                (Some((au, j)), Some((am, jm))) => au@ == am && j as int == jm && i < j <= v@.len(),
                _ => false,
            }
        }),
{
    proof {
        lemma_parse_author_bounds(v@, i as int, empty_author_acc());
    }
    let mut p = i;
    let mut name: Option<String> = None;
    let mut aff: Option<String> = None;
    loop
        invariant
            i <= p <= v@.len(),
            parse_author(v@, i as int, empty_author_acc()) == parse_author(
                v@,
                p as int,
                author_acc_of(name, aff),
            ),
            parse_author(v@, i as int, empty_author_acc()) matches Some((am, jm)) ==> i < jm
                <= v@.len(),
        decreases v@.len() - p,
    {
        match next_token_e(v, p) {
            None => {
                return None;
            },
            Some((t, j)) => {
                match t {
                    TokenE::Text(_) => {
                        p = j;
                    },
                    TokenE::Pi => {
                        p = j;
                    },
                    TokenE::Close(a, b) => {
                        if chars_eq_str(v, a, b, "author") {
                            match name {
                                Some(nm) => {
                                    return Some((Author { name: nm, affiliation: aff }, j));
                                },
                                None => {
                                    return None;
                                },
                            }
                        } else {
                            return None;
                        }
                    },
                    TokenE::Open(a, b, sc) => {
                        if chars_eq_str(v, a, b, "name") {
                            if name.is_some() {
                                return None;
                            } else if sc {
                                name = Some(String::new());
                                p = j;
                            } else {
                                match parse_simple_e(v, j, a, b) {
                                    None => {
                                        return None;
                                    },
                                    Some((t2, k)) => {
                                        name = Some(t2);
                                        p = k;
                                    },
                                }
                            }
                        } else if chars_eq_str(v, a, b, "affiliation") {
                            if aff.is_some() {
                                return None;
                            } else if sc {
                                aff = Some(String::new());
                                p = j;
                            } else {
                                match parse_simple_e(v, j, a, b) {
                                    None => {
                                        return None;
                                    },
                                    Some((t2, k)) => {
                                        aff = Some(t2);
                                        p = k;
                                    },
                                }
                            }
                        } else {
                            if sc {
                                p = j;
                            } else {
                                match skip_elem_e(v, j) {
                                    None => {
                                        return None;
                                    },
                                    Some(k) => {
                                        p = k;
                                    },
                                }
                            }
                        }
                    },
                }
            },
        }
    }
}

} // verus!

verus! {

/// The accumulator view of the entry parser's working state.
pub open spec fn entry_acc_of(
    id: Option<String>,
    up: Option<String>,
    pb: Option<String>,
    ti: Option<String>,
    su: Option<String>,
    authors: Seq<AuthorModel>,
) -> EntryAcc {
    EntryAcc {
        id: id.deep_view(),
        updated: up.deep_view(),
        published: pb.deep_view(),
        title: ti.deep_view(),
        summary: su.deep_view(),
        authors: authors,
    }
}

/// An entry element; equal to `parse_entry` from the empty accumulator.
fn parse_entry_e(v: &Vec<char>, i: usize) -> (r: Option<(RawEntry, usize)>)
    requires
        i <= v@.len(),
    ensures
        ({
            let m = parse_entry(v@, i as int, empty_entry_acc());
            match (r, m) {
                (None, None) => true,
                (Some((e, j)), Some((em, jm))) => e.deep_view() == em && j as int == jm && i < j
                    <= v@.len(),
                _ => false,
            }
        }),
{
    proof {
        lemma_parse_entry_bounds(v@, i as int, empty_entry_acc());
    }
    let mut p = i;
    let mut f_id: Option<String> = None;
    let mut f_up: Option<String> = None;
    let mut f_pb: Option<String> = None;
    let mut f_ti: Option<String> = None;
    let mut f_su: Option<String> = None;
    let mut authors: Vec<Author> = Vec::new();
    proof {
        assert(authors.deep_view() =~= Seq::<AuthorModel>::empty());
        assert(entry_acc_of(f_id, f_up, f_pb, f_ti, f_su, authors.deep_view())
            == empty_entry_acc());
    }
    loop
        invariant
            i <= p <= v@.len(),
            parse_entry(v@, i as int, empty_entry_acc()) == parse_entry(
                v@,
                p as int,
                entry_acc_of(f_id, f_up, f_pb, f_ti, f_su, authors.deep_view()),
            ),
            parse_entry(v@, i as int, empty_entry_acc()) matches Some((em, jm)) ==> i < jm
                <= v@.len(),
        decreases v@.len() - p,
    {
        match next_token_e(v, p) {
            None => {
                return None;
            },
            Some((t, j)) => {
                match t {
                    TokenE::Text(_) => {
                        p = j;
                    },
                    TokenE::Pi => {
                        p = j;
                    },
                    TokenE::Close(a, b) => {
                        if chars_eq_str(v, a, b, "entry") {
                            match (f_id, f_up, f_pb, f_ti, f_su) {
                                (Some(id), Some(up), Some(pb), Some(ti), Some(su)) => {
                                    let e = RawEntry {
                                        id,
                                        updated: up,
                                        published: pb,
                                        title: ti,
                                        summary: su,
                                        authors,
                                    };
                                    return Some((e, j));
                                },
                                _ => {
                                    return None;
                                },
                            }
                        } else {
                            return None;
                        }
                    },
                    TokenE::Open(a, b, sc) => {
                        let eq_id = chars_eq_str(v, a, b, "id");
                        let eq_up = chars_eq_str(v, a, b, "updated");
                        let eq_pb = chars_eq_str(v, a, b, "published");
                        let eq_ti = chars_eq_str(v, a, b, "title");
                        let eq_su = chars_eq_str(v, a, b, "summary");
                        let eq_au = chars_eq_str(v, a, b, "author");
                        if eq_id || eq_up || eq_pb || eq_ti || eq_su {
                            let dup = if eq_id {
                                f_id.is_some()
                            } else if eq_up {
                                f_up.is_some()
                            } else if eq_pb {
                                f_pb.is_some()
                            } else if eq_ti {
                                f_ti.is_some()
                            } else {
                                f_su.is_some()
                            };
                            if dup {
                                return None;
                            } else if sc {
                                let t2 = String::new();
                                if eq_id {
                                    f_id = Some(t2);
                                } else if eq_up {
                                    f_up = Some(t2);
                                } else if eq_pb {
                                    f_pb = Some(t2);
                                } else if eq_ti {
                                    f_ti = Some(t2);
                                } else {
                                    f_su = Some(t2);
                                }
                                p = j;
                            } else {
                                match parse_simple_e(v, j, a, b) {
                                    None => {
                                        return None;
                                    },
                                    Some((t2, k)) => {
                                        if eq_id {
                                            f_id = Some(t2);
                                        } else if eq_up {
                                            f_up = Some(t2);
                                        } else if eq_pb {
                                            f_pb = Some(t2);
                                        } else if eq_ti {
                                            f_ti = Some(t2);
                                        } else {
                                            f_su = Some(t2);
                                        }
                                        p = k;
                                    },
                                }
                            }
                        } else if eq_au {
                            if sc {
                                return None;
                            } else {
                                match parse_author_e(v, j) {
                                    None => {
                                        return None;
                                    },
                                    Some((au, k)) => {
                                        let ghost old_authors = authors.deep_view();
                                        authors.push(au);
                                        proof {
                                            assert(authors.deep_view() =~= old_authors.push(au@));
                                        }
                                        p = k;
                                    },
                                }
                            }
                        } else {
                            if sc {
                                p = j;
                            } else {
                                match skip_elem_e(v, j) {
                                    None => {
                                        return None;
                                    },
                                    Some(k) => {
                                        p = k;
                                    },
                                }
                            }
                        }
                    },
                }
            },
        }
    }
}

/// The children of the root element; equal to `parse_feed_body` from
/// the empty entry sequence.
fn parse_feed_body_e(v: &Vec<char>, i: usize) -> (r: Option<(Vec<RawEntry>, usize)>)
    requires
        i <= v@.len(),
    ensures
        ({
            let m = parse_feed_body(v@, i as int, Seq::empty());
            match (r, m) {
                (None, None) => true,
                (Some((es, j)), Some((esm, jm))) => es.deep_view() == esm && j as int == jm && i
                    < j <= v@.len(),
                _ => false,
            }
        }),
{
    proof {
        lemma_parse_feed_body_bounds(v@, i as int, Seq::empty());
    }
    let mut p = i;
    let mut entries: Vec<RawEntry> = Vec::new();
    proof {
        assert(entries.deep_view() =~= Seq::<EntryModel>::empty());
    }
    loop
        invariant
            i <= p <= v@.len(),
            parse_feed_body(v@, i as int, Seq::empty()) == parse_feed_body(
                v@,
                p as int,
                entries.deep_view(),
            ),
            parse_feed_body(v@, i as int, Seq::empty()) matches Some((esm, jm)) ==> i < jm
                <= v@.len(),
        decreases v@.len() - p,
    {
        match next_token_e(v, p) {
            None => {
                return None;
            },
            Some((t, j)) => {
                match t {
                    TokenE::Text(_) => {
                        p = j;
                    },
                    TokenE::Pi => {
                        p = j;
                    },
                    TokenE::Close(a, b) => {
                        return Some((entries, j));
                    },
                    TokenE::Open(a, b, sc) => {
                        if chars_eq_str(v, a, b, "entry") {
                            if sc {
                                return None;
                            } else {
                                match parse_entry_e(v, j) {
                                    None => {
                                        return None;
                                    },
                                    Some((e, k)) => {
                                        let ghost old_entries = entries.deep_view();
                                        entries.push(e);
                                        proof {
                                            assert(entries.deep_view() =~= old_entries.push(
                                                e.deep_view(),
                                            ));
                                        }
                                        p = k;
                                    },
                                }
                            }
                        } else {
                            if sc {
                                p = j;
                            } else {
                                match skip_elem_e(v, j) {
                                    None => {
                                        return None;
                                    },
                                    Some(k) => {
                                        p = k;
                                    },
                                }
                            }
                        }
                    },
                }
            },
        }
    }
}

/// The prolog; equal to `skip_prolog`.
fn skip_prolog_e(v: &Vec<char>, i: usize) -> (r: usize)
    requires
        i <= v@.len(),
    ensures
        r as int == skip_prolog(v@, i as int),
        i <= r <= v@.len(),
{
    proof {
        lemma_skip_prolog_bounds(v@, i as int);
    }
    let mut p = i;
    loop
        invariant
            i <= p <= v@.len(),
            skip_prolog(v@, i as int) == skip_prolog(v@, p as int),
        decreases v@.len() - p,
    {
        let k = skip_ws_e(v, p);
        match next_token_e(v, k) {
            Some((TokenE::Pi, j)) => {
                p = j;
            },
            _ => {
                return k;
            },
        }
    }
}

/// The whole document; equal to `parse_document`.
pub(crate) fn parse_document_e(v: &Vec<char>) -> (r: Option<Vec<RawEntry>>)
    ensures
        ({
            let m = parse_document(v@);
            match (r, m) {
                (None, None) => true,
                (Some(es), Some(fm)) => es.deep_view() == fm.entries,
                _ => false,
            }
        }),
{
    let i = skip_prolog_e(v, 0);
    match next_token_e(v, i) {
        Some((TokenE::Open(a, b, sc), j)) => {
            if sc {
                let k = skip_ws_e(v, j);
                if k == v.len() {
                    let entries: Vec<RawEntry> = Vec::new();
                    proof {
                        assert(entries.deep_view() =~= Seq::<EntryModel>::empty());
                    }
                    Some(entries)
                } else {
                    None
                }
            } else {
                match parse_feed_body_e(v, j) {
                    None => None,
                    Some((es, k)) => {
                        let k2 = skip_ws_e(v, k);
                        if k2 == v.len() {
                            Some(es)
                        } else {
                            None
                        }
                    },
                }
            }
        },
        _ => None,
    }
}

} // verus!
