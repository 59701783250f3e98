//! The query builder: accumulates search-term fragments and pagination
//! parameters and renders them into the exact query string the search
//! endpoint expects.

use vstd::prelude::*;
use crate::numeral::{dec_str, dec_value, is_digit, lemma_dec_round_trip, lemma_dec_str_digits, u64_to_dec};
use crate::strutil::push_char;

verus! {

/// The mathematical content of a `QueryBuilder`: the fragments in order
/// and the two pagination numbers.
pub struct QueryModel {
    pub fragments: Seq<Seq<char>>,
    pub start: nat,
    pub max_results: nat,
}

/// The fragments joined with a literal `+` between adjacent ones.
pub open spec fn join_plus(frags: Seq<Seq<char>>) -> Seq<char>
    decreases frags.len(),
{
    if frags.len() == 0 {
        Seq::empty()
    } else if frags.len() == 1 {
        frags[0]
    } else {
        join_plus(frags.drop_last()) + seq!['+'] + frags.last()
    }
}

/// The rendered query string:
/// `search_query=<f1>+...+<fN>&start=<S>&max_results=<M>`.
pub open spec fn render(q: QueryModel) -> Seq<char> {
    "search_query="@ + join_plus(q.fragments) + "&start="@ + dec_str(q.start) + "&max_results="@
        + dec_str(q.max_results)
}

/// Accumulates search-term fragments (kept verbatim; the caller escapes
/// them) plus a start offset and a maximum result count, and renders the
/// query string for the search endpoint.
pub struct QueryBuilder {
    search_query: Vec<String>,
    start: usize,
    max_result: usize,
}

impl View for QueryBuilder {
    type V = QueryModel;

    closed spec fn view(&self) -> QueryModel {
        QueryModel {
            fragments: self.search_query.deep_view(),
            start: self.start as nat,
            max_results: self.max_result as nat,
        }
    }
}

impl QueryBuilder {
    /// A builder with no fragments, start offset 0 and maximum result
    /// count 10.
    pub fn new() -> (r: Self)
        ensures
            r@.fragments == Seq::<Seq<char>>::empty(),
            r@.start == 0,
            r@.max_results == 10,
    {
        let r = QueryBuilder { search_query: Vec::new(), start: 0, max_result: 10 };
        proof {
            assert(r@.fragments =~= Seq::<Seq<char>>::empty());
        }
        r
    }

    /// Appends one search-term fragment, kept verbatim.
    pub fn add_search_query(self, query: &str) -> (r: Self)
        ensures
            r@.fragments == self@.fragments.push(query@),
            r@.start == self@.start,
            r@.max_results == self@.max_results,
    {
        let ghost before = self@.fragments;
        let mut v = self.search_query;
        v.push(query.to_owned());
        let r = QueryBuilder { search_query: v, start: self.start, max_result: self.max_result };
        proof {
            assert(r@.fragments =~= before.push(query@));
        }
        r
    }

    /// Sets the zero-based start offset.
    pub fn set_start(self, start: usize) -> (r: Self)
        ensures
            r@.fragments == self@.fragments,
            r@.start == start as nat,
            r@.max_results == self@.max_results,
    {
        QueryBuilder { search_query: self.search_query, start, max_result: self.max_result }
    }

    /// Sets the maximum result count.
    pub fn set_max_result(self, max_result: usize) -> (r: Self)
        ensures
            r@.fragments == self@.fragments,
            r@.start == self@.start,
            r@.max_results == max_result as nat,
    {
        QueryBuilder { search_query: self.search_query, start: self.start, max_result }
    }

    /// Renders the query string, byte-exact:
    /// `search_query=<f1>+...+<fN>&start=<S>&max_results=<M>`.
    pub fn query(&self) -> (r: String)
        ensures
            r@ == render(self@),
    {
        let mut r = String::from_str("search_query=");
        let n: usize = self.search_query.len();
        let mut i: usize = 0;
        while i < n
            invariant
                n == self.search_query.len(),
                i <= n,
                r@ == "search_query="@ + join_plus(self@.fragments.take(i as int)),
                self@.fragments == self.search_query.deep_view(),
            decreases n - i,
        {
            if i > 0 {
                push_char(&mut r, '+');
            }
            r.append(self.search_query[i].as_str());
            proof {
                let frags = self@.fragments;
                let pre = frags.take(i as int);
                let cur = frags.take(i + 1 as int);
                assert(cur.drop_last() =~= pre);
                assert(cur.last() == frags[i as int]);
                if i == 0 {
                    assert(join_plus(cur) == frags[0]);
                    assert(("search_query="@ + join_plus(pre)) =~= "search_query="@);
                    assert(r@ =~= "search_query="@ + join_plus(cur));
                } else {
                    assert(join_plus(cur) == join_plus(pre) + seq!['+'] + frags[i as int]);
                    assert(r@ =~= "search_query="@ + join_plus(cur));
                }
            }
            i = i + 1;
        }
        proof {
            assert(self@.fragments.take(n as int) =~= self@.fragments);
        }
        r.append("&start=");
        let s = u64_to_dec(self.start as u64);
        r.append(s.as_str());
        r.append("&max_results=");
        let m = u64_to_dec(self.max_result as u64);
        r.append(m.as_str());
        proof {
            assert(r@ =~= render(self@));
        }
        r
    }
}

} // verus!

verus! {

/// No character of `w` is `c`.
pub open spec fn char_free(w: Seq<char>, c: char) -> bool {
    forall|k: int| 0 <= k < w.len() ==> w[k] != c
}

/// A fragment that the rendering keeps recoverable: non-empty and
/// without the two separator characters.
pub open spec fn frag_ok(f: Seq<char>) -> bool {
    f.len() > 0 && char_free(f, '+') && char_free(f, '&')
}

/// The first position at or after `i` holding `c`.
pub open spec fn find_char(w: Seq<char>, c: char, i: int) -> Option<int>
    decreases w.len() - i,
{
    if !(0 <= i && i < w.len()) {
        None
    } else if w[i] == c {
        Some(i)
    } else {
        find_char(w, c, i + 1)
    }
}

pub proof fn lemma_find_char_bounds(w: Seq<char>, c: char, i: int)
    requires
        0 <= i <= w.len(),
    ensures
        find_char(w, c, i) matches Some(k) ==> i <= k < w.len() && w[k] == c,
    decreases w.len() - i,
{
    if i < w.len() && w[i] != c {
        lemma_find_char_bounds(w, c, i + 1);
    }
}

proof fn lemma_find_char_at(w: Seq<char>, c: char, i: int, t: int)
    requires
        0 <= i <= t < w.len(),
        w[t] == c,
        forall|k: int| i <= k < t ==> w[k] != c,
    ensures
        find_char(w, c, i) == Some(t),
    decreases t - i,
{
    if i < t {
        lemma_find_char_at(w, c, i + 1, t);
    }
}

proof fn lemma_find_char_none(w: Seq<char>, c: char, i: int)
    requires
        0 <= i <= w.len(),
        forall|k: int| i <= k < w.len() ==> w[k] != c,
    ensures
        find_char(w, c, i) is None,
    decreases w.len() - i,
{
    if i < w.len() {
        lemma_find_char_none(w, c, i + 1);
    }
}

/// `w` split on every `+`.
pub open spec fn split_plus(w: Seq<char>) -> Seq<Seq<char>>
    decreases w.len(),
{
    if w.len() == 0 {
        Seq::empty()
    } else {
        match find_char(w, '+', 0) {
            None => seq![w],
            Some(k) => {
                proof {
                    lemma_find_char_bounds(w, '+', 0);
                }
                seq![w.subrange(0, k)] + split_plus(w.subrange(k + 1, w.len() as int))
            },
        }
    }
}

/// Every character of `w` is a decimal digit.
pub open spec fn all_digits(w: Seq<char>) -> bool {
    forall|k: int| 0 <= k < w.len() ==> is_digit(w[k])
}

/// Re-derives the fragments, start and maximum from a rendered query
/// string by splitting on the known separators.
pub open spec fn unrender(w: Seq<char>) -> Option<(Seq<Seq<char>>, nat, nat)> {
    let p = "search_query="@;
    let a = "&start="@;
    let b = "&max_results="@;
    if w.len() < p.len() || w.subrange(0, p.len() as int) != p {
        None
    } else {
        match find_char(w, '&', p.len() as int) {
            None => None,
            Some(x) => {
                let frags = split_plus(w.subrange(p.len() as int, x));
                if w.len() < x + a.len() || w.subrange(x, x + a.len()) != a {
                    None
                } else {
                    match find_char(w, '&', x + a.len()) {
                        None => None,
                        Some(y) => {
                            let d1 = w.subrange(x + a.len(), y);
                            if d1.len() == 0 || !all_digits(d1) {
                                None
                            } else if w.len() < y + b.len() || w.subrange(y, y + b.len()) != b {
                                None
                            } else {
                                let d2 = w.subrange(y + b.len(), w.len() as int);
                                if d2.len() == 0 || !all_digits(d2) {
                                    None
                                } else {
                                    Some((frags, dec_value(d1), dec_value(d2)))
                                }
                            }
                        },
                    }
                }
            },
        }
    }
}

proof fn lemma_join_front(frags: Seq<Seq<char>>)
    requires
        frags.len() >= 2,
    ensures
        join_plus(frags) == frags[0] + seq!['+'] + join_plus(frags.drop_first()),
    decreases frags.len(),
{
    let dl = frags.drop_last();
    let df = frags.drop_first();
    if frags.len() == 2 {
        assert(dl.len() == 1);
        assert(dl[0] == frags[0]);
        assert(df.len() == 1);
        assert(df[0] == frags[1]);
        assert(join_plus(frags) == join_plus(dl) + seq!['+'] + frags.last());
        assert(join_plus(dl) == frags[0]);
        assert(join_plus(df) == frags[1]);
        assert(frags.last() == frags[1]);
    } else {
        lemma_join_front(dl);
        assert(dl.drop_first() =~= df.drop_last());
        assert(df.len() >= 2);
        assert(join_plus(df) == join_plus(df.drop_last()) + seq!['+'] + df.last());
        assert(df.last() == frags.last());
        assert(dl[0] == frags[0]);
        assert(join_plus(frags) == join_plus(dl) + seq!['+'] + frags.last());
        assert(join_plus(dl) == frags[0] + seq!['+'] + join_plus(dl.drop_first()));
        assert((frags[0] + seq!['+'] + join_plus(dl.drop_first())) + seq!['+'] + frags.last()
            =~= frags[0] + seq!['+'] + (join_plus(dl.drop_first()) + seq!['+'] + frags.last()));
    }
}

proof fn lemma_join_no_char(frags: Seq<Seq<char>>, c: char)
    requires
        c != '+',
        forall|k: int| 0 <= k < frags.len() ==> char_free(#[trigger] frags[k], c),
    ensures
        char_free(join_plus(frags), c),
    decreases frags.len(),
{
    if frags.len() <= 1 {
    } else {
        let dl = frags.drop_last();
        assert(forall|k: int| 0 <= k < dl.len() ==> dl[k] == frags[k]);
        lemma_join_no_char(dl, c);
        assert(char_free(frags.last(), c));
        let j = join_plus(dl) + seq!['+'] + frags.last();
        assert forall|k: int| 0 <= k < j.len() implies j[k] != c by {
            if k < join_plus(dl).len() {
                assert(j[k] == join_plus(dl)[k]);
            } else if k == join_plus(dl).len() {
                assert(j[k] == '+');
            } else {
                assert(j[k] == frags.last()[k - join_plus(dl).len() - 1]);
            }
        }
    }
}

proof fn lemma_split_join(frags: Seq<Seq<char>>)
    requires
        frags.len() >= 1,
        forall|k: int| 0 <= k < frags.len() ==> frag_ok(#[trigger] frags[k]),
    ensures
        split_plus(join_plus(frags)) == frags,
    decreases frags.len(),
{
    let j = join_plus(frags);
    if frags.len() == 1 {
        assert(j == frags[0]);
        assert(frag_ok(frags[0]));
        lemma_find_char_none(j, '+', 0);
        assert(split_plus(j) == seq![j]);
        assert(seq![j] =~= frags);
    } else {
        lemma_join_front(frags);
        let f0 = frags[0];
        let jr = join_plus(frags.drop_first());
        assert(j == f0 + seq!['+'] + jr);
        assert(j[f0.len() as int] == '+');
        assert(frag_ok(f0));
        assert forall|k: int| 0 <= k < f0.len() implies j[k] != '+' by {
            assert(j[k] == f0[k]);
        }
        lemma_find_char_at(j, '+', 0, f0.len() as int);
        assert(j.subrange(0, f0.len() as int) =~= f0);
        assert(j.subrange(f0.len() as int + 1, j.len() as int) =~= jr);
        assert(forall|k: int| 0 <= k < frags.drop_first().len() ==> frags.drop_first()[k]
            == frags[k + 1]);
        lemma_split_join(frags.drop_first());
        assert(split_plus(j) == seq![f0] + frags.drop_first());
        assert(seq![f0] + frags.drop_first() =~= frags);
    }
}

/// Rendering is reversible: for fragments that are non-empty and free
/// of the separator characters, splitting the rendered query string on
/// the known separators recovers the fragments, the start offset and
/// the maximum result count exactly.
pub proof fn lemma_render_round_trip(q: QueryModel)
    requires
        forall|k: int| 0 <= k < q.fragments.len() ==> frag_ok(#[trigger] q.fragments[k]),
    ensures
        unrender(render(q)) == Some((q.fragments, q.start, q.max_results)),
{
    let p = "search_query="@;
    let a = "&start="@;
    let b = "&max_results="@;
    reveal_strlit("search_query=");
    reveal_strlit("&start=");
    reveal_strlit("&max_results=");
    let jj = join_plus(q.fragments);
    let d1 = dec_str(q.start);
    let d2 = dec_str(q.max_results);
    let w = render(q);
    assert(w == p + jj + a + d1 + b + d2);
    let lp = p.len() as int;
    let lj = jj.len() as int;
    let la = a.len() as int;
    let l1 = d1.len() as int;
    let lb = b.len() as int;
    let l2 = d2.len() as int;
    lemma_dec_str_digits(q.start);
    lemma_dec_str_digits(q.max_results);
    lemma_dec_round_trip(q.start);
    lemma_dec_round_trip(q.max_results);
    lemma_join_no_char(q.fragments, '&');
    assert(w.len() == lp + lj + la + l1 + lb + l2);
    assert(w.subrange(0, lp) =~= p);
    // the first separator after the prefix is the one before `start`
    let x = lp + lj;
    assert(a[0] == '&');
    assert(w[x] == '&');
    assert forall|k: int| lp <= k < x implies w[k] != '&' by {
        assert(w[k] == jj[k - lp]);
    }
    lemma_find_char_at(w, '&', lp, x);
    assert(w.subrange(lp, x) =~= jj);
    assert(w.subrange(x, x + la) =~= a);
    // the next separator is the one before `max_results`
    let y = x + la + l1;
    assert(b[0] == '&');
    assert(w[y] == '&');
    assert forall|k: int| x + la <= k < y implies w[k] != '&' by {
        assert(w[k] == d1[k - (x + la)]);
        assert(is_digit(d1[k - (x + la)]));
    }
    lemma_find_char_at(w, '&', x + la, y);
    assert(w.subrange(x + la, y) =~= d1);
    assert(all_digits(d1));
    assert(w.subrange(y, y + lb) =~= b);
    assert(w.subrange(y + lb, w.len() as int) =~= d2);
    assert(all_digits(d2));
    // the fragments come back from the join
    if q.fragments.len() == 0 {
        assert(jj =~= Seq::<char>::empty());
        assert(split_plus(jj) == Seq::<Seq<char>>::empty());
        assert(split_plus(jj) =~= q.fragments);
    } else {
        lemma_split_join(q.fragments);
    }
}

} // verus!
