//! The feed-merging engine: turns the raw entries of a Letterboxd RSS feed
//! into a deduplicated, date-sorted, size-bounded list of movies.
//!
//! The RSS document itself is parsed by the `rss` crate behind trusted
//! wrappers; everything the engine decides — which entries are kept, how
//! repeated sightings of one film are merged, and how the result is ordered
//! and truncated — is verified here over plain character sequences.

use vstd::prelude::*;
use vstd::string::StringExecFns;
use crate::errors::FetchError;
use crate::text::clone_opt_string;
use crate::text::lex_lt;
use crate::text::str_contains_char;
use crate::text::str_lt;

verus! {

/// How many movies a merged feed shows at most.
pub const NUMBER_OF_MOVIES_TO_SHOW: usize = 5;

/// The glyph Letterboxd puts in an entry title to mark a rating.
pub const RATING_MARKER: char = '\u{2605}';

/// One movie of the feed, with the Letterboxd extension fields the merge
/// policy reads.
#[derive(Debug, Clone)]
pub struct LetterboxdMovie {
    pub title: String,
    pub link: String,
    pub description: String,
    pub pub_date: Option<String>,
    pub film_title: Option<String>,
    pub rating: Option<String>,
    pub rewatch: Option<String>,
}

/// The mathematical shadow of a `LetterboxdMovie`: the same fields as
/// character sequences.
pub struct MovieView {
    pub title: Seq<char>,
    pub link: Seq<char>,
    pub description: Seq<char>,
    pub pub_date: Option<Seq<char>>,
    pub film_title: Option<Seq<char>>,
    pub rating: Option<Seq<char>>,
    pub rewatch: Option<Seq<char>>,
}

impl View for LetterboxdMovie {
    type V = MovieView;

    open spec fn view(&self) -> MovieView {
        MovieView {
            title: self.title@,
            link: self.link@,
            description: self.description@,
            pub_date: self.pub_date.deep_view(),
            film_title: self.film_title.deep_view(),
            rating: self.rating.deep_view(),
            rewatch: self.rewatch.deep_view(),
        }
    }
}

impl DeepView for LetterboxdMovie {
    type V = MovieView;

    open spec fn deep_view(&self) -> MovieView {
        self.view()
    }
}

/// The publication date string, parsed as an RFC 2822 date and read as Unix
/// seconds; `None` when it does not parse. The result is a function of the
/// characters alone.
pub uninterp spec fn rfc2822_secs(s: Seq<char>) -> Option<i64>;

/// Relies on chrono's `DateTime::parse_from_rfc2822`, with
/// `DateTime::timestamp` converting the parsed instant to Unix seconds.
#[verifier::external_body]
pub(crate) fn parse_rfc2822_secs(s: &str) -> (r: Option<i64>)
    ensures
        r == rfc2822_secs(s@),
{
    match chrono::DateTime::parse_from_rfc2822(s) {
        Ok(dt) => Some(dt.timestamp()),
        Err(_) => None,
    }
}

/// `a` names a strictly more recent moment than `b`: chronologically when
/// both parse as RFC 2822 dates, else lexically on the raw strings.
pub open spec fn date_newer(a: Seq<char>, b: Seq<char>) -> bool {
    match (rfc2822_secs(a), rfc2822_secs(b)) {
        (Some(x), Some(y)) => x > y,
        _ => lex_lt(b, a),
    }
}

fn date_newer_exec(a: &String, b: &String) -> (r: bool)
    ensures
        r == date_newer(a@, b@),
{
    let pa = parse_rfc2822_secs(a.as_str());
    let pb = parse_rfc2822_secs(b.as_str());
    match (pa, pb) {
        (Some(x), Some(y)) => x > y,
        _ => str_lt(b.as_str(), a.as_str()),
    }
}

/// `a` comes before `b` in the merged output: dated records first, the most
/// recent leading; records without a date after all dated ones.
pub open spec fn sorts_before(a: MovieView, b: MovieView) -> bool {
    match (a.pub_date, b.pub_date) {
        (Some(x), Some(y)) => date_newer(x, y),
        (Some(_), None) => true,
        _ => false,
    }
}

fn movie_sorts_before(a: &LetterboxdMovie, b: &LetterboxdMovie) -> (r: bool)
    ensures
        r == sorts_before(a@, b@),
{
    match (&a.pub_date, &b.pub_date) {
        (Some(x), Some(y)) => date_newer_exec(x, y),
        (Some(_), None) => true,
        _ => false,
    }
}

/// Any two date strings are ordered by the parse-with-fallback comparison:
/// one is strictly more recent, or they name the same parsed instant, or
/// (when the fallback applies) they are the same string. In particular two
/// unparsable date strings still compare deterministically.
pub proof fn lemma_date_order_total(a: Seq<char>, b: Seq<char>)
    ensures
        date_newer(a, b) || date_newer(b, a) || (match (rfc2822_secs(a), rfc2822_secs(b)) {
            (Some(x), Some(y)) => x == y,
            _ => a == b,
        }),
{
    match (rfc2822_secs(a), rfc2822_secs(b)) {
        (Some(x), Some(y)) => {
        },
        _ => {
            crate::text::lemma_lex_total(a, b);
        },
    }
}

/// First index of `s` holding the film `id`, or `-1` when none does.
pub open spec fn find_id(s: Seq<MovieView>, id: Seq<char>) -> int
    decreases s.len(),
{
    if s.len() == 0 {
        -1
    } else if s[0].film_title == Some(id) {
        0
    } else {
        let r = find_id(s.skip(1), id);
        if r == -1 {
            -1
        } else {
            r + 1
        }
    }
}

proof fn lemma_find_id_at(s: Seq<MovieView>, id: Seq<char>, i: int)
    requires
        0 <= i < s.len(),
        s[i].film_title == Some(id),
        forall|j: int| 0 <= j < i ==> s[j].film_title != Some(id),
    ensures
        find_id(s, id) == i,
    decreases i,
{
    if i > 0 {
        lemma_find_id_at(s.skip(1), id, i - 1);
    }
}

proof fn lemma_find_id_none(s: Seq<MovieView>, id: Seq<char>)
    requires
        forall|j: int| 0 <= j < s.len() ==> s[j].film_title != Some(id),
    ensures
        find_id(s, id) == -1,
    decreases s.len(),
{
    if s.len() > 0 {
        lemma_find_id_none(s.skip(1), id);
    }
}

/// `find_id` returns `-1` and no record matches, or the first matching index.
proof fn lemma_find_id_props(s: Seq<MovieView>, id: Seq<char>)
    ensures
        ({
            let f = find_id(s, id);
            if f == -1 {
                forall|j: int| 0 <= j < s.len() ==> s[j].film_title != Some(id)
            } else {
                &&& 0 <= f < s.len()
                &&& s[f].film_title == Some(id)
                &&& forall|j: int| 0 <= j < f ==> s[j].film_title != Some(id)
            }
        }),
    decreases s.len(),
{
    if s.len() > 0 && s[0].film_title != Some(id) {
        lemma_find_id_props(s.skip(1), id);
        let f1 = find_id(s.skip(1), id);
        if f1 == -1 {
            assert forall|j: int| 0 <= j < s.len() implies s[j].film_title != Some(id) by {
                if j > 0 {
                    assert(s.skip(1)[j - 1] == s[j]);
                }
            }
        } else {
            assert(s.skip(1)[f1] == s[f1 + 1]);
            assert forall|j: int| 0 <= j < f1 + 1 implies s[j].film_title != Some(id) by {
                if j > 0 {
                    assert(s.skip(1)[j - 1] == s[j]);
                }
            }
        }
    }
}

/// The record kept after a repeated sighting of one film: adopt a rating the
/// accumulated record lacks, adopt a title that carries the rating marker
/// when the accumulated one does not, and take the description and date of
/// the strictly more recent sighting when both sightings are dated.
pub open spec fn combine(acc: MovieView, new: MovieView) -> MovieView {
    let rating = if acc.rating is None && new.rating is Some {
        new.rating
    } else {
        acc.rating
    };
    let title = if !acc.title.contains(RATING_MARKER) && new.title.contains(RATING_MARKER) {
        new.title
    } else {
        acc.title
    };
    let newer = match (acc.pub_date, new.pub_date) {
        (Some(a), Some(n)) => date_newer(n, a),
        _ => false,
    };
    MovieView {
        title: title,
        link: acc.link,
        description: if newer {
            new.description
        } else {
            acc.description
        },
        pub_date: if newer {
            new.pub_date
        } else {
            acc.pub_date
        },
        film_title: acc.film_title,
        rating: rating,
        rewatch: acc.rewatch,
    }
}

/// Fold one raw entry into the accumulated records: entries without a film
/// title are dropped; a fresh film is appended; a repeated film is combined
/// with its accumulated record in place.
pub open spec fn merge_step(acc: Seq<MovieView>, m: MovieView) -> Seq<MovieView> {
    match m.film_title {
        None => acc,
        Some(id) => {
            let i = find_id(acc, id);
            if i >= 0 {
                acc.update(i, combine(acc[i], m))
            } else {
                acc.push(m)
            }
        },
    }
}

/// The accumulated records after folding a whole raw entry sequence, in
/// first-sighting order.
pub open spec fn merge_seq(s: Seq<MovieView>) -> Seq<MovieView>
    decreases s.len(),
{
    if s.len() == 0 {
        Seq::<MovieView>::empty()
    } else {
        merge_step(merge_seq(s.drop_last()), s.last())
    }
}

fn clone_movie(m: &LetterboxdMovie) -> (r: LetterboxdMovie)
    ensures
        r == *m,
{
    LetterboxdMovie {
        title: m.title.clone(),
        link: m.link.clone(),
        description: m.description.clone(),
        pub_date: clone_opt_string(&m.pub_date),
        film_title: clone_opt_string(&m.film_title),
        rating: clone_opt_string(&m.rating),
        rewatch: clone_opt_string(&m.rewatch),
    }
}

fn combine_movie(acc: &LetterboxdMovie, new: &LetterboxdMovie) -> (r: LetterboxdMovie)
    ensures
        r@ == combine(acc@, new@),
{
    let mut r = clone_movie(acc);
    if r.rating.is_none() && new.rating.is_some() {
        r.rating = clone_opt_string(&new.rating);
    }
    if !str_contains_char(r.title.as_str(), RATING_MARKER)
        && str_contains_char(new.title.as_str(), RATING_MARKER) {
        r.title = new.title.clone();
    }
    let newer = match (&r.pub_date, &new.pub_date) {
        (Some(a), Some(n)) => date_newer_exec(n, a),
        _ => false,
    };
    if newer {
        r.description = new.description.clone();
        r.pub_date = clone_opt_string(&new.pub_date);
    }
    r
}

/// First accumulated record holding the film `id`, if any.
fn find_movie_index(acc: &Vec<LetterboxdMovie>, id: &String) -> (r: Option<usize>)
    ensures
        match r {
            Some(j) => j < acc@.len() && find_id(acc.deep_view(), id@) == j,
            None => find_id(acc.deep_view(), id@) == -1,
        },
{
    let n = acc.len();
    let mut j: usize = 0;
    while j < n
        invariant
            n == acc@.len(),
            j <= n,
            forall|k: int| 0 <= k < j ==> acc.deep_view()[k].film_title != Some(id@),
        decreases n - j,
    {
        let hit = match &acc[j].film_title {
            Some(t) => *t == *id,
            None => false,
        };
        if hit {
            proof {
                assert(acc.deep_view()[j as int] == acc@[j as int].deep_view());
                lemma_find_id_at(acc.deep_view(), id@, j as int);
            }
            return Some(j);
        }
        j += 1;
    }
    proof {
        lemma_find_id_none(acc.deep_view(), id@);
    }
    None
}

/// Deduplicate raw feed entries by film title, in upstream order: one
/// accumulated record per film, combined as `combine` says, in the order
/// the films were first sighted. Entries without a film title are dropped.
pub fn merge_movies(raw: &Vec<LetterboxdMovie>) -> (out: Vec<LetterboxdMovie>)
    ensures
        out.deep_view() == merge_seq(raw.deep_view()),
{
    let ghost rdv = raw.deep_view();
    let mut acc: Vec<LetterboxdMovie> = Vec::new();
    let mut i: usize = 0;
    proof {
        assert(rdv.take(0) =~= Seq::<MovieView>::empty());
    }
    while i < raw.len()
        invariant
            i <= raw.len(),
            rdv == raw.deep_view(),
            acc.deep_view() == merge_seq(rdv.take(i as int)),
        decreases raw.len() - i,
    {
        let ghost pre = acc.deep_view();
        let m = &raw[i];
        proof {
            assert(rdv.take(i + 1).drop_last() =~= rdv.take(i as int));
            assert(rdv.take(i + 1).last() == m.deep_view());
        }
        match &m.film_title {
            None => {
            },
            Some(id) => {
                match find_movie_index(&acc, id) {
                    Some(j) => {
                        let combined = combine_movie(&acc[j], m);
                        acc.set(j, combined);
                        proof {
                            assert(acc.deep_view() =~= pre.update(
                                j as int,
                                combine(pre[j as int], m.deep_view()),
                            ));
                        }
                    },
                    None => {
                        acc.push(clone_movie(m));
                        proof {
                            assert(acc.deep_view() =~= pre.push(m.deep_view()));
                        }
                    },
                }
            },
        }
        proof {
            assert(acc.deep_view() == merge_step(pre, m.deep_view()));
        }
        i += 1;
    }
    proof {
        assert(rdv.take(raw.len() as int) =~= rdv);
    }
    acc
}

/// Where `m` goes in the already-placed records `s`: before the first record
/// it strictly precedes, after everything else. Inserting there keeps the
/// placement stable: a record never jumps over one it ties with.
pub open spec fn insert_pos(s: Seq<MovieView>, m: MovieView) -> int
    decreases s.len(),
{
    if s.len() == 0 {
        0
    } else if sorts_before(m, s[0]) {
        0
    } else {
        1 + insert_pos(s.skip(1), m)
    }
}

/// The records of `s` ordered by `sorts_before`, one insertion at a time.
pub open spec fn sort_by_date(s: Seq<MovieView>) -> Seq<MovieView>
    decreases s.len(),
{
    if s.len() == 0 {
        Seq::<MovieView>::empty()
    } else {
        let t = sort_by_date(s.drop_last());
        t.insert(insert_pos(t, s.last()), s.last())
    }
}

proof fn lemma_insert_pos_bounds(s: Seq<MovieView>, m: MovieView)
    ensures
        0 <= insert_pos(s, m) <= s.len(),
    decreases s.len(),
{
    if s.len() > 0 && !sorts_before(m, s[0]) {
        lemma_insert_pos_bounds(s.skip(1), m);
    }
}

proof fn lemma_insert_pos_at(s: Seq<MovieView>, m: MovieView, j: int)
    requires
        0 <= j <= s.len(),
        forall|k: int| 0 <= k < j ==> !sorts_before(m, s[k]),
        j < s.len() ==> sorts_before(m, s[j]),
    ensures
        insert_pos(s, m) == j,
    decreases j,
{
    if s.len() > 0 && j > 0 {
        assert forall|k: int| 0 <= k < j - 1 implies !sorts_before(m, s.skip(1)[k]) by {
            assert(s.skip(1)[k] == s[k + 1]);
        }
        if j - 1 < s.skip(1).len() {
            assert(s.skip(1)[j - 1] == s[j]);
        }
        lemma_insert_pos_at(s.skip(1), m, j - 1);
    }
}

/// First position of `out` whose record `m` strictly precedes.
fn find_insert_pos(out: &Vec<LetterboxdMovie>, m: &LetterboxdMovie) -> (r: usize)
    ensures
        r <= out@.len(),
        insert_pos(out.deep_view(), m.deep_view()) == r,
{
    let n = out.len();
    let mut j: usize = 0;
    while j < n
        invariant
            n == out@.len(),
            j <= n,
            forall|k: int| 0 <= k < j ==> !sorts_before(m.deep_view(), out.deep_view()[k]),
        decreases n - j,
    {
        if movie_sorts_before(m, &out[j]) {
            proof {
                assert(out.deep_view()[j as int] == out@[j as int].deep_view());
                lemma_insert_pos_at(out.deep_view(), m.deep_view(), j as int);
            }
            return j;
        }
        j += 1;
    }
    proof {
        lemma_insert_pos_at(out.deep_view(), m.deep_view(), n as int);
    }
    n
}

/// Stable insertion sort of the records by `sorts_before`.
fn sort_movies(v: &Vec<LetterboxdMovie>) -> (out: Vec<LetterboxdMovie>)
    ensures
        out.deep_view() == sort_by_date(v.deep_view()),
{
    let ghost vdv = v.deep_view();
    let mut out: Vec<LetterboxdMovie> = Vec::new();
    let mut i: usize = 0;
    proof {
        assert(vdv.take(0) =~= Seq::<MovieView>::empty());
    }
    while i < v.len()
        invariant
            i <= v.len(),
            vdv == v.deep_view(),
            out.deep_view() == sort_by_date(vdv.take(i as int)),
        decreases v.len() - i,
    {
        let ghost pre = out.deep_view();
        let m = &v[i];
        proof {
            assert(vdv.take(i + 1).drop_last() =~= vdv.take(i as int));
            assert(vdv.take(i + 1).last() == m.deep_view());
        }
        let j = find_insert_pos(&out, m);
        out.insert(j, clone_movie(m));
        proof {
            pre.insert_ensures(j as int, m.deep_view());
            assert(out.deep_view() =~= pre.insert(j as int, m.deep_view()));
        }
        i += 1;
    }
    proof {
        assert(vdv.take(v.len() as int) =~= vdv);
    }
    out
}

/// The merged feed: deduplicate by film title, order by publication date
/// (most recent first, undated records last), and keep at most
/// `NUMBER_OF_MOVIES_TO_SHOW` records.
pub open spec fn spec_merged_feed(s: Seq<MovieView>) -> Seq<MovieView> {
    let sorted = sort_by_date(merge_seq(s));
    if sorted.len() <= NUMBER_OF_MOVIES_TO_SHOW {
        sorted
    } else {
        sorted.take(NUMBER_OF_MOVIES_TO_SHOW as int)
    }
}

/// Some record of `s` is about the film `id`.
pub open spec fn has_film(s: Seq<MovieView>, id: Seq<char>) -> bool {
    exists|k: int| 0 <= k < s.len() && s[k].film_title == Some(id)
}

/// Within one merge pass at most one record is retained per film title, and
/// every retained record has one.
pub proof fn lemma_merge_deduplicates(s: Seq<MovieView>)
    ensures
        forall|k: int| 0 <= k < merge_seq(s).len() ==> merge_seq(s)[k].film_title is Some,
        forall|i: int, j: int|
            0 <= i < j < merge_seq(s).len()
                ==> merge_seq(s)[i].film_title != merge_seq(s)[j].film_title,
    decreases s.len(),
{
    if s.len() > 0 {
        lemma_merge_deduplicates(s.drop_last());
        let acc = merge_seq(s.drop_last());
        let m = s.last();
        match m.film_title {
            None => {
            },
            Some(id) => {
                lemma_find_id_props(acc, id);
                let f = find_id(acc, id);
                if f >= 0 {
                    let t = acc.update(f, combine(acc[f], m));
                    assert(t[f].film_title == acc[f].film_title);
                    assert(forall|k: int| 0 <= k < t.len() && k != f ==> t[k] == acc[k]);
                } else {
                }
            },
        }
    }
}

/// Merging neither invents nor loses film titles: the merged records are
/// about exactly the films the raw entries are about.
pub proof fn lemma_merge_films(s: Seq<MovieView>, id: Seq<char>)
    ensures
        has_film(merge_seq(s), id) <==> has_film(s, id),
    decreases s.len(),
{
    if s.len() > 0 {
        lemma_merge_films(s.drop_last(), id);
        let acc = merge_seq(s.drop_last());
        let m = s.last();
        let out = merge_seq(s);
        assert forall|k: int| 0 <= k < s.drop_last().len() && s.drop_last()[k].film_title == Some(
            id,
        ) implies s[k].film_title == Some(id) by {}
        if has_film(s.drop_last(), id) {
            assert(has_film(s, id));
        }
        match m.film_title {
            None => {
                if has_film(s, id) && !has_film(s.drop_last(), id) {
                    let k = choose|k: int| 0 <= k < s.len() && s[k].film_title == Some(id);
                    if k < s.len() - 1 {
                        assert(s.drop_last()[k].film_title == Some(id));
                    }
                    assert(false);
                }
            },
            Some(mid) => {
                lemma_find_id_props(acc, mid);
                let f = find_id(acc, mid);
                if f >= 0 {
                    let t = acc.update(f, combine(acc[f], m));
                    assert(t[f].film_title == acc[f].film_title);
                    assert forall|k: int| 0 <= k < t.len() implies t[k].film_title
                        == acc[k].film_title by {}
                    if has_film(acc, id) {
                        let k = choose|k: int| 0 <= k < acc.len() && acc[k].film_title == Some(id);
                        assert(t[k].film_title == Some(id));
                    }
                    if has_film(t, id) {
                        let k = choose|k: int| 0 <= k < t.len() && t[k].film_title == Some(id);
                        assert(acc[k].film_title == Some(id));
                    }
                    if has_film(s, id) && !has_film(s.drop_last(), id) {
                        let k = choose|k: int| 0 <= k < s.len() && s[k].film_title == Some(id);
                        if k < s.len() - 1 {
                            assert(s.drop_last()[k].film_title == Some(id));
                        }
                        assert(k == s.len() - 1);
                        assert(id == mid);
                        assert(t[f].film_title == Some(id));
                    }
                } else {
                    let t = acc.push(m);
                    if has_film(acc, id) {
                        let k = choose|k: int| 0 <= k < acc.len() && acc[k].film_title == Some(id);
                        assert(t[k].film_title == Some(id));
                    }
                    if has_film(t, id) && !has_film(acc, id) {
                        let k = choose|k: int| 0 <= k < t.len() && t[k].film_title == Some(id);
                        assert(k == t.len() - 1 || acc[k].film_title == Some(id));
                    }
                    if has_film(s, id) && !has_film(s.drop_last(), id) {
                        let k = choose|k: int| 0 <= k < s.len() && s[k].film_title == Some(id);
                        if k < s.len() - 1 {
                            assert(s.drop_last()[k].film_title == Some(id));
                        }
                        assert(k == s.len() - 1);
                        assert(t.last().film_title == Some(id));
                    }
                }
            },
        }
    }
}

/// Raw entries about pairwise distinct films merge without loss: one record
/// per entry.
pub proof fn lemma_merge_len_distinct(s: Seq<MovieView>)
    requires
        forall|k: int| 0 <= k < s.len() ==> s[k].film_title is Some,
        forall|i: int, j: int| 0 <= i < j < s.len() ==> s[i].film_title != s[j].film_title,
    ensures
        merge_seq(s).len() == s.len(),
    decreases s.len(),
{
    if s.len() > 0 {
        let d = s.drop_last();
        lemma_merge_len_distinct(d);
        let acc = merge_seq(d);
        let m = s.last();
        let id = m.film_title->0;
        if has_film(acc, id) {
            lemma_merge_films(d, id);
            let k = choose|k: int| 0 <= k < d.len() && d[k].film_title == Some(id);
            assert(s[k].film_title == m.film_title);
            assert(false);
        }
        lemma_find_id_none(acc, id);
    }
}

/// The record is dated: it has a publication date that parses as RFC 2822.
pub open spec fn dated(m: MovieView) -> bool {
    match m.pub_date {
        Some(d) => rfc2822_secs(d) is Some,
        None => false,
    }
}

/// The parsed publication date of a dated record, as Unix seconds.
pub open spec fn ts_of(m: MovieView) -> i64
    recommends
        dated(m),
{
    match m.pub_date {
        Some(d) => match rfc2822_secs(d) {
            Some(t) => t,
            None => 0,
        },
        None => 0,
    }
}

/// Every record of `s` is dated.
pub open spec fn all_dated(s: Seq<MovieView>) -> bool {
    forall|k: int| 0 <= k < s.len() ==> dated(#[trigger] s[k])
}

/// No record strictly precedes one placed before it: for dated records,
/// parsed dates never increase along the sequence.
pub open spec fn sorted_desc(t: Seq<MovieView>) -> bool {
    forall|i: int, j: int| 0 <= i <= j < t.len() ==> !sorts_before(#[trigger] t[j], #[trigger] t[i])
}

proof fn lemma_sorts_before_dated(a: MovieView, b: MovieView)
    requires
        dated(a),
        dated(b),
    ensures
        sorts_before(a, b) == (ts_of(a) > ts_of(b)),
{
}

/// Merging dated raw entries yields dated records.
pub proof fn lemma_merge_dated(s: Seq<MovieView>)
    requires
        all_dated(s),
    ensures
        all_dated(merge_seq(s)),
    decreases s.len(),
{
    if s.len() > 0 {
        let d = s.drop_last();
        assert(all_dated(d)) by {
            assert(forall|k: int| 0 <= k < d.len() ==> d[k] == s[k]);
        }
        lemma_merge_dated(d);
        let acc = merge_seq(d);
        let m = s.last();
        assert(dated(m));
        match m.film_title {
            None => {
            },
            Some(id) => {
                lemma_find_id_props(acc, id);
                let f = find_id(acc, id);
                if f >= 0 {
                    let c = combine(acc[f], m);
                    assert(c.pub_date == acc[f].pub_date || c.pub_date == m.pub_date);
                    assert(dated(c));
                    let t = acc.update(f, c);
                    assert(forall|k: int| 0 <= k < t.len() && k != f ==> t[k] == acc[k]);
                }
            },
        }
    }
}

proof fn lemma_insert_pos_props(s: Seq<MovieView>, m: MovieView)
    ensures
        0 <= insert_pos(s, m) <= s.len(),
        forall|k: int| 0 <= k < insert_pos(s, m) ==> !sorts_before(m, #[trigger] s[k]),
        insert_pos(s, m) < s.len() ==> sorts_before(m, s[insert_pos(s, m)]),
    decreases s.len(),
{
    if s.len() > 0 && !sorts_before(m, s[0]) {
        lemma_insert_pos_props(s.skip(1), m);
        let p1 = insert_pos(s.skip(1), m);
        assert forall|k: int| 0 <= k < p1 + 1 implies !sorts_before(m, #[trigger] s[k]) by {
            if k > 0 {
                assert(s.skip(1)[k - 1] == s[k]);
            }
        }
        if p1 < s.skip(1).len() {
            assert(s.skip(1)[p1] == s[p1 + 1]);
        }
    }
}

/// Sorting dated records orders them by parsed date, most recent first.
pub proof fn lemma_sort_sorted(s: Seq<MovieView>)
    requires
        all_dated(s),
    ensures
        all_dated(sort_by_date(s)),
        sorted_desc(sort_by_date(s)),
    decreases s.len(),
{
    if s.len() > 0 {
        let d = s.drop_last();
        assert(all_dated(d)) by {
            assert(forall|k: int| 0 <= k < d.len() ==> d[k] == s[k]);
        }
        lemma_sort_sorted(d);
        let t = sort_by_date(d);
        let m = s.last();
        assert(dated(m));
        lemma_insert_pos_props(t, m);
        let p = insert_pos(t, m);
        let u = t.insert(p, m);
        t.insert_ensures(p, m);
        assert forall|k: int| 0 <= k < u.len() implies dated(#[trigger] u[k]) by {
            if k < p {
                assert(u[k] == t[k]);
            } else if k == p {
                assert(u[k] == m);
            } else {
                assert(u[k] == t[k - 1]);
            }
        }
        assert forall|i: int, j: int| 0 <= i <= j < u.len() implies !sorts_before(
            #[trigger] u[j],
            #[trigger] u[i],
        ) by {
            let a = u[i];
            let b = u[j];
            lemma_sorts_before_dated(b, a);
            if i < p {
                lemma_sorts_before_dated(m, t[i]);
            }
            if j > p {
                lemma_sorts_before_dated(t[j - 1], m);
            }
            if i == p && j > p {
                // m strictly precedes t[p] when it exists, and t is sorted,
                // so everything at or after p stays at or below m's date
                if p < t.len() {
                    lemma_sorts_before_dated(m, t[p]);
                    lemma_sorts_before_dated(t[j - 1], t[p]);
                }
            }
        }
    }
}

proof fn lemma_insert_to_multiset(s: Seq<MovieView>, i: int, a: MovieView)
    requires
        0 <= i <= s.len(),
    ensures
        s.insert(i, a).to_multiset() =~= s.to_multiset().insert(a),
{
    let t = s.insert(i, a);
    s.insert_ensures(i, a);
    t.to_multiset_ensures();
    s.to_multiset_ensures();
    assert(t.remove(i) =~= s);
    assert(t.to_multiset().remove(a) =~= s.to_multiset());
    assert(t[i] == a);
    assert(t.contains(a));
    assert(t.to_multiset().count(a) > 0);
    assert forall|x: MovieView| t.to_multiset().count(x) == s.to_multiset().insert(a).count(
        x,
    ) by {
        if x == a {
            assert(t.to_multiset().remove(a).count(a) == t.to_multiset().count(a) - 1);
        } else {
            assert(t.to_multiset().remove(a).count(x) == t.to_multiset().count(x));
        }
    }
}

/// Sorting keeps exactly the records it was given.
pub proof fn lemma_sort_multiset(s: Seq<MovieView>)
    ensures
        sort_by_date(s).to_multiset() =~= s.to_multiset(),
        sort_by_date(s).len() == s.len(),
    decreases s.len(),
{
    if s.len() == 0 {
        assert(s =~= Seq::<MovieView>::empty());
        assert(sort_by_date(s) == s);
    } else {
        let d = s.drop_last();
        lemma_sort_multiset(d);
        let t = sort_by_date(d);
        let m = s.last();
        lemma_insert_pos_bounds(t, m);
        let p = insert_pos(t, m);
        t.insert_ensures(p, m);
        lemma_insert_to_multiset(t, p, m);
        d.to_multiset_ensures();
        assert(d.push(m) =~= s);
        assert(d.push(m).to_multiset() =~= d.to_multiset().insert(m));
        assert(sort_by_date(s) == t.insert(p, m));
        assert(t.insert(p, m).to_multiset() =~= t.to_multiset().insert(m));
        assert(t.to_multiset().insert(m) =~= d.to_multiset().insert(m));
        assert(s.to_multiset() == d.push(m).to_multiset());
    }
}

/// The merged feed keeps at most `NUMBER_OF_MOVIES_TO_SHOW` records, each
/// about a film, and no two about the same film.
pub proof fn lemma_merged_feed_props(s: Seq<MovieView>)
    ensures
        spec_merged_feed(s).len() == if merge_seq(s).len() <= NUMBER_OF_MOVIES_TO_SHOW {
            merge_seq(s).len()
        } else {
            NUMBER_OF_MOVIES_TO_SHOW as nat
        },
        forall|k: int|
            0 <= k < spec_merged_feed(s).len() ==> spec_merged_feed(s)[k].film_title is Some,
        forall|i: int, j: int|
            0 <= i < j < spec_merged_feed(s).len()
                ==> spec_merged_feed(s)[i].film_title != spec_merged_feed(s)[j].film_title,
{
    let mrg = merge_seq(s);
    let srt = sort_by_date(mrg);
    let out = spec_merged_feed(s);
    lemma_merge_deduplicates(s);
    lemma_sort_multiset(mrg);
    mrg.to_multiset_ensures();
    srt.to_multiset_ensures();
    assert(mrg.no_duplicates()) by {
        assert forall|i: int, j: int|
            0 <= i < mrg.len() && 0 <= j < mrg.len() && i != j implies mrg[i] != mrg[j] by {
            if mrg[i] == mrg[j] {
                assert(mrg[i].film_title == mrg[j].film_title);
            }
        }
    }
    mrg.lemma_multiset_has_no_duplicates();
    srt.lemma_multiset_has_no_duplicates_conv();
    assert(srt.to_multiset() == mrg.to_multiset());
    assert forall|k: int| 0 <= k < srt.len() implies #[trigger] srt[k].film_title is Some by {
        assert(srt.contains(srt[k]));
        assert(srt.to_multiset().count(srt[k]) > 0);
        assert(mrg.to_multiset().count(srt[k]) > 0);
        assert(mrg.contains(srt[k]));
        let a = choose|a: int| 0 <= a < mrg.len() && mrg[a] == srt[k];
        assert(mrg[a].film_title is Some);
    }
    assert forall|i: int, j: int|
        0 <= i < j < srt.len() implies srt[i].film_title != srt[j].film_title by {
        if srt[i].film_title == srt[j].film_title {
            assert(srt[i] != srt[j]);
            assert(srt.contains(srt[i]));
            assert(srt.contains(srt[j]));
            assert(srt.to_multiset().count(srt[i]) > 0);
            assert(srt.to_multiset().count(srt[j]) > 0);
            assert(mrg.to_multiset().count(srt[i]) > 0);
            assert(mrg.to_multiset().count(srt[j]) > 0);
            assert(mrg.contains(srt[i]));
            assert(mrg.contains(srt[j]));
            let a = choose|a: int| 0 <= a < mrg.len() && mrg[a] == srt[i];
            let b = choose|b: int| 0 <= b < mrg.len() && mrg[b] == srt[j];
            assert(a != b);
            assert(mrg[a].film_title != mrg[b].film_title);
        }
    }
    assert(forall|k: int| 0 <= k < out.len() ==> out[k] == srt[k]);
}

/// When every raw entry has a date that parses, the merged feed is ordered
/// by parsed date, most recent first.
pub proof fn lemma_merged_feed_sorted(s: Seq<MovieView>)
    requires
        all_dated(s),
    ensures
        all_dated(spec_merged_feed(s)),
        sorted_desc(spec_merged_feed(s)),
{
    lemma_merge_dated(s);
    lemma_sort_sorted(merge_seq(s));
    let srt = sort_by_date(merge_seq(s));
    let out = spec_merged_feed(s);
    assert(forall|k: int| 0 <= k < out.len() ==> out[k] == srt[k]);
}

/// Turn raw feed entries into the merged, sorted, size-bounded movie list.
pub fn merge_feed_entries(raw: &Vec<LetterboxdMovie>) -> (out: Vec<LetterboxdMovie>)
    ensures
        out.deep_view() == spec_merged_feed(raw.deep_view()),
{
    let merged = merge_movies(raw);
    let mut sorted = sort_movies(&merged);
    let ghost whole = sorted.deep_view();
    sorted.truncate(NUMBER_OF_MOVIES_TO_SHOW);
    proof {
        if whole.len() > NUMBER_OF_MOVIES_TO_SHOW {
            assert(sorted.deep_view() =~= whole.take(NUMBER_OF_MOVIES_TO_SHOW as int));
        } else {
            assert(sorted.deep_view() =~= whole);
        }
    }
    sorted
}

#[verifier::external_type_specification]
#[verifier::external_body]
pub struct ExItem(rss::Item);

#[verifier::external_type_specification]
#[verifier::external_body]
pub struct ExRssError(rss::Error);

/// The fields read out of one RSS item: title, link, description and
/// publication date, and the Letterboxd extension values for the film
/// title, the member rating and the rewatch flag.
#[derive(Debug)]
pub struct RawItemFields {
    pub title: Option<String>,
    pub link: Option<String>,
    pub description: Option<String>,
    pub pub_date: Option<String>,
    pub film_title: Option<String>,
    pub rating: Option<String>,
    pub rewatch: Option<String>,
}

/// The mathematical shadow of a `RawItemFields`.
pub struct RawItemFieldsView {
    pub title: Option<Seq<char>>,
    pub link: Option<Seq<char>>,
    pub description: Option<Seq<char>>,
    pub pub_date: Option<Seq<char>>,
    pub film_title: Option<Seq<char>>,
    pub rating: Option<Seq<char>>,
    pub rewatch: Option<Seq<char>>,
}

impl View for RawItemFields {
    type V = RawItemFieldsView;

    open spec fn view(&self) -> RawItemFieldsView {
        RawItemFieldsView {
            title: self.title.deep_view(),
            link: self.link.deep_view(),
            description: self.description.deep_view(),
            pub_date: self.pub_date.deep_view(),
            film_title: self.film_title.deep_view(),
            rating: self.rating.deep_view(),
            rewatch: self.rewatch.deep_view(),
        }
    }
}

impl DeepView for RawItemFields {
    type V = RawItemFieldsView;

    open spec fn deep_view(&self) -> RawItemFieldsView {
        self.view()
    }
}

/// Whether the bytes form an RSS document the parser accepts; the rss
/// crate's `read_from` succeeds or fails on the bytes alone.
pub uninterp spec fn rss_parses(b: Seq<u8>) -> bool;

/// The fields of each item of the RSS document, in document order; the
/// whole extraction is a function of the bytes alone.
pub uninterp spec fn feed_fields_of(b: Seq<u8>) -> Seq<RawItemFieldsView>;

/// Relies on `rss::Item::extensions` and the maps beneath it: the first
/// extension element filed under `namespace` and `key`, read as its text
/// value. The extension-lookup leg of `read_feed_fields`.
#[verifier::external_body]
fn extract_extension_value(item: &rss::Item, namespace: &str, key: &str) -> Option<String> {
    item.extensions().get(namespace)
        .and_then(|ext| ext.get(key))
        .and_then(|values| values.first())
        .and_then(|value| value.value().map(|s| s.to_string()))
}

/// Relies on `rss::Channel::read_from` and, per item, on `rss::Item`'s
/// `title`, `link`, `description` and `pub_date` accessors and its
/// `extensions` map (through `extract_extension_value`): the fields of
/// every item of the document, in document order.
#[verifier::external_body]
fn read_feed_fields(bytes: &[u8]) -> (r: Result<Vec<RawItemFields>, rss::Error>)
    ensures
        r is Ok == rss_parses(bytes@),
        r matches Ok(fields) ==> fields.deep_view() == feed_fields_of(bytes@),
{
    let channel = match rss::Channel::read_from(bytes) {
        Ok(c) => c,
        Err(e) => return Err(e),
    };
    Ok(channel.items().iter().map(|item| RawItemFields {
        title: item.title().map(|s| s.to_string()),
        link: item.link().map(|s| s.to_string()),
        description: item.description().map(|s| s.to_string()),
        pub_date: item.pub_date().map(|s| s.to_string()),
        film_title: extract_extension_value(item, "letterboxd", "filmTitle"),
        rating: extract_extension_value(item, "letterboxd", "memberRating"),
        rewatch: extract_extension_value(item, "letterboxd", "rewatch"),
    }).collect())
}

/// Relies on `Display` for `rss::Error` to render a parse failure as text.
#[verifier::external_body]
fn rss_error_text(e: &rss::Error) -> String {
    format!("{}", e)
}

/// A present field's text, or the empty string.
pub open spec fn field_or_empty(o: Option<Seq<char>>) -> Seq<char> {
    match o {
        Some(s) => s,
        None => Seq::<char>::empty(),
    }
}

/// The movie record read off one item's fields: missing strings default to
/// empty, the optional fields are kept as they are.
pub open spec fn movie_of_fields(f: RawItemFieldsView) -> MovieView {
    MovieView {
        title: field_or_empty(f.title),
        link: field_or_empty(f.link),
        description: field_or_empty(f.description),
        pub_date: f.pub_date,
        film_title: f.film_title,
        rating: f.rating,
        rewatch: f.rewatch,
    }
}

/// The movie records of an item sequence, in order: items without a film
/// title are dropped.
pub open spec fn movies_of(fields: Seq<RawItemFieldsView>) -> Seq<MovieView>
    decreases fields.len(),
{
    if fields.len() == 0 {
        Seq::<MovieView>::empty()
    } else {
        let rest = movies_of(fields.drop_last());
        if fields.last().film_title is Some {
            rest.push(movie_of_fields(fields.last()))
        } else {
            rest
        }
    }
}

/// Project one item's fields onto a movie record; an item without a film
/// title yields nothing.
fn movie_of_item_fields(f: &RawItemFields) -> (r: Option<LetterboxdMovie>)
    ensures
        r is Some == f@.film_title is Some,
        r matches Some(m) ==> m@ == movie_of_fields(f@),
{
    match &f.film_title {
        None => None,
        Some(ft) => Some(
            LetterboxdMovie {
                title: match &f.title {
                    Some(t) => t.clone(),
                    None => String::new(),
                },
                link: match &f.link {
                    Some(l) => l.clone(),
                    None => String::new(),
                },
                description: match &f.description {
                    Some(d) => d.clone(),
                    None => String::new(),
                },
                pub_date: clone_opt_string(&f.pub_date),
                film_title: Some(ft.clone()),
                rating: clone_opt_string(&f.rating),
                rewatch: clone_opt_string(&f.rewatch),
            },
        ),
    }
}

/// Merge the items of a parsed feed: read each item's fields, drop items
/// without a film title, then deduplicate by film, sort by date and
/// truncate.
pub fn process_letterboxd_items(items: &Vec<RawItemFields>) -> (out: Vec<LetterboxdMovie>)
    ensures
        out.deep_view() == spec_merged_feed(movies_of(items.deep_view())),
        out@.len() <= NUMBER_OF_MOVIES_TO_SHOW,
        forall|k: int|
            0 <= k < out.deep_view().len() ==> out.deep_view()[k].film_title is Some,
        forall|i: int, j: int|
            0 <= i < j < out.deep_view().len()
                ==> out.deep_view()[i].film_title != out.deep_view()[j].film_title,
{
    let ghost idv = items.deep_view();
    let mut raw: Vec<LetterboxdMovie> = Vec::new();
    let mut i: usize = 0;
    proof {
        assert(idv.take(0) =~= Seq::<RawItemFieldsView>::empty());
        assert(raw.deep_view() =~= Seq::<MovieView>::empty());
    }
    while i < items.len()
        invariant
            i <= items@.len(),
            idv == items.deep_view(),
            raw.deep_view() == movies_of(idv.take(i as int)),
        decreases items@.len() - i,
    {
        let ghost pre = raw.deep_view();
        let f = &items[i];
        proof {
            assert(idv.take(i + 1).drop_last() =~= idv.take(i as int));
            assert(idv.take(i + 1).last() == f.deep_view());
        }
        match movie_of_item_fields(f) {
            Some(m) => {
                raw.push(m);
                proof {
                    assert(raw.deep_view() =~= pre.push(movie_of_fields(f.deep_view())));
                }
            },
            None => {
            },
        }
        i += 1;
    }
    proof {
        assert(idv.take(items@.len() as int) =~= idv);
    }
    let out = merge_feed_entries(&raw);
    proof {
        lemma_merged_feed_props(raw.deep_view());
    }
    out
}

/// Parse bytes as an RSS document and merge its items: the compute path of
/// a feed fetch, between the network read and the cache store. Success is
/// owed exactly when the bytes parse, and the movies returned are exactly
/// the merged feed of the fields read out of the bytes.
pub fn process_feed_bytes(bytes: &[u8]) -> (r: Result<Vec<LetterboxdMovie>, FetchError>)
    ensures
        r is Ok == rss_parses(bytes@),
        r matches Ok(out) ==> out.deep_view() == spec_merged_feed(
            movies_of(feed_fields_of(bytes@)),
        ),
        r matches Ok(out) ==> out@.len() <= NUMBER_OF_MOVIES_TO_SHOW,
        r matches Ok(out) ==> forall|k: int|
            0 <= k < out.deep_view().len() ==> out.deep_view()[k].film_title is Some,
        r matches Ok(out) ==> forall|i: int, j: int|
            0 <= i < j < out.deep_view().len()
                ==> out.deep_view()[i].film_title != out.deep_view()[j].film_title,
        r matches Err(e) ==> e is Parse,
{
    match read_feed_fields(bytes) {
        Ok(fields) => Ok(process_letterboxd_items(&fields)),
        Err(e) => {
            let text = rss_error_text(&e);
            let msg = String::from_str("Failed to parse RSS feed: ").concat(text.as_str());
            Err(FetchError::Parse(msg))
        },
    }
}

} // verus!
