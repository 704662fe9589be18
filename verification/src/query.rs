use vstd::prelude::*;
use crate::records::{Movie, MovieView};
use vstd::string::StringExecFns;

verus! {

/// A record's title, or the placeholder printed when it has none.
pub open spec fn title_or_unknown(m: MovieView) -> Seq<char> {
    match m.title {
        Some(t) => t,
        None => "unknown"@,
    }
}

/// A record's year, or the placeholder printed when it has none.
pub open spec fn year_or_unknown(m: MovieView) -> Seq<char> {
    match m.year {
        Some(y) => y,
        None => "unknown"@,
    }
}

/// The titles reported for a year query: one entry per record whose year
/// equals the query exactly, in catalog order; a matching record without a
/// title reports the placeholder.
pub open spec fn titles_for_year(ms: Seq<MovieView>, year: Seq<char>) -> Seq<Seq<char>>
    decreases ms.len(),
{
    if ms.len() == 0 {
        Seq::empty()
    } else {
        let pre = titles_for_year(ms.drop_last(), year);
        if ms.last().year == Some(year) {
            pre.push(title_or_unknown(ms.last()))
        } else {
            pre
        }
    }
}

/// The years reported for a title query: one entry per record whose title
/// equals the query exactly, in catalog order; a matching record without a
/// year reports the placeholder.
pub open spec fn years_for_title(ms: Seq<MovieView>, title: Seq<char>) -> Seq<Seq<char>>
    decreases ms.len(),
{
    if ms.len() == 0 {
        Seq::empty()
    } else {
        let pre = years_for_title(ms.drop_last(), title);
        if ms.last().title == Some(title) {
            pre.push(year_or_unknown(ms.last()))
        } else {
            pre
        }
    }
}

/// Year query: scans the catalog in order and returns the title of every
/// record whose year equals the query string exactly (string comparison, no
/// numeric coercion); a matching record without a title yields the
/// placeholder instead of failing.
pub fn find_titles_for_year(movies: &Vec<Movie>, year: &String) -> (titles: Vec<String>)
    ensures
        titles.deep_view() == titles_for_year(movies.deep_view(), year@),
{
    let mut titles: Vec<String> = Vec::new();
    let n = movies.len();
    for i in 0..n
        invariant
            n == movies.len(),
            titles.deep_view() == titles_for_year(movies.deep_view().take(i as int), year@),
    {
        let ghost mv = movies.deep_view();
        let ghost pre = titles.deep_view();
        proof {
            assert(mv.take(i + 1).drop_last() =~= mv.take(i as int));
            assert(mv.take(i + 1).last() == mv[i as int]);
        }
        let is_match = match &movies[i].year {
            Some(y) => *y == *year,
            None => false,
        };
        if is_match {
            let title = match &movies[i].title {
                Some(t) => t.clone(),
                None => String::from_str("unknown"),
            };
            titles.push(title);
            proof {
                assert(titles.deep_view() =~= pre.push(title_or_unknown(mv[i as int])));
            }
        }
    }
    assert(movies.deep_view().take(n as int) =~= movies.deep_view());
    titles
}

/// Title query: scans the catalog in order and returns the year of every
/// record whose title equals the query string exactly; a matching record
/// without a year yields the placeholder instead of failing.
pub fn find_years_for_title(movies: &Vec<Movie>, title: &String) -> (years: Vec<String>)
    ensures
        years.deep_view() == years_for_title(movies.deep_view(), title@),
{
    let mut years: Vec<String> = Vec::new();
    let n = movies.len();
    for i in 0..n
        invariant
            n == movies.len(),
            years.deep_view() == years_for_title(movies.deep_view().take(i as int), title@),
    {
        let ghost mv = movies.deep_view();
        let ghost pre = years.deep_view();
        proof {
            assert(mv.take(i + 1).drop_last() =~= mv.take(i as int));
            assert(mv.take(i + 1).last() == mv[i as int]);
        }
        let is_match = match &movies[i].title {
            Some(t) => *t == *title,
            None => false,
        };
        if is_match {
            let year = match &movies[i].year {
                Some(y) => y.clone(),
                None => String::from_str("unknown"),
            };
            years.push(year);
            proof {
                assert(years.deep_view() =~= pre.push(year_or_unknown(mv[i as int])));
            }
        }
    }
    assert(movies.deep_view().take(n as int) =~= movies.deep_view());
    years
}

} // verus!
