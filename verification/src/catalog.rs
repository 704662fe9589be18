use vstd::prelude::*;
use crate::records::{migrate_old_movie, migrated, Movie, MovieView, OldMovie, OldMovieView};
use vstd::string::StringExecFns;

verus! {

/// One year bucket of the organized layout: the bucket's own folder name
/// (the year) and the names of the movie folders directly inside it.
pub struct YearBucket {
    pub year: String,
    pub movies: Vec<String>,
}

/// Mathematical model of a `YearBucket`.
#[verifier::ext_equal]
pub ghost struct YearBucketView {
    pub year: Seq<char>,
    pub movies: Seq<Seq<char>>,
}

impl View for YearBucket {
    type V = YearBucketView;

    open spec fn view(&self) -> YearBucketView {
        YearBucketView { year: self.year@, movies: self.movies.deep_view() }
    }
}

impl DeepView for YearBucket {
    type V = YearBucketView;

    open spec fn deep_view(&self) -> YearBucketView {
        self.view()
    }
}

/// The record that a flat walk yields for one folder: only the folder name
/// is known, every other field is unset.
pub open spec fn flat_record(name: Seq<char>) -> MovieView {
    MovieView {
        foldername: Some(name),
        title: None,
        year: None,
        quality: None,
        tmdbid: None,
        imdbid: None,
        poster_path: None,
        backdrop_path: None,
        tagline: None,
        genres: Seq::empty(),
        cast: Seq::empty(),
    }
}

/// The record that an organized walk yields for one movie folder inside a
/// year bucket: folder name and year are known, everything else is unset.
pub open spec fn organized_record(year: Seq<char>, name: Seq<char>) -> MovieView {
    MovieView {
        foldername: Some(name),
        title: None,
        year: Some(year),
        quality: None,
        tmdbid: None,
        imdbid: None,
        poster_path: None,
        backdrop_path: None,
        tagline: None,
        genres: Seq::empty(),
        cast: Seq::empty(),
    }
}

/// The records of one whole year bucket, in the bucket's own order.
pub open spec fn bucket_records(b: YearBucketView) -> Seq<MovieView> {
    b.movies.map_values(|name: Seq<char>| organized_record(b.year, name))
}

/// The records of a whole organized layout: the buckets' record sequences,
/// concatenated in bucket order.
pub open spec fn organized_records(bs: Seq<YearBucketView>) -> Seq<MovieView>
    decreases bs.len(),
{
    if bs.len() == 0 {
        Seq::empty()
    } else {
        organized_records(bs.drop_last()) + bucket_records(bs.last())
    }
}

/// The number of movie folders in an organized layout: the sum of the
/// bucket sizes.
pub open spec fn total_movies(bs: Seq<YearBucketView>) -> int
    decreases bs.len(),
{
    if bs.len() == 0 {
        0
    } else {
        total_movies(bs.drop_last()) + bs.last().movies.len()
    }
}

proof fn lemma_total_movies_nonneg(bs: Seq<YearBucketView>)
    ensures
        total_movies(bs) >= 0,
    decreases bs.len(),
{
    if bs.len() > 0 {
        lemma_total_movies_nonneg(bs.drop_last());
    }
}

proof fn lemma_total_movies_take_succ(bs: Seq<YearBucketView>, i: int)
    requires
        0 <= i < bs.len(),
    ensures
        total_movies(bs.take(i + 1)) == total_movies(bs.take(i)) + bs[i].movies.len(),
{
    assert(bs.take(i + 1).drop_last() =~= bs.take(i));
    assert(bs.take(i + 1).last() == bs[i]);
}

proof fn lemma_total_movies_take_le(bs: Seq<YearBucketView>, i: int)
    requires
        0 <= i <= bs.len(),
    ensures
        total_movies(bs.take(i)) <= total_movies(bs),
    decreases bs.len() - i,
{
    if i == bs.len() {
        assert(bs.take(i) =~= bs);
    } else {
        lemma_total_movies_take_succ(bs, i);
        lemma_total_movies_take_le(bs, i + 1);
    }
}

/// The record count of an organized layout equals the sum of its bucket
/// sizes: with Y buckets holding M0, ..., M(Y-1) movie folders each, the
/// organized build yields exactly M0 + ... + M(Y-1) records.
pub proof fn lemma_organized_records_len(bs: Seq<YearBucketView>)
    ensures
        organized_records(bs).len() == total_movies(bs),
    decreases bs.len(),
{
    if bs.len() > 0 {
        lemma_organized_records_len(bs.drop_last());
    }
}

/// The records of a whole flat layout: one per folder name, in order.
pub open spec fn flat_records(names: Seq<Seq<char>>) -> Seq<MovieView> {
    names.map_values(|name: Seq<char>| flat_record(name))
}

/// Flat build: one record per immediate child folder of the root, holding
/// that folder's name and nothing else, in the walk's order.
pub fn list_of_movies_unorganized(folders: &Vec<String>) -> (movies: Vec<Movie>)
    ensures
        movies.deep_view() == flat_records(folders.deep_view()),
{
    let mut movies: Vec<Movie> = Vec::new();
    let n = folders.len();
    for i in 0..n
        invariant
            n == folders.len(),
            movies.deep_view() == flat_records(folders.deep_view().take(i as int)),
    {
        let ghost fv = folders.deep_view();
        let ghost pre = movies.deep_view();
        let movie = Movie {
            foldername: Some(folders[i].clone()),
            title: None,
            year: None,
            quality: None,
            tmdbid: None,
            imdbid: None,
            poster_path: None,
            backdrop_path: None,
            tagline: None,
            genres: Vec::new(),
            cast: Vec::new(),
        };
        let ghost mv = movie.deep_view();
        movies.push(movie);
        proof {
            assert(fv.len() == folders@.len());
            assert(pre.len() == i);
            assert(movies.deep_view() =~~= pre.push(mv));
            assert(mv =~~= flat_record(fv[i as int]));
            assert(flat_records(fv.take(i + 1)) =~~= flat_records(fv.take(i as int)).push(
                flat_record(fv[i as int]),
            ));
        }
    }
    assert(folders.deep_view().take(n as int) =~= folders.deep_view());
    movies
}

/// Organized build: walks the year buckets in order and, inside each, the
/// movie folders in order, and yields one record per (year, movie) pair with
/// the folder name and the year set and nothing else.
pub fn list_of_movies_organized(buckets: &Vec<YearBucket>) -> (movies: Vec<Movie>)
    ensures
        movies.deep_view() == organized_records(buckets.deep_view()),
{
    let mut movies: Vec<Movie> = Vec::new();
    let n = buckets.len();
    for i in 0..n
        invariant
            n == buckets.len(),
            movies.deep_view() == organized_records(buckets.deep_view().take(i as int)),
    {
        let bucket = &buckets[i];
        let m = bucket.movies.len();
        for j in 0..m
            invariant
                n == buckets.len(),
                0 <= i < n,
                m == buckets[i as int].movies.len(),
                bucket == buckets[i as int],
                movies.deep_view() == organized_records(buckets.deep_view().take(i as int))
                    + bucket_records(buckets.deep_view()[i as int]).take(j as int),
        {
            let ghost bvs = buckets.deep_view();
            let ghost br = bucket_records(bvs[i as int]);
            let ghost pre = movies.deep_view();
            let movie = Movie {
                foldername: Some(bucket.movies[j].clone()),
                title: None,
                year: Some(bucket.year.clone()),
                quality: None,
                tmdbid: None,
                imdbid: None,
                poster_path: None,
                backdrop_path: None,
                tagline: None,
                genres: Vec::new(),
                cast: Vec::new(),
            };
            let ghost mv = movie.deep_view();
            movies.push(movie);
            proof {
                assert(br.len() == m);
                assert(pre.len() == organized_records(bvs.take(i as int)).len() + j);
                assert(movies.deep_view() =~~= pre.push(mv));
                assert(bvs[i as int].movies[j as int] == bucket.movies.deep_view()[j as int]);
                assert(mv =~~= organized_record(bvs[i as int].year, bvs[i as int].movies[j as int]));
                assert(br[j as int] == organized_record(bvs[i as int].year, bvs[i as int].movies[j as int]));
                assert(br.take(j + 1) =~~= br.take(j as int).push(br[j as int]));
                assert(movies.deep_view() =~~= organized_records(bvs.take(i as int)) + br.take(j + 1));
            }
        }
        proof {
            let bvs = buckets.deep_view();
            assert(bucket_records(bvs[i as int]).take(m as int) =~= bucket_records(bvs[i as int]));
            assert(bvs.take(i + 1).drop_last() =~= bvs.take(i as int));
            assert(bvs.take(i + 1).last() == bvs[i as int]);
            assert(movies.deep_view() =~= organized_records(bvs.take(i + 1)));
        }
    }
    assert(buckets.deep_view().take(n as int) =~= buckets.deep_view());
    movies
}

/// The record-building step of writing a catalog file from an organized
/// folder: exactly the organized build; the caller persists the result.
pub fn generate_file_from_ordered_folder(buckets: &Vec<YearBucket>) -> (movies: Vec<Movie>)
    ensures
        movies.deep_view() == organized_records(buckets.deep_view()),
{
    list_of_movies_organized(buckets)
}

/// Counts the movie folders of an organized layout: the sum of the bucket
/// sizes.
pub fn count_all_movies_ordered(buckets: &Vec<YearBucket>) -> (count: u64)
    requires
        total_movies(buckets.deep_view()) <= u64::MAX,
    ensures
        count == total_movies(buckets.deep_view()),
{
    let mut count: u64 = 0;
    let n = buckets.len();
    for i in 0..n
        invariant
            n == buckets.len(),
            total_movies(buckets.deep_view()) <= u64::MAX,
            count == total_movies(buckets.deep_view().take(i as int)),
    {
        proof {
            let bvs = buckets.deep_view();
            lemma_total_movies_take_succ(bvs, i as int);
            lemma_total_movies_take_le(bvs, i + 1);
            lemma_total_movies_nonneg(bvs.take(i as int));
            assert(buckets[i as int].movies.deep_view().len() == buckets[i as int].movies@.len());
        }
        count = count + buckets[i].movies.len() as u64;
    }
    assert(buckets.deep_view().take(n as int) =~= buckets.deep_view());
    count
}

/// Counts the movie folders of a flat layout: one per immediate child entry.
pub fn count_all_movies_unordered(entries: &Vec<String>) -> (count: u64)
    ensures
        count == entries@.len(),
{
    entries.len() as u64
}

/// The counts that the combined count report prints: the organized movie
/// count of each of the two library locations, in the order handed in.
pub fn print_all_movie_counts(datahome: &Vec<YearBucket>, multimedia: &Vec<YearBucket>) -> (counts: (
    u64,
    u64,
))
    requires
        total_movies(datahome.deep_view()) <= u64::MAX,
        total_movies(multimedia.deep_view()) <= u64::MAX,
    ensures
        counts.0 == total_movies(datahome.deep_view()),
        counts.1 == total_movies(multimedia.deep_view()),
{
    (count_all_movies_ordered(datahome), count_all_movies_ordered(multimedia))
}

/// The exact file name that holds one movie's legacy metadata.
pub open spec fn metadata_filename() -> Seq<char> {
    "metadata-file.json"@
}

/// Finds the first directory entry named exactly `metadata-file.json`
/// (case-sensitive) in one movie folder's file list.
pub fn find_metadata_file(files: &Vec<String>) -> (r: Option<usize>)
    ensures
        match r {
            Some(i) => i < files@.len() && files.deep_view()[i as int] == metadata_filename()
                && (forall|j: int|
                0 <= j < i ==> files.deep_view()[j] != metadata_filename()),
            None => forall|j: int|
                0 <= j < files@.len() ==> files.deep_view()[j] != metadata_filename(),
        },
{
    let target = String::from_str("metadata-file.json");
    let n = files.len();
    for i in 0..n
        invariant
            n == files.len(),
            target@ == metadata_filename(),
            forall|j: int| 0 <= j < i ==> files.deep_view()[j] != metadata_filename(),
    {
        if files[i] == target {
            return Some(i);
        }
    }
    None
}

/// The catalog that a collect run aggregates from an organized layout: one
/// migrated record per movie folder whose metadata file was found, in walk
/// order; folders without one are skipped.
pub open spec fn collected(found: Seq<Option<OldMovieView>>) -> Seq<MovieView>
    decreases found.len(),
{
    if found.len() == 0 {
        Seq::empty()
    } else {
        let pre = collected(found.drop_last());
        match found.last() {
            Some(o) => pre.push(migrated(o)),
            None => pre,
        }
    }
}

/// The number of movie folders whose metadata file was found.
pub open spec fn count_present(found: Seq<Option<OldMovieView>>) -> int
    decreases found.len(),
{
    if found.len() == 0 {
        0
    } else {
        count_present(found.drop_last()) + (if found.last() is Some {
            1int
        } else {
            0int
        })
    }
}

/// A collect run yields exactly one record per movie folder whose metadata
/// file was present: folders without one reduce the count by one each and
/// never fail the run.
pub proof fn lemma_collected_len(found: Seq<Option<OldMovieView>>)
    ensures
        collected(found).len() == count_present(found),
        count_present(found) <= found.len(),
    decreases found.len(),
{
    if found.len() > 0 {
        lemma_collected_len(found.drop_last());
    }
}

/// Collect: aggregates the legacy metadata records found under an organized
/// layout, one entry per movie folder in walk order, migrating each found
/// record to the unified schema and silently skipping the folders where no
/// metadata file was found.
pub fn collect_metafiles_into_one(found: Vec<Option<OldMovie>>) -> (movies: Vec<Movie>)
    ensures
        movies.deep_view() == collected(found.deep_view()),
{
    let ghost orig = found.deep_view();
    let mut found = found;
    let mut movies: Vec<Movie> = Vec::new();
    while found.len() > 0
        invariant
            orig =~= orig.take(orig.len() - found.deep_view().len()) + found.deep_view(),
            found.deep_view().len() <= orig.len(),
            movies.deep_view() == collected(orig.take(orig.len() - found.deep_view().len())),
        decreases found.len(),
    {
        let ghost k = orig.len() - found.deep_view().len();
        let head = found.remove(0);
        proof {
            assert(found.deep_view() =~= orig.skip(k + 1));
            assert(orig =~= orig.take(k + 1) + found.deep_view());
            assert(orig.take(k + 1).drop_last() =~= orig.take(k));
            assert(orig.take(k + 1).last() == orig[k]);
            assert(head.deep_view() == orig[k]);
        }
        match head {
            Some(old_movie) => {
                movies.push(migrate_old_movie(old_movie));
                assert(movies.deep_view() =~= collected(orig.take(k)).push(
                    migrated(orig[k]->Some_0),
                ));
            },
            None => {},
        }
    }
    assert(orig.take(orig.len() - found.deep_view().len()) =~= orig);
    movies
}

} // verus!
