use movie_catalog::catalog::{
    collect_metafiles_into_one, count_all_movies_ordered, count_all_movies_unordered,
    find_metadata_file, generate_file_from_ordered_folder, list_of_movies_organized,
    list_of_movies_unorganized, print_all_movie_counts, YearBucket,
};
use movie_catalog::records::{Actor, Details, Movie, OldMovie};

fn strings(names: &[&str]) -> Vec<String> {
    names.iter().map(|n| n.to_string()).collect()
}

fn sample_old_movie(title: &str, year: &str) -> OldMovie {
    OldMovie {
        title: title.to_string(),
        year: year.to_string(),
        quality: "1080p".to_string(),
        tmdbid: "27205".to_string(),
        details: Details {
            imdbid: Some("tt1375666".to_string()),
            poster_path: "/abc.jpg".to_string(),
            backdrop_path: None,
            tagline: "Your mind is the scene of the crime.".to_string(),
            genres: strings(&["Action", "Sci-Fi"]),
        },
        cast: vec![Actor {
            id: 6193,
            name: "Leonardo DiCaprio".to_string(),
            cast_id: 3,
            credit_id: "52fe4534c3a368484e04de83".to_string(),
            character: "Dom Cobb".to_string(),
            profile_path: None,
        }],
    }
}

fn assert_folder_only(m: &Movie, name: &str) {
    assert_eq!(m.foldername.as_deref(), Some(name));
    assert_eq!(m.title, None);
    assert_eq!(m.year, None);
    assert_eq!(m.quality, None);
    assert_eq!(m.tmdbid, None);
    assert_eq!(m.imdbid, None);
    assert_eq!(m.poster_path, None);
    assert_eq!(m.backdrop_path, None);
    assert_eq!(m.tagline, None);
    assert!(m.genres.is_empty());
    assert!(m.cast.is_empty());
}

#[test]
fn flat_build_one_record_per_folder() {
    let folders = strings(&["Inception (2010)", "Arrival (2016)", "Dune (2021)"]);
    let movies = list_of_movies_unorganized(&folders);
    assert_eq!(movies.len(), 3);
    assert_folder_only(&movies[0], "Inception (2010)");
    assert_folder_only(&movies[1], "Arrival (2016)");
    assert_folder_only(&movies[2], "Dune (2021)");
}

#[test]
fn flat_build_of_empty_root_is_empty() {
    let movies = list_of_movies_unorganized(&Vec::new());
    assert!(movies.is_empty());
}

fn sample_buckets() -> Vec<YearBucket> {
    vec![
        YearBucket { year: "2010".to_string(), movies: strings(&["Inception", "True Grit"]) },
        YearBucket { year: "2011".to_string(), movies: Vec::new() },
        YearBucket { year: "2016".to_string(), movies: strings(&["Arrival"]) },
    ]
}

#[test]
fn organized_build_pairs_year_with_movie() {
    let movies = list_of_movies_organized(&sample_buckets());
    assert_eq!(movies.len(), 3);
    assert_eq!(movies[0].foldername.as_deref(), Some("Inception"));
    assert_eq!(movies[0].year.as_deref(), Some("2010"));
    assert_eq!(movies[1].foldername.as_deref(), Some("True Grit"));
    assert_eq!(movies[1].year.as_deref(), Some("2010"));
    assert_eq!(movies[2].foldername.as_deref(), Some("Arrival"));
    assert_eq!(movies[2].year.as_deref(), Some("2016"));
    assert_eq!(movies[0].title, None);
    assert!(movies[0].genres.is_empty());
    assert!(movies[0].cast.is_empty());
}

#[test]
fn generate_from_ordered_folder_matches_organized_build() {
    let buckets = sample_buckets();
    let direct = list_of_movies_organized(&buckets);
    let generated = generate_file_from_ordered_folder(&buckets);
    assert_eq!(generated.len(), direct.len());
    for (g, d) in generated.iter().zip(direct.iter()) {
        assert_eq!(g.foldername, d.foldername);
        assert_eq!(g.year, d.year);
    }
}

#[test]
fn ordered_count_sums_bucket_sizes() {
    assert_eq!(count_all_movies_ordered(&sample_buckets()), 3);
    assert_eq!(count_all_movies_ordered(&Vec::new()), 0);
}

#[test]
fn unordered_count_is_entry_count() {
    assert_eq!(count_all_movies_unordered(&strings(&["A", "B"])), 2);
    assert_eq!(count_all_movies_unordered(&Vec::new()), 0);
}

#[test]
fn count_report_covers_both_locations() {
    let datahome = sample_buckets();
    let multimedia = vec![YearBucket {
        year: "1999".to_string(),
        movies: strings(&["The Matrix"]),
    }];
    assert_eq!(print_all_movie_counts(&datahome, &multimedia), (3, 1));
}

#[test]
fn metadata_file_found_by_exact_name() {
    let files = strings(&["movie.mkv", "metadata-file.json", "cover.jpg"]);
    assert_eq!(find_metadata_file(&files), Some(1));
}

#[test]
fn metadata_file_search_is_case_sensitive() {
    let files = strings(&["Metadata-File.json", "metadata-file.json.bak"]);
    assert_eq!(find_metadata_file(&files), None);
}

#[test]
fn metadata_file_first_match_wins() {
    let files = strings(&["metadata-file.json", "metadata-file.json"]);
    assert_eq!(find_metadata_file(&files), Some(0));
}

#[test]
fn collect_skips_folders_without_metadata() {
    let found = vec![
        Some(sample_old_movie("Inception", "2010")),
        None,
        Some(sample_old_movie("Arrival", "2016")),
    ];
    let movies = collect_metafiles_into_one(found);
    assert_eq!(movies.len(), 2);
    assert_eq!(movies[0].title.as_deref(), Some("Inception"));
    assert_eq!(movies[1].title.as_deref(), Some("Arrival"));
}

#[test]
fn collect_of_all_missing_is_empty() {
    let movies = collect_metafiles_into_one(vec![None, None]);
    assert!(movies.is_empty());
}
