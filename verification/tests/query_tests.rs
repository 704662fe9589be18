use movie_catalog::query::{find_titles_for_year, find_years_for_title};
use movie_catalog::records::Movie;

fn record(title: Option<&str>, year: Option<&str>) -> Movie {
    Movie {
        foldername: None,
        title: title.map(|t| t.to_string()),
        year: year.map(|y| y.to_string()),
        quality: None,
        tmdbid: None,
        imdbid: None,
        poster_path: None,
        backdrop_path: None,
        tagline: None,
        genres: Vec::new(),
        cast: Vec::new(),
    }
}

#[test]
fn year_query_returns_exactly_the_matching_records_in_order() {
    let catalog = vec![
        record(Some("Inception"), Some("2010")),
        record(Some("Source Code"), Some("2011")),
        record(Some("True Grit"), Some("2010")),
        record(Some("Unknown Year"), None),
    ];
    let titles = find_titles_for_year(&catalog, &"2010".to_string());
    assert_eq!(titles, vec!["Inception".to_string(), "True Grit".to_string()]);
}

#[test]
fn year_query_compares_strings_without_coercion() {
    let catalog = vec![record(Some("A"), Some("2010")), record(Some("B"), Some("02010"))];
    let titles = find_titles_for_year(&catalog, &"2010".to_string());
    assert_eq!(titles, vec!["A".to_string()]);
}

#[test]
fn year_query_reports_placeholder_for_missing_title() {
    let catalog = vec![record(None, Some("2010")), record(Some("A"), Some("2010"))];
    let titles = find_titles_for_year(&catalog, &"2010".to_string());
    assert_eq!(titles, vec!["unknown".to_string(), "A".to_string()]);
}

#[test]
fn title_query_returns_the_matching_year_and_nothing_else() {
    let catalog = vec![record(Some("A"), Some("1999")), record(Some("B"), Some("2001"))];
    let years = find_years_for_title(&catalog, &"B".to_string());
    assert_eq!(years, vec!["2001".to_string()]);
}

#[test]
fn title_query_reports_placeholder_for_missing_year() {
    let catalog = vec![record(Some("B"), None)];
    let years = find_years_for_title(&catalog, &"B".to_string());
    assert_eq!(years, vec!["unknown".to_string()]);
}

#[test]
fn queries_on_an_empty_catalog_are_empty() {
    let catalog: Vec<Movie> = Vec::new();
    assert!(find_titles_for_year(&catalog, &"2010".to_string()).is_empty());
    assert!(find_years_for_title(&catalog, &"B".to_string()).is_empty());
}
