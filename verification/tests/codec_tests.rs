use movie_catalog::codec::{render_file_list, write_movies};
use movie_catalog::records::{Actor, Movie};
use serde_json::Value;

fn strings(names: &[&str]) -> Vec<String> {
    names.iter().map(|n| n.to_string()).collect()
}

#[test]
fn empty_catalog_renders_as_an_empty_array() {
    let text = write_movies(&Vec::new());
    assert_eq!(text, "[\n]");
}

#[test]
fn folder_only_record_renders_every_key() {
    let movie = Movie {
        foldername: Some("Inception (2010)".to_string()),
        title: None,
        year: None,
        quality: None,
        tmdbid: None,
        imdbid: None,
        poster_path: None,
        backdrop_path: None,
        tagline: None,
        genres: Vec::new(),
        cast: Vec::new(),
    };
    let text = write_movies(&vec![movie]);
    let expected = "[\n  {\"foldername\":\"Inception (2010)\",\"title\":null,\"year\":null,\"quality\":null,\"tmdbid\":null,\"imdbid\":null,\"poster_path\":null,\"backdrop_path\":null,\"tagline\":null,\"genres\":[],\"cast\":[]}\n]";
    assert_eq!(text, expected);
}

fn full_record() -> Movie {
    Movie {
        foldername: None,
        title: Some("Inception".to_string()),
        year: Some("2010".to_string()),
        quality: Some("1080p".to_string()),
        tmdbid: Some("27205".to_string()),
        imdbid: Some("tt1375666".to_string()),
        poster_path: Some("/abc.jpg".to_string()),
        backdrop_path: Some("/xyz.jpg".to_string()),
        tagline: Some("Your mind: the \"scene\" of\nthe crime\\".to_string()),
        genres: strings(&["Action", "Sci-Fi"]),
        cast: vec![Actor {
            id: 6193,
            name: "Leonardo DiCaprio".to_string(),
            cast_id: 3,
            credit_id: "52fe4534c3a368484e04de83".to_string(),
            character: "Dom Cobb".to_string(),
            profile_path: None,
        }],
    }
}

#[test]
fn persisted_catalog_is_valid_json_with_the_same_values() {
    let text = write_movies(&vec![full_record()]);
    let value: Value = serde_json::from_str(&text).expect("catalog text must be valid JSON");
    let records = value.as_array().expect("catalog must be a JSON array");
    assert_eq!(records.len(), 1);
    let record = &records[0];
    assert_eq!(record["foldername"], Value::Null);
    assert_eq!(record["title"].as_str(), Some("Inception"));
    assert_eq!(record["year"].as_str(), Some("2010"));
    assert_eq!(record["quality"].as_str(), Some("1080p"));
    assert_eq!(record["tmdbid"].as_str(), Some("27205"));
    assert_eq!(record["imdbid"].as_str(), Some("tt1375666"));
    assert_eq!(record["poster_path"].as_str(), Some("/abc.jpg"));
    assert_eq!(record["backdrop_path"].as_str(), Some("/xyz.jpg"));
    assert_eq!(record["tagline"].as_str(), Some("Your mind: the \"scene\" of\nthe crime\\"));
    let genres: Vec<&str> = record["genres"]
        .as_array()
        .expect("genres must be an array")
        .iter()
        .map(|g| g.as_str().expect("genre must be a string"))
        .collect();
    assert_eq!(genres, vec!["Action", "Sci-Fi"]);
    let cast = record["cast"].as_array().expect("cast must be an array");
    assert_eq!(cast.len(), 1);
    assert_eq!(cast[0]["id"].as_u64(), Some(6193));
    assert_eq!(cast[0]["name"].as_str(), Some("Leonardo DiCaprio"));
    assert_eq!(cast[0]["cast_id"].as_u64(), Some(3));
    assert_eq!(cast[0]["credit_id"].as_str(), Some("52fe4534c3a368484e04de83"));
    assert_eq!(cast[0]["character"].as_str(), Some("Dom Cobb"));
    assert_eq!(cast[0]["profile_path"], Value::Null);
}

#[test]
fn two_records_are_rendered_one_per_line() {
    let a = Movie {
        foldername: Some("A".to_string()),
        title: None,
        year: None,
        quality: None,
        tmdbid: None,
        imdbid: None,
        poster_path: None,
        backdrop_path: None,
        tagline: None,
        genres: Vec::new(),
        cast: Vec::new(),
    };
    let b = Movie { foldername: Some("B".to_string()), ..a_clone(&a) };
    let text = write_movies(&vec![a, b]);
    assert_eq!(text.lines().count(), 4);
    assert!(text.starts_with("[\n  {\"foldername\":\"A\""));
    assert!(text.contains(",\n  {\"foldername\":\"B\""));
    assert!(text.ends_with("}\n]"));
}

fn a_clone(m: &Movie) -> Movie {
    Movie {
        foldername: m.foldername.clone(),
        title: m.title.clone(),
        year: m.year.clone(),
        quality: m.quality.clone(),
        tmdbid: m.tmdbid.clone(),
        imdbid: m.imdbid.clone(),
        poster_path: m.poster_path.clone(),
        backdrop_path: m.backdrop_path.clone(),
        tagline: m.tagline.clone(),
        genres: m.genres.clone(),
        cast: Vec::new(),
    }
}

#[test]
fn file_list_report_renders_and_escapes() {
    let text = render_file_list(&strings(&["plain.mkv", "odd\"name\\.mkv"]));
    assert_eq!(text, "[\n  \"plain.mkv\",\n  \"odd\\\"name\\\\.mkv\"\n]");
    let value: Value = serde_json::from_str(&text).expect("report must be valid JSON");
    let names: Vec<&str> = value
        .as_array()
        .expect("report must be a JSON array")
        .iter()
        .map(|v| v.as_str().expect("name must be a string"))
        .collect();
    assert_eq!(names, vec!["plain.mkv", "odd\"name\\.mkv"]);
}

#[test]
fn empty_file_list_report_is_an_empty_array() {
    assert_eq!(render_file_list(&Vec::new()), "[\n]");
}
