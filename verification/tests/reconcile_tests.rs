use movie_catalog::reconcile::{contains_string, extension_of, read_extensions, unique_files};

fn strings(names: &[&str]) -> Vec<String> {
    names.iter().map(|n| n.to_string()).collect()
}

#[test]
fn unique_files_is_candidate_minus_reference() {
    let reference = strings(&["a.mkv", "b.mkv", "c.srt"]);
    let candidate = strings(&["b.mkv", "d.mkv", "c.srt", "e.avi"]);
    let unique = unique_files(&candidate, &reference);
    assert_eq!(unique, strings(&["d.mkv", "e.avi"]));
}

#[test]
fn unique_files_drops_duplicate_candidates() {
    let reference = strings(&["a.mkv"]);
    let candidate = strings(&["b.mkv", "a.mkv", "b.mkv", "c.mkv", "b.mkv"]);
    let unique = unique_files(&candidate, &reference);
    assert_eq!(unique, strings(&["b.mkv", "c.mkv"]));
}

#[test]
fn unique_files_compares_case_sensitively() {
    let reference = strings(&["Movie.mkv"]);
    let candidate = strings(&["movie.mkv", "Movie.mkv"]);
    let unique = unique_files(&candidate, &reference);
    assert_eq!(unique, strings(&["movie.mkv"]));
}

#[test]
fn unique_files_of_empty_candidate_is_empty() {
    let unique = unique_files(&Vec::new(), &strings(&["a"]));
    assert!(unique.is_empty());
}

#[test]
fn contains_string_matches_exact_names() {
    let names = strings(&["alpha", "beta"]);
    assert!(contains_string(&names, &"beta".to_string()));
    assert!(!contains_string(&names, &"Beta".to_string()));
    assert!(!contains_string(&names, &"gamma".to_string()));
}

#[test]
fn extension_of_takes_what_follows_the_last_dot() {
    assert_eq!(extension_of(&"movie.tar.gz".to_string()).as_deref(), Some("gz"));
    assert_eq!(extension_of(&"movie.mkv".to_string()).as_deref(), Some("mkv"));
}

#[test]
fn extension_of_hidden_or_plain_names_is_none() {
    assert_eq!(extension_of(&"README".to_string()), None);
    assert_eq!(extension_of(&".gitignore".to_string()), None);
    assert_eq!(extension_of(&"".to_string()), None);
}

#[test]
fn read_extensions_keeps_first_occurrences_only() {
    let files = strings(&["a.mkv", "b.srt", "c.mkv", "README", ".hidden", "d.nfo"]);
    let exts = read_extensions(&files);
    assert_eq!(exts, strings(&["mkv", "srt", "nfo"]));
}
