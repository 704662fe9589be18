use movie_catalog::records::{migrate_old_movie, Actor, Details, OldMovie};

#[test]
fn migration_keeps_every_populated_field() {
    let old = OldMovie {
        title: "Inception".to_string(),
        year: "2010".to_string(),
        quality: "1080p".to_string(),
        tmdbid: "27205".to_string(),
        details: Details {
            imdbid: Some("tt1375666".to_string()),
            poster_path: "/abc.jpg".to_string(),
            backdrop_path: Some("/xyz.jpg".to_string()),
            tagline: "Your mind is the scene of the crime.".to_string(),
            genres: vec!["Action".to_string(), "Sci-Fi".to_string()],
        },
        cast: vec![Actor {
            id: 6193,
            name: "Leonardo DiCaprio".to_string(),
            cast_id: 3,
            credit_id: "52fe4534c3a368484e04de83".to_string(),
            character: "Dom Cobb".to_string(),
            profile_path: Some("/leo.jpg".to_string()),
        }],
    };
    let m = migrate_old_movie(old);
    assert_eq!(m.foldername, None);
    assert_eq!(m.title.as_deref(), Some("Inception"));
    assert_eq!(m.year.as_deref(), Some("2010"));
    assert_eq!(m.quality.as_deref(), Some("1080p"));
    assert_eq!(m.tmdbid.as_deref(), Some("27205"));
    assert_eq!(m.imdbid.as_deref(), Some("tt1375666"));
    assert_eq!(m.poster_path.as_deref(), Some("/abc.jpg"));
    assert_eq!(m.backdrop_path.as_deref(), Some("/xyz.jpg"));
    assert_eq!(m.tagline.as_deref(), Some("Your mind is the scene of the crime."));
    assert_eq!(m.genres, vec!["Action".to_string(), "Sci-Fi".to_string()]);
    assert_eq!(m.cast.len(), 1);
    assert_eq!(m.cast[0].id, 6193);
    assert_eq!(m.cast[0].name, "Leonardo DiCaprio");
    assert_eq!(m.cast[0].cast_id, 3);
    assert_eq!(m.cast[0].credit_id, "52fe4534c3a368484e04de83");
    assert_eq!(m.cast[0].character, "Dom Cobb");
    assert_eq!(m.cast[0].profile_path.as_deref(), Some("/leo.jpg"));
}

#[test]
fn migration_passes_absent_optionals_through() {
    let old = OldMovie {
        title: "Arrival".to_string(),
        year: "2016".to_string(),
        quality: "720p".to_string(),
        tmdbid: "329865".to_string(),
        details: Details {
            imdbid: None,
            poster_path: "/arrival.jpg".to_string(),
            backdrop_path: None,
            tagline: "Why are they here?".to_string(),
            genres: Vec::new(),
        },
        cast: Vec::new(),
    };
    let m = migrate_old_movie(old);
    assert_eq!(m.imdbid, None);
    assert_eq!(m.backdrop_path, None);
    assert_eq!(m.poster_path.as_deref(), Some("/arrival.jpg"));
    assert!(m.genres.is_empty());
    assert!(m.cast.is_empty());
}
