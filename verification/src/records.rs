use vstd::prelude::*;

verus! {

/// One credited cast member of a movie, as stored in the catalog.
pub struct Actor {
    pub id: u64,
    pub name: String,
    pub cast_id: u64,
    pub credit_id: String,
    pub character: String,
    pub profile_path: Option<String>,
}

/// Mathematical model of an `Actor`: every string is a sequence of characters.
#[verifier::ext_equal]
pub ghost struct ActorView {
    pub id: u64,
    pub name: Seq<char>,
    pub cast_id: u64,
    pub credit_id: Seq<char>,
    pub character: Seq<char>,
    pub profile_path: Option<Seq<char>>,
}

impl View for Actor {
    type V = ActorView;

    open spec fn view(&self) -> ActorView {
        ActorView {
            id: self.id,
            name: self.name@,
            cast_id: self.cast_id,
            credit_id: self.credit_id@,
            character: self.character@,
            profile_path: self.profile_path.deep_view(),
        }
    }
}

impl DeepView for Actor {
    type V = ActorView;

    open spec fn deep_view(&self) -> ActorView {
        self.view()
    }
}

/// One movie record of the unified catalog schema.  Every scalar field is
/// optional: a record discovered from a folder name alone knows nothing but
/// that name, while a record migrated from full metadata knows everything.
pub struct Movie {
    pub foldername: Option<String>,
    pub title: Option<String>,
    pub year: Option<String>,
    pub quality: Option<String>,
    pub tmdbid: Option<String>,
    pub imdbid: Option<String>,
    pub poster_path: Option<String>,
    pub backdrop_path: Option<String>,
    pub tagline: Option<String>,
    pub genres: Vec<String>,
    pub cast: Vec<Actor>,
}

/// Mathematical model of a `Movie`.
#[verifier::ext_equal]
pub ghost struct MovieView {
    pub foldername: Option<Seq<char>>,
    pub title: Option<Seq<char>>,
    pub year: Option<Seq<char>>,
    pub quality: Option<Seq<char>>,
    pub tmdbid: Option<Seq<char>>,
    pub imdbid: Option<Seq<char>>,
    pub poster_path: Option<Seq<char>>,
    pub backdrop_path: Option<Seq<char>>,
    pub tagline: Option<Seq<char>>,
    pub genres: Seq<Seq<char>>,
    pub cast: Seq<ActorView>,
}

impl View for Movie {
    type V = MovieView;

    open spec fn view(&self) -> MovieView {
        MovieView {
            foldername: self.foldername.deep_view(),
            title: self.title.deep_view(),
            year: self.year.deep_view(),
            quality: self.quality.deep_view(),
            tmdbid: self.tmdbid.deep_view(),
            imdbid: self.imdbid.deep_view(),
            poster_path: self.poster_path.deep_view(),
            backdrop_path: self.backdrop_path.deep_view(),
            tagline: self.tagline.deep_view(),
            genres: self.genres.deep_view(),
            cast: self.cast.deep_view(),
        }
    }
}

impl DeepView for Movie {
    type V = MovieView;

    open spec fn deep_view(&self) -> MovieView {
        self.view()
    }
}

/// The nested block of the legacy per-movie metadata schema.
pub struct Details {
    pub imdbid: Option<String>,
    pub poster_path: String,
    pub backdrop_path: Option<String>,
    pub tagline: String,
    pub genres: Vec<String>,
}

/// Mathematical model of a `Details` block.
#[verifier::ext_equal]
pub ghost struct DetailsView {
    pub imdbid: Option<Seq<char>>,
    pub poster_path: Seq<char>,
    pub backdrop_path: Option<Seq<char>>,
    pub tagline: Seq<char>,
    pub genres: Seq<Seq<char>>,
}

impl View for Details {
    type V = DetailsView;

    open spec fn view(&self) -> DetailsView {
        DetailsView {
            imdbid: self.imdbid.deep_view(),
            poster_path: self.poster_path@,
            backdrop_path: self.backdrop_path.deep_view(),
            tagline: self.tagline@,
            genres: self.genres.deep_view(),
        }
    }
}

impl DeepView for Details {
    type V = DetailsView;

    open spec fn deep_view(&self) -> DetailsView {
        self.view()
    }
}

/// One movie in the legacy per-movie metadata schema: the scalar fields are
/// all required, and the image references live in a nested `Details` block.
pub struct OldMovie {
    pub title: String,
    pub year: String,
    pub quality: String,
    pub tmdbid: String,
    pub details: Details,
    pub cast: Vec<Actor>,
}

/// Mathematical model of an `OldMovie`.
#[verifier::ext_equal]
pub ghost struct OldMovieView {
    pub title: Seq<char>,
    pub year: Seq<char>,
    pub quality: Seq<char>,
    pub tmdbid: Seq<char>,
    pub details: DetailsView,
    pub cast: Seq<ActorView>,
}

impl View for OldMovie {
    type V = OldMovieView;

    open spec fn view(&self) -> OldMovieView {
        OldMovieView {
            title: self.title@,
            year: self.year@,
            quality: self.quality@,
            tmdbid: self.tmdbid@,
            details: self.details@,
            cast: self.cast.deep_view(),
        }
    }
}

impl DeepView for OldMovie {
    type V = OldMovieView;

    open spec fn deep_view(&self) -> OldMovieView {
        self.view()
    }
}

/// The unified record that a legacy record migrates to: the nested details
/// are flattened to the top level, every formerly required field is wrapped
/// as present-optional, the two optional fields pass through unchanged, and
/// the folder name stays unknown.  No field of the source is dropped.
pub open spec fn migrated(o: OldMovieView) -> MovieView {
    MovieView {
        foldername: None,
        title: Some(o.title),
        year: Some(o.year),
        quality: Some(o.quality),
        tmdbid: Some(o.tmdbid),
        imdbid: o.details.imdbid,
        poster_path: Some(o.details.poster_path),
        backdrop_path: o.details.backdrop_path,
        tagline: Some(o.details.tagline),
        genres: o.details.genres,
        cast: o.cast,
    }
}

/// Schema migration: converts one legacy record into one unified record,
/// losslessly and totally, as `migrated` states field by field.
pub fn migrate_old_movie(old_movie: OldMovie) -> (m: Movie)
    ensures
        m@ == migrated(old_movie@),
{
    let m = Movie {
        foldername: None,
        title: Some(old_movie.title),
        year: Some(old_movie.year),
        quality: Some(old_movie.quality),
        tmdbid: Some(old_movie.tmdbid),
        imdbid: old_movie.details.imdbid,
        poster_path: Some(old_movie.details.poster_path),
        backdrop_path: old_movie.details.backdrop_path,
        tagline: Some(old_movie.details.tagline),
        genres: old_movie.details.genres,
        cast: old_movie.cast,
    };
    m
}

} // verus!
