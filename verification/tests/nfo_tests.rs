use tv_resolver::media::{check_file_extensions, check_filename_by_regex, episode_file_name};
use tv_resolver::models::{Genre, MediaType, SearchMultiResult, TvShowDetails};
use tv_resolver::nfo::create_tv_show_nfo;

#[test]
fn test_create_tv_show_nfo_with_complete_data() {
    let show = TvShowDetails {
        id: 1399,
        name: "Game of Thrones".to_string(),
        overview: "Seven noble families fight for control of the mythical land of Westeros."
            .to_string(),
        genres: vec![
            Genre {
                name: "Sci-Fi".to_string(),
            },
            Genre {
                name: "Fantasy".to_string(),
            },
        ],
        first_air_date: Some("2011-04-17".to_string()),
        vote_average: "8.4".to_string(),
    };

    let nfo_content = create_tv_show_nfo(&show);

    assert!(nfo_content.contains("<title>Game of Thrones</title>"));
    assert!(nfo_content.contains(
        "<plot>Seven noble families fight for control of the mythical land of Westeros.</plot>"
    ));
    assert!(nfo_content.contains("<year>2011</year>"));
    assert!(nfo_content.contains("<premiered>2011-04-17</premiered>"));
    assert!(nfo_content.contains("<rating>8.4</rating>"));
    assert!(nfo_content.contains("<tmdbid>1399</tmdbid>"));
    assert!(nfo_content.contains("<uniqueid type=\"tmdb\">1399</uniqueid>"));
    assert!(nfo_content.contains("<genre>Sci-Fi</genre>"));
    assert!(nfo_content.contains("<genre>Fantasy</genre>"));
}

#[test]
fn test_create_tv_show_nfo_with_missing_air_date() {
    let show = TvShowDetails {
        id: 1234,
        name: "Unknown Show".to_string(),
        overview: "A show with no air date.".to_string(),
        genres: vec![],
        first_air_date: None,
        vote_average: "7.5".to_string(),
    };

    let nfo_content = create_tv_show_nfo(&show);

    assert!(nfo_content.contains("<year>????</year>"));
    assert!(nfo_content.contains("<premiered></premiered>"));
}

#[test]
fn test_create_tv_show_nfo_with_empty_air_date() {
    let show = TvShowDetails {
        id: 5678,
        name: "Incomplete Date Show".to_string(),
        overview: "A show with empty air date.".to_string(),
        genres: vec![Genre {
            name: "Drama".to_string(),
        }],
        first_air_date: None,
        vote_average: "6.2".to_string(),
    };

    let nfo_content = create_tv_show_nfo(&show);

    assert!(nfo_content.contains("<year>????</year>"));
    assert!(nfo_content.contains("<premiered></premiered>"));
    assert!(nfo_content.contains("<genre>Drama</genre>"));
}

fn tv_candidate() -> SearchMultiResult {
    SearchMultiResult {
        id: 1399,
        overview: "The best show ever".to_string(),
        backdrop_path: String::new(),
        poster_path: String::new(),
        media_type: MediaType::TV,
        name: Some("Game of Thrones".to_string()),
        original_name: Some("Game of Thrones".to_string()),
        first_air_date: Some("2011-04-17".to_string()),
        title: None,
        original_title: None,
        release_date: None,
    }
}

#[test]
fn test_to_tv_show_nfo_for_tv_candidate() {
    let nfo = tv_candidate().to_tv_show_nfo().unwrap();
    assert!(nfo.contains("<title>Game of Thrones</title>"));
    assert!(nfo.contains("<originaltitle>Game of Thrones</originaltitle>"));
    assert!(nfo.contains("<plot>The best show ever</plot>"));
    assert!(nfo.contains("<year>2011</year>"));
    assert!(nfo.contains("<uniqueid type=\"tmdb\">1399</uniqueid>"));
}

#[test]
fn test_to_tv_show_nfo_refuses_movie_candidate() {
    let mut candidate = tv_candidate();
    candidate.media_type = MediaType::MOVIE;
    assert!(candidate.to_tv_show_nfo().is_none());
}

#[test]
fn test_check_file_extensions() {
    assert!(check_file_extensions("a.mkv"));
    assert!(check_file_extensions("b.mp4"));
    assert!(check_file_extensions("c.avi"));
    assert!(check_file_extensions("d.m4v"));
    assert!(check_file_extensions("e.srt"));
    assert!(check_file_extensions("f.ass"));
    assert!(!check_file_extensions("g.txt"));
    assert!(!check_file_extensions("mkv"));
}

#[test]
fn test_check_filename_by_regex() {
    assert!(check_filename_by_regex("My Show_01-x"));
    assert!(check_filename_by_regex("a\u{000B}b\u{00A0}c"));
    assert!(!check_filename_by_regex("bad/name"));
    assert!(!check_filename_by_regex(""));
}

#[test]
fn test_episode_file_name() {
    assert_eq!(
        episode_file_name("My Show", "01", "02", "mp4"),
        "My Show S01E02.mp4"
    );
}
