use tv_resolver::models::{MediaType, SearchMultiResult, SearchResponse};
use tv_resolver::search::{
    check_tmdb_id, choose_from_results, details_url, format_search_results, merge_pages,
    pages_to_fetch, parse_choice, preselect, search_url, Selection, API_BASE_URL,
};

fn candidate(id: u32, name: &str, date: Option<&str>) -> SearchMultiResult {
    SearchMultiResult {
        id,
        overview: String::new(),
        backdrop_path: String::new(),
        poster_path: String::new(),
        media_type: MediaType::TV,
        name: Some(name.to_string()),
        original_name: None,
        first_air_date: date.map(|d| d.to_string()),
        title: None,
        original_title: None,
        release_date: None,
    }
}

fn three_candidates() -> SearchResponse<SearchMultiResult> {
    SearchResponse {
        page: 1,
        results: vec![
            candidate(11, "First Show", Some("2001-05-01")),
            candidate(22, "Second Show", Some("2002-06-02")),
            candidate(33, "Third Show", None),
        ],
        total_pages: 1,
        total_results: 3,
    }
}

#[test]
fn test_api_base_url() {
    assert_eq!(API_BASE_URL, "https://api.themoviedb.org/3");
}

#[test]
fn test_details_url_format() {
    assert_eq!(
        details_url(API_BASE_URL, 12345),
        "https://api.themoviedb.org/3/tv/12345"
    );
}

#[test]
fn test_search_url_format() {
    assert_eq!(
        search_url(API_BASE_URL),
        "https://api.themoviedb.org/3/search/multi"
    );
}

#[test]
fn test_check_tmdb_id() {
    assert!(check_tmdb_id(&7));
    assert!(!check_tmdb_id(&0));
}

#[test]
fn test_pages_to_fetch_counts() {
    assert_eq!(pages_to_fetch(0), Vec::<u32>::new());
    assert_eq!(pages_to_fetch(1), Vec::<u32>::new());
    assert_eq!(pages_to_fetch(5), vec![2, 3, 4, 5]);
}

#[test]
fn test_merge_pages_keeps_every_entry() {
    let merged = merge_pages(vec![1, 2], vec![vec![3], vec![], vec![4, 5]]);
    assert_eq!(merged, vec![1, 2, 3, 4, 5]);
}

#[test]
fn test_parse_choice_valid() {
    let results = three_candidates();
    assert_eq!(parse_choice("2\n", &results), Ok(22));
    assert_eq!(parse_choice(" 3 ", &results), Ok(33));
}

#[test]
fn test_parse_choice_out_of_range() {
    let results = three_candidates();
    assert_eq!(parse_choice("0", &results), Err("Choice is out of range."));
    assert_eq!(parse_choice("4", &results), Err("Choice is out of range."));
}

#[test]
fn test_parse_choice_not_a_number() {
    let results = three_candidates();
    assert_eq!(
        parse_choice("bad\n", &results),
        Err("Invalid input. Please enter a number.")
    );
    assert_eq!(
        parse_choice("", &results),
        Err("Invalid input. Please enter a number.")
    );
}

#[test]
fn test_choose_second_candidate() {
    let results = three_candidates();
    let mut transcript: Vec<String> = Vec::new();
    let lines = vec!["2\n".to_string()];
    assert_eq!(choose_from_results(&results, &lines, &mut transcript), Some(22));
    assert_eq!(transcript[0], format_search_results(&results));
    assert_eq!(transcript[1], "Enter number (1-3): ");
}

#[test]
fn test_choose_reprompts_after_bad_input() {
    let results = three_candidates();
    let mut transcript: Vec<String> = Vec::new();
    let lines = vec!["bad\n".to_string(), "3\n".to_string()];
    assert_eq!(choose_from_results(&results, &lines, &mut transcript), Some(33));
    // Listing, prompt, rejection message, second prompt.
    assert_eq!(transcript.len(), 4);
    assert_eq!(transcript[2], "Invalid input. Please enter a number.\n");
}

#[test]
fn test_choose_rejects_out_of_range_and_keeps_prompting() {
    let results = three_candidates();

    let mut transcript: Vec<String> = Vec::new();
    assert_eq!(
        choose_from_results(&results, &vec!["0".to_string()], &mut transcript),
        None
    );
    assert_eq!(transcript[2], "Choice is out of range.\n");

    let mut transcript: Vec<String> = Vec::new();
    assert_eq!(
        choose_from_results(&results, &vec!["4".to_string()], &mut transcript),
        None
    );
    assert_eq!(transcript[2], "Choice is out of range.\n");
}

#[test]
fn test_format_search_results_layout() {
    let results = three_candidates();
    let expected = "Multiple results found, please choose one:\n\
                    1. First Show (2001)\n\
                    2. Second Show (2002)\n\
                    3. Third Show (????)\n";
    assert_eq!(format_search_results(&results), expected);
}

#[test]
fn test_parse_choice_trims_unicode_whitespace() {
    let results = three_candidates();
    assert_eq!(parse_choice("2\u{00A0}\n", &results), Ok(22));
    assert_eq!(parse_choice("\u{2009}3\u{000B}", &results), Ok(33));
}

#[test]
fn test_preselect() {
    let many = three_candidates();
    assert_eq!(preselect(&many), Selection::NeedsChoice);

    let mut one = three_candidates();
    one.results.truncate(1);
    assert_eq!(preselect(&one), Selection::Chosen(11));

    let mut none = three_candidates();
    none.results.clear();
    assert_eq!(preselect(&none), Selection::NoCandidates);
}
