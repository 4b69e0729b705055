//! Pure logic of the catalog resolver: request URLs, the pagination plan and
//! the merge of fetched pages, and the disambiguation of multiple candidates.
//!
//! The network calls themselves, and the console that carries the
//! disambiguation dialogue, live outside the library; everything they decide
//! on is computed and verified here.
use vstd::prelude::*;

use crate::models::{SearchMultiResult, SearchResponse};
use crate::text::{
    append_u32, append_usize, dec_rep, parse_usize, parse_usize_spec, trim_str, trim_spec,
};

verus! {

/// Base URL of the catalog service.
pub const API_BASE_URL: &'static str = "https://api.themoviedb.org/3";

/// A cached id is usable when it is set; zero stands for "not yet resolved".
pub fn check_tmdb_id(tmdb_id: &u32) -> (r: bool)
    ensures
        r == (*tmdb_id != 0),
{
    if *tmdb_id != 0 {
        return true;
    }
    false
}

/// The URL that fetches the full record of one show.
pub fn details_url(base: &str, tv_show_id: u32) -> (r: String)
    ensures
        r@ == base@ + "/tv/"@ + dec_rep(tv_show_id as nat),
{
    let mut out = String::new();
    out.append(base);
    out.append("/tv/");
    append_u32(&mut out, tv_show_id);
    proof {
        assert(out@ =~= base@ + "/tv/"@ + dec_rep(tv_show_id as nat));
    }
    out
}

/// The URL that searches the catalog across kinds.
pub fn search_url(base: &str) -> (r: String)
    ensures
        r@ == base@ + "/search/multi"@,
{
    let mut out = String::new();
    out.append(base);
    out.append("/search/multi");
    proof {
        assert(out@ =~= base@ + "/search/multi"@);
    }
    out
}

/// The page numbers still to be requested once the first page has reported
/// `total_pages`: every page from 2 up to and including the last one, so the
/// resolver issues `total_pages` requests in all (1 initial plus these).
pub fn pages_to_fetch(total_pages: u32) -> (r: Vec<u32>)
    ensures
        total_pages >= 1 ==> r@.len() == total_pages - 1,
        total_pages == 0 ==> r@.len() == 0,
        forall|i: int| 0 <= i < r@.len() ==> #[trigger] r@[i] == i + 2,
{
    let mut out: Vec<u32> = Vec::new();
    if total_pages < 2 {
        return out;
    }
    let count = total_pages - 1;
    let mut i: u32 = 0;
    while i < count
        invariant
            0 <= i <= count,
            count == total_pages - 1,
            total_pages >= 2,
            out@.len() == i,
            forall|k: int| 0 <= k < out@.len() ==> #[trigger] out@[k] == k + 2,
        decreases count - i,
    {
        out.push(i + 2);
        i = i + 1;
    }
    out
}

/// All result entries of the given pages, in the order the pages stand.
pub open spec fn concat_pages<T>(pages: Seq<Seq<T>>) -> Seq<T>
    decreases pages.len(),
{
    if pages.len() == 0 {
        Seq::empty()
    } else {
        pages[0] + concat_pages(pages.skip(1))
    }
}

/// The sum of the result counts of the given pages.
pub open spec fn total_result_count<T>(pages: Seq<Seq<T>>) -> nat
    decreases pages.len(),
{
    if pages.len() == 0 {
        0
    } else {
        pages[0].len() + total_result_count(pages.skip(1))
    }
}

/// Pagination completeness: the merged result set holds exactly as many
/// entries as the fetched pages held together.
pub proof fn lemma_pagination_completeness<T>(pages: Seq<Seq<T>>)
    ensures
        concat_pages(pages).len() == total_result_count(pages),
    decreases pages.len(),
{
    if pages.len() > 0 {
        lemma_pagination_completeness(pages.skip(1));
    }
}

/// Merges the later pages' results into the first page's, in the order the
/// pages completed.
pub fn merge_pages<T>(first: Vec<T>, rest: Vec<Vec<T>>) -> (r: Vec<T>)
    ensures
        r@ == first@ + concat_pages(rest@.map_values(|v: Vec<T>| v@)),
{
    let ghost whole = first@ + concat_pages(rest@.map_values(|v: Vec<T>| v@));
    let mut out = first;
    let mut rest = rest;
    while rest.len() > 0
        invariant
            out@ + concat_pages(rest@.map_values(|v: Vec<T>| v@)) == whole,
        decreases rest.len(),
    {
        let ghost views = rest@.map_values(|v: Vec<T>| v@);
        let mut page = rest.remove(0);
        proof {
            assert(rest@.map_values(|v: Vec<T>| v@) =~= views.skip(1));
            assert(concat_pages(views) == views[0] + concat_pages(views.skip(1)));
        }
        out.append(&mut page);
        proof {
            assert(out@ + concat_pages(rest@.map_values(|v: Vec<T>| v@)) =~= whole);
        }
    }
    proof {
        assert(rest@.map_values(|v: Vec<T>| v@) =~= Seq::<Seq<T>>::empty());
        assert(out@ =~= whole);
    }
    out
}

/// The candidate index (0-based) that the operator's input selects, if any:
/// the input, trimmed, must be a numeral between 1 and the candidate count.
pub open spec fn choice_of(input: Seq<char>, n_results: nat) -> Option<nat> {
    match parse_usize_spec(trim_spec(input)) {
        Some(c) => if 1 <= c <= n_results {
            Some((c - 1) as nat)
        } else {
            None
        },
        None => None,
    }
}

/// The trimmed input parsed as a number, but one that selects no candidate.
pub open spec fn choice_out_of_range(input: Seq<char>, n_results: nat) -> bool {
    parse_usize_spec(trim_spec(input)) is Some && choice_of(input, n_results) is None
}

/// Reads one line of operator input against a candidate list.
///
/// A numeral from 1 to the candidate count selects that candidate (1-based)
/// and yields its id. A numeral outside that range, or input that is no
/// numeral, is rejected with a message saying which of the two it was.
pub fn parse_choice<'a>(input: &str, results: &SearchResponse<SearchMultiResult>) -> (r: Result<
    u32,
    &'a str,
>)
    ensures
        match choice_of(input@, results.results@.len()) {
            Some(k) => r matches Ok(id) && id == results.results@[k as int].id,
            None => r is Err,
        },
        r matches Err(m) ==> m@ == (if choice_out_of_range(input@, results.results@.len()) {
            "Choice is out of range."@
        } else {
            "Invalid input. Please enter a number."@
        }),
{
    let trimmed = trim_str(input);
    match parse_usize(trimmed) {
        Some(choice) => {
            if choice > 0 && choice <= results.results.len() {
                Ok(results.results[choice - 1].id)
            } else {
                Err("Choice is out of range.")
            }
        },
        None => Err("Invalid input. Please enter a number."),
    }
}

/// How a merged result set is taken further.
#[derive(Debug, Clone, Copy, PartialEq, Eq, Structural)]
pub enum Selection {
    /// No candidate at all: resolution fails for this query.
    NoCandidates,
    /// Exactly one candidate: it is chosen automatically, without a prompt.
    Chosen(u32),
    /// Several candidates: the operator must choose.
    NeedsChoice,
}

/// Decides what a merged result set calls for: failure when it is empty, the
/// single candidate's id when there is exactly one, the operator's choice
/// otherwise.
pub fn preselect(results: &SearchResponse<SearchMultiResult>) -> (r: Selection)
    ensures
        results.results@.len() == 0 ==> r == Selection::NoCandidates,
        results.results@.len() == 1 ==> r == Selection::Chosen(results.results@[0].id),
        results.results@.len() > 1 ==> r == Selection::NeedsChoice,
{
    if results.results.len() == 0 {
        Selection::NoCandidates
    } else if results.results.len() == 1 {
        Selection::Chosen(results.results[0].id)
    } else {
        Selection::NeedsChoice
    }
}

/// The id that the disambiguation dialogue returns when the operator types
/// the given lines, one per prompt: the first line that selects a candidate
/// decides; with no such line, nothing is selected.
pub open spec fn choose_spec(results: Seq<SearchMultiResult>, lines: Seq<Seq<char>>) -> Option<u32>
    decreases lines.len(),
{
    if lines.len() == 0 {
        None
    } else {
        match choice_of(lines[0], results.len()) {
            Some(k) => Some(results[k as int].id),
            None => choose_spec(results, lines.skip(1)),
        }
    }
}

/// The display name of a candidate: its name when it has one.
pub open spec fn display_name(r: SearchMultiResult) -> Seq<char> {
    match r.name {
        Some(n) => n@,
        None => Seq::empty(),
    }
}

/// The displayed release year of a candidate: its date's year part, or the
/// placeholder when no date is known.
pub open spec fn display_year(r: SearchMultiResult) -> Seq<char> {
    match r.first_air_date {
        Some(d) => crate::nfo::prefix_to_dash(d@),
        None => "????"@,
    }
}

/// The numbered line that presents candidate `i` (0-based): its 1-based
/// index, its name, and its release year or the placeholder.
pub open spec fn result_line(i: nat, r: SearchMultiResult) -> Seq<char> {
    dec_rep(i + 1) + ". "@ + display_name(r) + " ("@ + display_year(r) + ")\n"@
}

/// The candidate lines for the first `n` results.
pub open spec fn result_lines_upto(results: Seq<SearchMultiResult>, n: nat) -> Seq<char>
    decreases n,
{
    if n == 0 {
        Seq::empty()
    } else {
        result_lines_upto(results, (n - 1) as nat) + result_line((n - 1) as nat, results[n - 1])
    }
}

/// The whole candidate listing: a heading, then one numbered line per
/// candidate.
pub open spec fn format_results_spec(results: Seq<SearchMultiResult>) -> Seq<char> {
    "Multiple results found, please choose one:\n"@ + result_lines_upto(results, results.len())
}

/// Renders the candidate listing that is shown before the operator is asked
/// to choose.
#[verifier::rlimit(60)]
pub fn format_search_results(results: &SearchResponse<SearchMultiResult>) -> (r: String)
    ensures
        r@ == format_results_spec(results.results@),
{
    let mut out = String::new();
    out.append("Multiple results found, please choose one:\n");
    let n = results.results.len();
    let mut i: usize = 0;
    while i < n
        invariant
            0 <= i <= n,
            n == results.results@.len(),
            out@ == "Multiple results found, please choose one:\n"@ + result_lines_upto(
                results.results@,
                i as nat,
            ),
        decreases n - i,
    {
        append_usize(&mut out, i + 1);
        out.append(". ");
        match &results.results[i].name {
            Some(name) => out.append(name.as_str()),
            None => (),
        }
        out.append(" (");
        match &results.results[i].first_air_date {
            Some(d) => out.append(crate::nfo::year_prefix(d.as_str())),
            None => out.append("????"),
        }
        out.append(")\n");
        proof {
            assert(out@ =~= "Multiple results found, please choose one:\n"@ + result_lines_upto(
                results.results@,
                (i + 1) as nat,
            ));
        }
        i = i + 1;
    }
    out
}

/// The prompt that asks for a number between 1 and `n`.
pub open spec fn prompt_spec(n: nat) -> Seq<char> {
    "Enter number (1-"@ + dec_rep(n) + "): "@
}

/// The message with which an unaccepted input line is rejected: one wording
/// for a number that selects no candidate, another for input that is no
/// number.
pub open spec fn reject_message(input: Seq<char>, n_results: nat) -> Seq<char> {
    if choice_out_of_range(input, n_results) {
        "Choice is out of range."@
    } else {
        "Invalid input. Please enter a number."@
    }
}

/// What the dialogue writes while it consumes the given lines: one prompt
/// per line read and, after each rejected line, that line's message; reading
/// stops at the first line that selects a candidate.
pub open spec fn dialogue_steps(results: Seq<SearchMultiResult>, lines: Seq<Seq<char>>) -> Seq<
    Seq<char>,
>
    decreases lines.len(),
{
    if lines.len() == 0 {
        Seq::empty()
    } else {
        match choice_of(lines[0], results.len()) {
            Some(_) => seq![prompt_spec(results.len())],
            None => seq![
                prompt_spec(results.len()),
                reject_message(lines[0], results.len()) + "\n"@,
            ] + dialogue_steps(results, lines.skip(1)),
        }
    }
}

proof fn lemma_push_deep_view(v: Vec<String>, w: Vec<String>)
    requires
        w@.len() == v@.len() + 1,
        forall|k: int| 0 <= k < v@.len() ==> w@[k] == v@[k],
    ensures
        w.deep_view() == v.deep_view().push(w@[v@.len() as int]@),
{
    let x = w@[v@.len() as int];
    assert forall|k: int| 0 <= k < w.deep_view().len() implies #[trigger] w.deep_view()[k]
        == v.deep_view().push(x@)[k] by {
        if k < v@.len() {
            assert(w@[k] == v@[k]);
        }
    }
    assert(w.deep_view() =~= v.deep_view().push(x@));
}

/// Runs the disambiguation dialogue against a fixed sequence of input lines.
///
/// The transcript grows by exactly the candidate listing, written once and
/// before any prompt, and then, per line read, a prompt and — when the line
/// is rejected — its message; it keeps what it already held. The result is
/// the id of the candidate selected by the first accepting line; when the
/// lines run out before any line selects, there is no result — the
/// interactive caller never runs out, it keeps prompting.
#[verifier::rlimit(60)]
pub fn choose_from_results(
    results: &SearchResponse<SearchMultiResult>,
    input_lines: &Vec<String>,
    transcript: &mut Vec<String>,
) -> (r: Option<u32>)
    ensures
        r == choose_spec(results.results@, input_lines.deep_view()),
        final(transcript).deep_view() == old(transcript).deep_view() + seq![
            format_results_spec(results.results@),
        ] + dialogue_steps(results.results@, input_lines.deep_view()),
        old(transcript)@.is_prefix_of(final(transcript)@),
{
    let ghost base = old(transcript).deep_view() + seq![format_results_spec(results.results@)];
    let listing = format_search_results(results);
    let ghost snap0 = *transcript;
    let ghost listing_view = listing@;
    transcript.push(listing);
    proof {
        lemma_push_deep_view(snap0, *transcript);
        assert(transcript@[snap0@.len() as int]@ == listing_view);
        assert(transcript.deep_view() =~= base);
    }
    let ghost lines = input_lines.deep_view();
    let ghost mut steps: Seq<Seq<char>> = Seq::empty();
    proof {
        assert(lines.skip(0) =~= lines);
        assert(transcript.deep_view() =~= base + steps);
    }
    let n = input_lines.len();
    let mut i: usize = 0;
    while i < n
        invariant
            0 <= i <= n,
            n == input_lines@.len(),
            lines == input_lines.deep_view(),
            lines.len() == n,
            forall|k: int| 0 <= k < n ==> lines[k] == #[trigger] input_lines@[k]@,
            choose_spec(results.results@, lines) == choose_spec(
                results.results@,
                lines.skip(i as int),
            ),
            base == old(transcript).deep_view() + seq![format_results_spec(results.results@)],
            transcript.deep_view() == base + steps,
            dialogue_steps(results.results@, lines) == steps + dialogue_steps(
                results.results@,
                lines.skip(i as int),
            ),
            old(transcript)@.is_prefix_of(transcript@),
        decreases n - i,
    {
        let mut prompt = String::new();
        prompt.append("Enter number (1-");
        append_usize(&mut prompt, results.results.len());
        prompt.append("): ");
        proof {
            assert(prompt@ =~= prompt_spec(results.results@.len()));
        }
        let ghost snap = *transcript;
        let ghost prompt_view = prompt@;
        transcript.push(prompt);
        proof {
            lemma_push_deep_view(snap, *transcript);
            assert(transcript@[snap@.len() as int]@ == prompt_view);
            steps = steps + seq![prompt_view];
            assert(transcript.deep_view() =~= base + steps);
        }
        let line = &input_lines[i];
        match parse_choice(line.as_str(), results) {
            Ok(id) => {
                proof {
                    assert(lines.skip(i as int)[0] == line@);
                    assert(choose_spec(results.results@, lines.skip(i as int)) == Some(id));
                    assert(dialogue_steps(results.results@, lines.skip(i as int)) == seq![
                        prompt_spec(results.results@.len()),
                    ]);
                    assert(transcript.deep_view() =~= base + dialogue_steps(
                        results.results@,
                        lines,
                    ));
                }
                return Some(id);
            },
            Err(msg) => {
                let mut rejected = String::new();
                rejected.append(msg);
                rejected.append("\n");
                proof {
                    assert(lines.skip(i as int)[0] == line@);
                    assert(rejected@ =~= reject_message(line@, results.results@.len()) + "\n"@);
                }
                let ghost snap2 = *transcript;
                let ghost rejected_view = rejected@;
                transcript.push(rejected);
                proof {
                    lemma_push_deep_view(snap2, *transcript);
                    assert(transcript@[snap2@.len() as int]@ == rejected_view);
                    steps = steps + seq![rejected_view];
                    assert(transcript.deep_view() =~= base + steps);
                    assert(lines.skip(i as int).skip(1) =~= lines.skip(i + 1));
                    assert(dialogue_steps(results.results@, lines.skip(i as int)) == seq![
                        prompt_spec(results.results@.len()),
                        reject_message(line@, results.results@.len()) + "\n"@,
                    ] + dialogue_steps(results.results@, lines.skip(i + 1)));
                }
            },
        }
        i = i + 1;
    }
    proof {
        assert(lines.skip(n as int) =~= Seq::<Seq<char>>::empty());
        assert(dialogue_steps(results.results@, lines.skip(n as int)) == Seq::<
            Seq<char>,
        >::empty());
        assert(transcript.deep_view() =~= base + dialogue_steps(results.results@, lines));
    }
    None
}

} // verus!
