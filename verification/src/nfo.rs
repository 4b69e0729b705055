//! Renders the metadata files that are written beside the organized shows:
//! one full record per resolved show, and a reduced one from a bare search
//! candidate.
use vstd::prelude::*;

use crate::models::{Genre, MediaType, SearchMultiResult, TvShowDetails};
use crate::text::append_u32;
use crate::text::dec_rep;

verus! {

/// The date's year: its text up to the first dash.
pub open spec fn prefix_to_dash(d: Seq<char>) -> Seq<char>
    decreases d.len(),
{
    if d.len() == 0 {
        Seq::empty()
    } else if d[0] == '-' {
        Seq::empty()
    } else {
        seq![d[0]] + prefix_to_dash(d.skip(1))
    }
}

proof fn lemma_prefix_to_dash(d: Seq<char>, i: int)
    requires
        0 <= i <= d.len(),
        forall|k: int| 0 <= k < i ==> d[k] != '-',
        i == d.len() || d[i] == '-',
    ensures
        prefix_to_dash(d) == d.take(i),
    decreases i,
{
    if d.len() == 0 {
        assert(d.take(i) =~= Seq::<char>::empty());
    } else if i == 0 {
        assert(d.take(0) =~= Seq::<char>::empty());
    } else {
        assert(d[0] != '-');
        lemma_prefix_to_dash(d.skip(1), i - 1);
        assert(d.skip(1).take(i - 1) =~= d.take(i).skip(1));
        assert(prefix_to_dash(d) == seq![d[0]] + d.skip(1).take(i - 1));
        assert(seq![d[0]] + d.take(i).skip(1) =~= d.take(i));
    }
}

/// The text of `d` up to its first dash: the year part of a date.
pub fn year_prefix<'a>(d: &'a str) -> (r: &'a str)
    ensures
        r@ == prefix_to_dash(d@),
{
    let len = d.unicode_len();
    let mut i: usize = 0;
    while i < len && d.get_char(i) != '-'
        invariant
            0 <= i <= len,
            len == d@.len(),
            forall|k: int| 0 <= k < i ==> d@[k] != '-',
        decreases len - i,
    {
        i = i + 1;
    }
    proof {
        lemma_prefix_to_dash(d@, i as int);
        assert(d@.take(i as int) =~= d@.subrange(0, i as int));
    }
    d.substring_char(0, i)
}

/// One genre element.
pub open spec fn genre_line(name: Seq<char>) -> Seq<char> {
    "<genre>"@ + name + "</genre>"@
}

/// The first `n` genre elements, one per line.
pub open spec fn genre_lines_upto(genres: Seq<Genre>, n: nat) -> Seq<char>
    decreases n,
{
    if n == 0 {
        Seq::empty()
    } else if n == 1 {
        genre_line(genres[0].name@)
    } else {
        genre_lines_upto(genres, (n - 1) as nat) + "\n"@ + genre_line(genres[n - 1].name@)
    }
}

/// The year shown for a resolved show: the date's year part, or the
/// placeholder when no date is known.
pub open spec fn shown_year(first_air_date: Option<String>) -> Seq<char> {
    match first_air_date {
        Some(d) => prefix_to_dash(d@),
        None => "????"@,
    }
}

/// The premiere date shown: the date itself, or nothing when none is known.
pub open spec fn shown_date(first_air_date: Option<String>) -> Seq<char> {
    match first_air_date {
        Some(d) => d@,
        None => Seq::empty(),
    }
}

/// The metadata document for a resolved show.
pub open spec fn nfo_spec(show: TvShowDetails) -> Seq<char> {
    "<?xml version=\"1.0\" encoding=\"utf-8\" standalone=\"yes\"?>\n<tvshow>\n    <title>"@
        + show.name@ + "</title>\n    <plot>"@ + show.overview@ + "</plot>\n    <year>"@
        + shown_year(show.first_air_date) + "</year>\n    <premiered>"@ + shown_date(
        show.first_air_date,
    ) + "</premiered>\n    <rating>"@ + show.vote_average@ + "</rating>\n    <tmdbid>"@ + dec_rep(
        show.id as nat,
    ) + "</tmdbid>\n    <uniqueid type=\"tmdb\">"@ + dec_rep(show.id as nat)
        + "</uniqueid>\n    "@ + genre_lines_upto(show.genres@, show.genres@.len())
        + "\n</tvshow>"@
}

/// Renders the metadata document for a resolved show: its title, plot, year
/// (or a placeholder), premiere date (or nothing), rating, id, and one
/// element per genre.
pub fn create_tv_show_nfo(show: &TvShowDetails) -> (r: String)
    ensures
        r@ == nfo_spec(*show),
{
    let mut out = String::new();
    out.append(
        "<?xml version=\"1.0\" encoding=\"utf-8\" standalone=\"yes\"?>\n<tvshow>\n    <title>",
    );
    out.append(show.name.as_str());
    out.append("</title>\n    <plot>");
    out.append(show.overview.as_str());
    out.append("</plot>\n    <year>");
    match &show.first_air_date {
        Some(d) => out.append(year_prefix(d.as_str())),
        None => out.append("????"),
    }
    out.append("</year>\n    <premiered>");
    match &show.first_air_date {
        Some(d) => out.append(d.as_str()),
        None => (),
    }
    out.append("</premiered>\n    <rating>");
    out.append(show.vote_average.as_str());
    out.append("</rating>\n    <tmdbid>");
    append_u32(&mut out, show.id);
    out.append("</tmdbid>\n    <uniqueid type=\"tmdb\">");
    append_u32(&mut out, show.id);
    out.append("</uniqueid>\n    ");
    let n = show.genres.len();
    let mut i: usize = 0;
    let ghost head = out@;
    while i < n
        invariant
            0 <= i <= n,
            n == show.genres@.len(),
            out@ == head + genre_lines_upto(show.genres@, i as nat),
        decreases n - i,
    {
        if i > 0 {
            out.append("\n");
        }
        out.append("<genre>");
        out.append(show.genres[i].name.as_str());
        out.append("</genre>");
        proof {
            if i == 0 {
                assert(genre_lines_upto(show.genres@, 0) =~= Seq::<char>::empty());
            }
            assert(out@ =~= head + genre_lines_upto(show.genres@, (i + 1) as nat));
        }
        i = i + 1;
    }
    out.append("\n</tvshow>");
    proof {
        assert(out@ =~= nfo_spec(*show));
    }
    out
}

/// What a candidate shows as its name.
pub open spec fn candidate_name(name: Option<String>) -> Seq<char> {
    match name {
        Some(n) => n@,
        None => Seq::empty(),
    }
}

/// The year shown for a bare candidate: the date's year part, or nothing
/// when no date is known.
pub open spec fn candidate_year(first_air_date: Option<String>) -> Seq<char> {
    match first_air_date {
        Some(d) => prefix_to_dash(d@),
        None => Seq::empty(),
    }
}

/// The reduced metadata document built from a bare search candidate.
pub open spec fn candidate_nfo_spec(c: SearchMultiResult) -> Seq<char> {
    "<?xml version=\"1.0\" encoding=\"utf-8\" standalone=\"yes\"?>\n<tvshow>\n    <title>"@
        + candidate_name(c.name) + "</title>\n    <originaltitle>"@ + candidate_name(
        c.original_name,
    ) + "</originaltitle>\n    <plot>"@ + c.overview@ + "</plot>\n    <year>"@ + candidate_year(
        c.first_air_date,
    ) + "</year>\n    <uniqueid type=\"tmdb\">"@ + dec_rep(c.id as nat) + "</uniqueid>\n</tvshow>"@
}

impl SearchMultiResult {
    /// Renders the reduced metadata document for this candidate, for TV
    /// entries only; a film candidate yields nothing.
    pub fn to_tv_show_nfo(&self) -> (r: Option<String>)
        ensures
            self.media_type == MediaType::TV ==> (r matches Some(s) && s@ == candidate_nfo_spec(
                *self,
            )),
            self.media_type != MediaType::TV ==> r is None,
    {
        if self.media_type != MediaType::TV {
            return None;
        }
        let mut out = String::new();
        out.append(
            "<?xml version=\"1.0\" encoding=\"utf-8\" standalone=\"yes\"?>\n<tvshow>\n    <title>",
        );
        match &self.name {
            Some(n) => out.append(n.as_str()),
            None => (),
        }
        out.append("</title>\n    <originaltitle>");
        match &self.original_name {
            Some(n) => out.append(n.as_str()),
            None => (),
        }
        out.append("</originaltitle>\n    <plot>");
        out.append(self.overview.as_str());
        out.append("</plot>\n    <year>");
        match &self.first_air_date {
            Some(d) => out.append(year_prefix(d.as_str())),
            None => (),
        }
        out.append("</year>\n    <uniqueid type=\"tmdb\">");
        append_u32(&mut out, self.id);
        out.append("</uniqueid>\n</tvshow>");
        proof {
            assert(out@ =~= candidate_nfo_spec(*self));
        }
        Some(out)
    }
}

} // verus!
