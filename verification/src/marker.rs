//! The marker store: the persisted record that makes reprocessing a
//! directory idempotent, the test that decides whether a directory is
//! unchanged, and the rendering of the marker file's content.
//!
//! Reading and writing the marker file is the caller's concern; what is
//! compared and what is written is computed and verified here.
use vstd::prelude::*;

use crate::fingerprint::{hex_digit_char, lex_le, sort_spec};
use crate::text::dec_rep;

verus! {

/// The persisted marker of a processed directory: the resolved catalog id
/// and the directory's fingerprint tokens.
#[derive(Debug, Clone)]
pub struct ProcessedMarker {
    pub tmdb_id: u32,
    pub file_hashes: Vec<String>,
}

/// An in-memory pairing of a resolved catalog id with fingerprint tokens.
#[derive(Debug, Clone)]
pub struct Cache {
    pub tmdb_id: u32,
    pub file_hashes: Vec<String>,
}

impl Cache {
    /// Pairs a resolved id with the fingerprint it was resolved under.
    pub fn new(tmdb_id: u32, file_hashes: Vec<String>) -> (r: Self)
        ensures
            r.tmdb_id == tmdb_id,
            r.file_hashes == file_hashes,
    {
        Self { tmdb_id, file_hashes }
    }
}

/// Whether two token vectors hold the same strings in the same order.
fn tokens_equal(a: &Vec<String>, b: &Vec<String>) -> (r: bool)
    ensures
        r == (a.deep_view() == b.deep_view()),
{
    if a.len() != b.len() {
        proof {
            assert(a.deep_view().len() != b.deep_view().len());
        }
        return false;
    }
    let n = a.len();
    let mut i: usize = 0;
    while i < n
        invariant
            0 <= i <= n,
            n == a@.len(),
            n == b@.len(),
            forall|k: int| 0 <= k < i ==> a.deep_view()[k] == b.deep_view()[k],
        decreases n - i,
    {
        if !a[i].eq(&b[i]) {
            proof {
                assert(a.deep_view()[i as int] != b.deep_view()[i as int]);
            }
            return false;
        }
        i = i + 1;
    }
    proof {
        assert(a.deep_view() =~= b.deep_view());
    }
    true
}

/// Sorts a token vector lexicographically.
pub fn sort_tokens(tokens: &Vec<String>) -> (r: Vec<String>)
    ensures
        r.deep_view() == sort_spec(tokens.deep_view()),
{
    let ghost views = tokens.deep_view();
    let mut out: Vec<String> = Vec::new();
    let n = tokens.len();
    let mut i: usize = 0;
    proof {
        assert(out.deep_view() =~= crate::fingerprint::sort_prefix(views, 0));
    }
    while i < n
        invariant
            0 <= i <= n,
            n == tokens@.len(),
            views == tokens.deep_view(),
            out.deep_view() == crate::fingerprint::sort_prefix(views, i as nat),
        decreases n - i,
    {
        let token = tokens[i].clone();
        proof {
            assert(token@ == views[i as int]);
        }
        crate::fingerprint::insert_token(&mut out, token);
        i = i + 1;
    }
    proof {
        assert(views.len() == n);
    }
    out
}

/// Cache correctness: a marker matches a fingerprint exactly when the two
/// sorted token lists are equal, however either side was ordered.
pub fn matches(marker: &ProcessedMarker, fingerprint: &Vec<String>) -> (r: bool)
    ensures
        r == (sort_spec(marker.file_hashes.deep_view()) == sort_spec(fingerprint.deep_view())),
{
    let stored = sort_tokens(&marker.file_hashes);
    let current = sort_tokens(fingerprint);
    tokens_equal(&stored, &current)
}

/// Cache correctness, order independence: a marker matches a fingerprint —
/// their sorted token lists are equal — exactly when the two sides hold the
/// same tokens, duplicates counted, in whatever order either side keeps
/// them.
pub proof fn lemma_matches_order_independent(m: ProcessedMarker, fingerprint: Seq<Seq<char>>)
    ensures
        (sort_spec(m.file_hashes.deep_view()) == sort_spec(fingerprint))
            <==> m.file_hashes.deep_view().to_multiset() == fingerprint.to_multiset(),
{
    crate::fingerprint::lemma_sort_spec_eq_iff_same_tokens(m.file_hashes.deep_view(), fingerprint);
}

/// What the marker check yields: the stored id with the "unchanged" verdict
/// when the stored tokens, sorted, equal the current fingerprint; else no id
/// and a "must resolve" verdict. An absent marker is treated exactly like a
/// changed directory.
pub open spec fn check_processed_spec(
    marker: Option<ProcessedMarker>,
    current: Seq<Seq<char>>,
) -> (u32, bool) {
    match marker {
        Some(m) => if sort_spec(m.file_hashes.deep_view()) == current {
            (m.tmdb_id, true)
        } else {
            (0u32, false)
        },
        None => (0u32, false),
    }
}

/// Decides whether a directory is already resolved and unchanged: its stored
/// tokens, sorted, must equal the current fingerprint, which arrives sorted.
pub fn check_processed(marker: &Option<ProcessedMarker>, current: &Vec<String>) -> (r: (u32, bool))
    ensures
        r == check_processed_spec(*marker, current.deep_view()),
{
    match marker {
        Some(m) => {
            let stored = sort_tokens(&m.file_hashes);
            if tokens_equal(&stored, current) {
                (m.tmdb_id, true)
            } else {
                (0u32, false)
            }
        },
        None => (0u32, false),
    }
}

/// Idempotence of resolution: a run that resolved a directory to a set id
/// writes a marker holding that id and the fingerprint it computed. A later
/// run over the unchanged directory computes the same fingerprint — the
/// fingerprint is a function of the files' modification times alone — and
/// the marker check then hands back the stored id with the "unchanged"
/// verdict, so the later run resolves nothing over the network.
pub proof fn lemma_second_run_skips_resolution(
    written: ProcessedMarker,
    stamps: Seq<crate::fingerprint::FileStamp>,
)
    requires
        written.tmdb_id != 0,
        written.file_hashes.deep_view() == crate::fingerprint::fingerprint_spec(stamps),
    ensures
        check_processed_spec(Some(written), crate::fingerprint::fingerprint_spec(stamps)) == (
            written.tmdb_id,
            true,
        ),
        check_processed_spec(Some(written), crate::fingerprint::fingerprint_spec(stamps)).0 != 0,
{
    let tokens = crate::fingerprint::tokens_of(stamps);
    crate::fingerprint::lemma_sort_spec_props(tokens);
    crate::fingerprint::lemma_sort_spec_identity_on_sorted(sort_spec(tokens));
}

/// How one character is written inside a JSON string: quote, backslash and
/// the named control characters are escaped, other control characters are
/// written as a universal escape, everything else stands as itself.
pub open spec fn esc_char(c: char) -> Seq<char> {
    if c == '"' {
        seq!['\\', '"']
    } else if c == '\\' {
        seq!['\\', '\\']
    } else if c == '\n' {
        seq!['\\', 'n']
    } else if c == '\r' {
        seq!['\\', 'r']
    } else if c == '\t' {
        seq!['\\', 't']
    } else if (c as u32) < 32 {
        seq!['\\', 'u', '0', '0'] + seq![
            hex_digit_char((c as u32 / 16) as nat),
            hex_digit_char((c as u32 % 16) as nat),
        ]
    } else {
        seq![c]
    }
}

/// A whole string escaped for JSON.
pub open spec fn esc_str(s: Seq<char>) -> Seq<char>
    decreases s.len(),
{
    if s.len() == 0 {
        Seq::empty()
    } else {
        esc_str(s.drop_last()) + esc_char(s.last())
    }
}

/// Appends `s`, escaped for a JSON string, to `out`.
fn append_escaped(out: &mut String, s: &str)
    ensures
        final(out)@ == old(out)@ + esc_str(s@),
{
    let len = s.unicode_len();
    let mut i: usize = 0;
    while i < len
        invariant
            0 <= i <= len,
            len == s@.len(),
            out@ == old(out)@ + esc_str(s@.take(i as int)),
        decreases len - i,
    {
        let c = s.get_char(i);
        if c == '"' {
            out.append("\\\"");
            proof {
                reveal_strlit("\\\"");
            }
        } else if c == '\\' {
            out.append("\\\\");
            proof {
                reveal_strlit("\\\\");
            }
        } else if c == '\n' {
            out.append("\\n");
            proof {
                reveal_strlit("\\n");
            }
        } else if c == '\r' {
            out.append("\\r");
            proof {
                reveal_strlit("\\r");
            }
        } else if c == '\t' {
            out.append("\\t");
            proof {
                reveal_strlit("\\t");
            }
        } else if (c as u32) < 32 {
            out.append("\\u00");
            out.append(crate::fingerprint::hex_digit_str((c as u32 / 16) as u8));
            out.append(crate::fingerprint::hex_digit_str((c as u32 % 16) as u8));
            proof {
                reveal_strlit("\\u00");
            }
        } else {
            out.append(s.substring_char(i, i + 1));
            proof {
                assert(s@.subrange(i as int, i + 1) =~= seq![s@[i as int]]);
            }
        }
        proof {
            assert(s@.take(i + 1).drop_last() =~= s@.take(i as int));
            assert(s@.take(i + 1).last() == s@[i as int]);
            assert(out@ =~= old(out)@ + esc_str(s@.take(i + 1)));
        }
        i = i + 1;
    }
    proof {
        assert(s@.take(len as int) =~= s@);
    }
}

/// The first `n` tokens as quoted, escaped JSON strings, comma-separated.
pub open spec fn tokens_json_upto(tokens: Seq<Seq<char>>, n: nat) -> Seq<char>
    decreases n,
{
    if n == 0 {
        Seq::empty()
    } else if n == 1 {
        seq!['"'] + esc_str(tokens[0]) + seq!['"']
    } else {
        tokens_json_upto(tokens, (n - 1) as nat) + seq![',', '"'] + esc_str(tokens[n - 1])
            + seq!['"']
    }
}

/// The marker file's content for a marker: one JSON object holding the
/// resolved id and the fingerprint tokens.
pub open spec fn marker_json_spec(m: ProcessedMarker) -> Seq<char> {
    "{\"tmdb_id\":"@ + dec_rep(m.tmdb_id as nat) + ",\"file_hashes\":["@ + tokens_json_upto(
        m.file_hashes.deep_view(),
        m.file_hashes.deep_view().len(),
    ) + "]}"@
}

/// Renders the marker file's content: a JSON object with the resolved id and
/// the fingerprint tokens, exactly as `marker_json_spec` states it.
pub fn render_marker_json(m: &ProcessedMarker) -> (r: String)
    ensures
        r@ == marker_json_spec(*m),
{
    let mut out = String::new();
    out.append("{\"tmdb_id\":");
    crate::text::append_u32(&mut out, m.tmdb_id);
    out.append(",\"file_hashes\":[");
    let ghost head = out@;
    let ghost views = m.file_hashes.deep_view();
    let n = m.file_hashes.len();
    let mut i: usize = 0;
    while i < n
        invariant
            0 <= i <= n,
            n == m.file_hashes@.len(),
            views == m.file_hashes.deep_view(),
            out@ == head + tokens_json_upto(views, i as nat),
        decreases n - i,
    {
        if i > 0 {
            out.append(",");
            proof {
                reveal_strlit(",");
            }
        }
        out.append("\"");
        append_escaped(&mut out, m.file_hashes[i].as_str());
        out.append("\"");
        proof {
            reveal_strlit("\"");
            assert(views[i as int] == m.file_hashes@[i as int]@);
            assert(out@ =~= head + tokens_json_upto(views, (i + 1) as nat));
        }
        i = i + 1;
    }
    out.append("]}");
    proof {
        assert(views.len() == n);
        assert(out@ =~= marker_json_spec(*m));
    }
    out
}

} // verus!
