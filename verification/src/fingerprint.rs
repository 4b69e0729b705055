//! Content fingerprinting: one identity token per file of a directory,
//! derived from the file's modification time, and the sorted token list that
//! represents the directory's content state.
//!
//! Reading the modification times is the caller's concern; everything from
//! the times to the finished fingerprint is computed and verified here.
use vstd::prelude::*;
use vstd::multiset::Multiset;

use sha2::Digest;

use crate::text::dec_rep;

verus! {

/// The modification time of one regular file, as seconds and nanoseconds
/// since the epoch.
#[derive(Debug, Clone, Copy, PartialEq, Eq, Structural)]
pub struct FileStamp {
    pub secs: u64,
    pub nanos: u32,
}

/// What sha2's SHA-256 yields on the given bytes.
pub uninterp spec fn sha256_of(data: Seq<u8>) -> Seq<u8>;

/// Relies on sha2::Sha256: the digest depends on the input bytes alone, and
/// is 32 bytes long.
#[verifier::external_body]
fn sha256_digest(data: &[u8]) -> (r: Vec<u8>)
    ensures
        r@ == sha256_of(data@),
        r@.len() == 32,
{
    sha2::Sha256::digest(data).to_vec()
}

/// The character for a hexadecimal digit value, lower case.
pub open spec fn hex_digit_char(d: nat) -> char
    recommends
        d < 16,
{
    if d < 10 {
        crate::text::digit_char(d)
    } else if d == 10 {
        'a'
    } else if d == 11 {
        'b'
    } else if d == 12 {
        'c'
    } else if d == 13 {
        'd'
    } else if d == 14 {
        'e'
    } else {
        'f'
    }
}

/// The lower-case hexadecimal rendering of bytes, two digits per byte.
pub open spec fn hex_of(data: Seq<u8>) -> Seq<char>
    decreases data.len(),
{
    if data.len() == 0 {
        Seq::empty()
    } else {
        hex_of(data.drop_last()) + seq![
            hex_digit_char((data.last() / 16) as nat),
            hex_digit_char((data.last() % 16) as nat),
        ]
    }
}

/// One-character string for a hexadecimal digit value.
pub(crate) fn hex_digit_str(d: u8) -> (r: &'static str)
    requires
        d < 16,
    ensures
        r@ == seq![hex_digit_char(d as nat)],
{
    proof {
        reveal_strlit("a");
        reveal_strlit("b");
        reveal_strlit("c");
        reveal_strlit("d");
        reveal_strlit("e");
        reveal_strlit("f");
    }
    if d < 10 {
        crate::text::digit_str(d as u32)
    } else if d == 10 {
        "a"
    } else if d == 11 {
        "b"
    } else if d == 12 {
        "c"
    } else if d == 13 {
        "d"
    } else if d == 14 {
        "e"
    } else {
        "f"
    }
}

/// Renders bytes as lower-case hexadecimal, two digits per byte.
pub fn to_hex(data: &Vec<u8>) -> (r: String)
    ensures
        r@ == hex_of(data@),
{
    let mut out = String::new();
    let n = data.len();
    let mut i: usize = 0;
    while i < n
        invariant
            0 <= i <= n,
            n == data@.len(),
            out@ == hex_of(data@.take(i as int)),
        decreases n - i,
    {
        let b = data[i];
        out.append(hex_digit_str(b / 16));
        out.append(hex_digit_str(b % 16));
        proof {
            assert(data@.take(i + 1).drop_last() =~= data@.take(i as int));
            assert(data@.take(i + 1).last() == data@[i as int]);
            assert(out@ =~= hex_of(data@.take(i + 1)));
        }
        i = i + 1;
    }
    proof {
        assert(data@.take(n as int) =~= data@);
    }
    out
}

/// The decimal digits of `n` as ASCII bytes, most significant first.
pub open spec fn dec_bytes(n: nat) -> Seq<u8>
    decreases n,
{
    if n < 10 {
        seq![(48 + n) as u8]
    } else {
        dec_bytes(n / 10).push((48 + n % 10) as u8)
    }
}

/// Appends the decimal digits of `n`, as ASCII bytes, to `out`.
fn append_dec_bytes(out: &mut Vec<u8>, n: u64)
    ensures
        final(out)@ == old(out)@ + dec_bytes(n as nat),
    decreases n,
{
    if n < 10 {
        out.push(48 + n as u8);
    } else {
        append_dec_bytes(out, n / 10);
        out.push(48 + (n % 10) as u8);
    }
}

/// The identity token of a file: the hexadecimal SHA-256 digest of its
/// modification time's seconds and nanoseconds, written in decimal and
/// concatenated.
pub open spec fn stamp_token(st: FileStamp) -> Seq<char> {
    hex_of(sha256_of(dec_bytes(st.secs as nat) + dec_bytes(st.nanos as nat)))
}

/// Computes the identity token of one file from its modification time.
pub fn hash_token(stamp: &FileStamp) -> (r: String)
    ensures
        r@ == stamp_token(*stamp),
        r@.len() == 64,
{
    let mut bytes: Vec<u8> = Vec::new();
    append_dec_bytes(&mut bytes, stamp.secs);
    append_dec_bytes(&mut bytes, stamp.nanos as u64);
    proof {
        assert(bytes@ =~= dec_bytes(stamp.secs as nat) + dec_bytes(stamp.nanos as nat));
    }
    let digest = sha256_digest(bytes.as_slice());
    proof {
        lemma_hex_len(digest@);
    }
    to_hex(&digest)
}

proof fn lemma_hex_len(data: Seq<u8>)
    ensures
        hex_of(data).len() == 2 * data.len(),
    decreases data.len(),
{
    if data.len() > 0 {
        lemma_hex_len(data.drop_last());
    }
}

/// Lexicographic order on character sequences, by code point, with a prefix
/// ordered before its extensions.
pub open spec fn lex_le(a: Seq<char>, b: Seq<char>) -> bool
    decreases a.len(),
{
    if a.len() == 0 {
        true
    } else if b.len() == 0 {
        false
    } else if (a[0] as u32) < (b[0] as u32) {
        true
    } else if (a[0] as u32) > (b[0] as u32) {
        false
    } else {
        lex_le(a.skip(1), b.skip(1))
    }
}

/// The lexicographic order is total.
proof fn lemma_lex_le_total(a: Seq<char>, b: Seq<char>)
    ensures
        lex_le(a, b) || lex_le(b, a),
    decreases a.len(),
{
    if a.len() > 0 && b.len() > 0 && (a[0] as u32) == (b[0] as u32) {
        lemma_lex_le_total(a.skip(1), b.skip(1));
    }
}

/// Whether `a` orders at or before `b` lexicographically.
pub fn str_lex_le(a: &str, b: &str) -> (r: bool)
    ensures
        r == lex_le(a@, b@),
{
    let alen = a.unicode_len();
    let blen = b.unicode_len();
    proof {
        assert(a@.skip(0) =~= a@);
        assert(b@.skip(0) =~= b@);
    }
    let mut i: usize = 0;
    while i < alen && i < blen
        invariant
            0 <= i,
            i <= alen,
            i <= blen,
            alen == a@.len(),
            blen == b@.len(),
            lex_le(a@, b@) == lex_le(a@.skip(i as int), b@.skip(i as int)),
            lex_le(b@, a@) == lex_le(b@.skip(i as int), a@.skip(i as int)),
        decreases alen - i,
    {
        let ca = a.get_char(i);
        let cb = b.get_char(i);
        if (ca as u32) < (cb as u32) {
            return true;
        }
        if (ca as u32) > (cb as u32) {
            return false;
        }
        proof {
            assert(a@.skip(i as int).skip(1) =~= a@.skip(i + 1));
            assert(b@.skip(i as int).skip(1) =~= b@.skip(i + 1));
        }
        i = i + 1;
    }
    i == alen
}

/// The lexicographic order is transitive.
proof fn lemma_lex_le_trans(a: Seq<char>, b: Seq<char>, c: Seq<char>)
    requires
        lex_le(a, b),
        lex_le(b, c),
    ensures
        lex_le(a, c),
    decreases a.len(),
{
    if a.len() > 0 && b.len() > 0 && c.len() > 0 && (a[0] as u32) == (b[0] as u32) && (
    b[0] as u32) == (c[0] as u32) {
        lemma_lex_le_trans(a.skip(1), b.skip(1), c.skip(1));
    }
}

/// The lexicographic order is antisymmetric.
proof fn lemma_lex_le_antisym(a: Seq<char>, b: Seq<char>)
    requires
        lex_le(a, b),
        lex_le(b, a),
    ensures
        a == b,
    decreases a.len(),
{
    if a.len() == 0 {
        assert(b.len() == 0);
        assert(a =~= b);
    } else {
        assert(b.len() > 0);
        let x = a[0];
        let y = b[0];
        assert((x as u32) == (y as u32));
        assert(x == y) by {
            lemma_char_cast_injective(x, y);
        }
        lemma_lex_le_antisym(a.skip(1), b.skip(1));
        assert(a =~= seq![x] + a.skip(1));
        assert(b =~= seq![y] + b.skip(1));
    }
}

/// Two characters with the same code point are the same character.
proof fn lemma_char_cast_injective(c: char, d: char)
    requires
        c as u32 == d as u32,
    ensures
        c == d,
{
}

/// `x` inserted into the sorted sequence `s`, before the first element it
/// orders at or before.
pub open spec fn insert_sorted(x: Seq<char>, s: Seq<Seq<char>>) -> Seq<Seq<char>>
    decreases s.len(),
{
    if s.len() == 0 {
        seq![x]
    } else if lex_le(x, s[0]) {
        seq![x] + s
    } else {
        seq![s[0]] + insert_sorted(x, s.skip(1))
    }
}

/// The first `n` elements of `s`, sorted by insertion.
pub open spec fn sort_prefix(s: Seq<Seq<char>>, n: nat) -> Seq<Seq<char>>
    decreases n,
{
    if n == 0 {
        Seq::empty()
    } else {
        insert_sorted(s[n - 1], sort_prefix(s, (n - 1) as nat))
    }
}

/// `s` sorted lexicographically.
pub open spec fn sort_spec(s: Seq<Seq<char>>) -> Seq<Seq<char>> {
    sort_prefix(s, s.len())
}

proof fn lemma_insert_sorted_split(x: Seq<char>, s: Seq<Seq<char>>, j: int)
    requires
        0 <= j <= s.len(),
        forall|k: int| 0 <= k < j ==> !lex_le(x, #[trigger] s[k]),
    ensures
        insert_sorted(x, s) == s.take(j) + insert_sorted(x, s.skip(j)),
    decreases j,
{
    if j == 0 {
        assert(s.take(0) =~= Seq::<Seq<char>>::empty());
        assert(s.skip(0) =~= s);
        assert(s.take(0) + insert_sorted(x, s.skip(0)) =~= insert_sorted(x, s));
    } else {
        assert(!lex_le(x, s[0]));
        lemma_insert_sorted_split(x, s.skip(1), j - 1);
        assert(s.skip(1).take(j - 1) =~= s.take(j).skip(1));
        assert(s.skip(1).skip(j - 1) =~= s.skip(j));
        assert(insert_sorted(x, s) == seq![s[0]] + insert_sorted(x, s.skip(1)));
        assert(seq![s[0]] + (s.skip(1).take(j - 1) + insert_sorted(x, s.skip(j))) =~= s.take(j)
            + insert_sorted(x, s.skip(j)));
    }
}

/// Inserts `token` into the sorted vector `out`, keeping it sorted.
pub(crate) fn insert_token(out: &mut Vec<String>, token: String)
    ensures
        final(out).deep_view() == insert_sorted(token@, old(out).deep_view()),
{
    let ghost views = old(out).deep_view();
    let n = out.len();
    let mut j: usize = 0;
    while j < n && !str_lex_le(token.as_str(), out[j].as_str())
        invariant
            0 <= j <= n,
            n == out@.len(),
            *out == *old(out),
            views == old(out).deep_view(),
            forall|k: int| 0 <= k < j ==> !lex_le(token@, #[trigger] views[k]),
        decreases n - j,
    {
        j = j + 1;
    }
    proof {
        lemma_insert_sorted_split(token@, views, j as int);
        if j < n {
            assert(views.skip(j as int)[0] == views[j as int]);
            assert(insert_sorted(token@, views.skip(j as int)) == seq![token@] + views.skip(
                j as int,
            ));
        } else {
            assert(views.skip(j as int) =~= Seq::<Seq<char>>::empty());
        }
    }
    out.insert(j, token);
    proof {
        assert(out.deep_view() =~= insert_sorted(token@, views));
    }
}

/// The tokens of the given stamps, in order.
pub open spec fn tokens_of(stamps: Seq<FileStamp>) -> Seq<Seq<char>> {
    stamps.map_values(|st: FileStamp| stamp_token(st))
}

/// The fingerprint of a directory whose files have the given modification
/// times: one token per file, sorted lexicographically, so that the
/// fingerprint does not depend on enumeration order.
pub open spec fn fingerprint_spec(stamps: Seq<FileStamp>) -> Seq<Seq<char>> {
    sort_spec(tokens_of(stamps))
}

/// Computes the fingerprint: one identity token per file, sorted.
pub fn fingerprint(stamps: &Vec<FileStamp>) -> (r: Vec<String>)
    ensures
        r.deep_view() == fingerprint_spec(stamps@),
{
    let ghost toks = tokens_of(stamps@);
    let mut out: Vec<String> = Vec::new();
    let n = stamps.len();
    let mut i: usize = 0;
    proof {
        assert(out.deep_view() =~= sort_prefix(toks, 0));
    }
    while i < n
        invariant
            0 <= i <= n,
            n == stamps@.len(),
            toks == tokens_of(stamps@),
            out.deep_view() == sort_prefix(toks, i as nat),
        decreases n - i,
    {
        let token = hash_token(&stamps[i]);
        proof {
            assert(toks[i as int] == stamp_token(stamps@[i as int]));
        }
        insert_token(&mut out, token);
        i = i + 1;
    }
    proof {
        assert(toks.len() == n);
    }
    out
}

/// `s` is in lexicographic order.
pub open spec fn sorted_lex(s: Seq<Seq<char>>) -> bool {
    forall|i: int| 0 <= i < s.len() - 1 ==> lex_le(#[trigger] s[i], s[i + 1])
}

/// Insertion keeps the order and adds exactly the inserted element.
proof fn lemma_insert_sorted_props(x: Seq<char>, s: Seq<Seq<char>>)
    requires
        sorted_lex(s),
    ensures
        sorted_lex(insert_sorted(x, s)),
        insert_sorted(x, s).to_multiset() == s.to_multiset().insert(x),
        insert_sorted(x, s).len() == s.len() + 1,
    decreases s.len(),
{
    broadcast use vstd::seq_lib::group_to_multiset_ensures;
    broadcast use vstd::multiset::group_multiset_axioms;
    broadcast use vstd::multiset::lemma_multiset_empty_len;
    broadcast use vstd::seq_lib::lemma_multiset_commutative;

    if s.len() == 0 {
        assert(insert_sorted(x, s) == seq![x]);
        assert(seq![x] =~= Seq::<Seq<char>>::empty().push(x));
        assert(s.to_multiset().len() == 0);
        assert(s.to_multiset() =~= Multiset::<Seq<char>>::empty());
        assert(seq![x].to_multiset() =~= s.to_multiset().insert(x));
    } else if lex_le(x, s[0]) {
        let r = seq![x] + s;
        assert(insert_sorted(x, s) == r);
        assert(seq![x] =~= Seq::<Seq<char>>::empty().push(x));
        assert(r.to_multiset() =~= seq![x].to_multiset().add(s.to_multiset()));
        assert(r.to_multiset() =~= s.to_multiset().insert(x));
        assert forall|i: int| 0 <= i < r.len() - 1 implies lex_le(#[trigger] r[i], r[i + 1]) by {
            if i > 0 {
                assert(r[i] == s[i - 1] && r[i + 1] == s[i]);
            }
        }
    } else {
        lemma_lex_le_total(x, s[0]);
        assert(lex_le(s[0], x));
        let tail = s.skip(1);
        assert(sorted_lex(tail)) by {
            assert forall|i: int| 0 <= i < tail.len() - 1 implies lex_le(
                #[trigger] tail[i],
                tail[i + 1],
            ) by {
                assert(tail[i] == s[i + 1]);
                assert(tail[i + 1] == s[i + 2]);
            }
        }
        lemma_insert_sorted_props(x, tail);
        let ins = insert_sorted(x, tail);
        let r = seq![s[0]] + ins;
        assert(insert_sorted(x, s) == r);
        assert(seq![s[0]] =~= Seq::<Seq<char>>::empty().push(s[0]));
        assert(s =~= seq![s[0]] + tail);
        assert(r.to_multiset() =~= seq![s[0]].to_multiset().add(ins.to_multiset()));
        assert(s.to_multiset() =~= seq![s[0]].to_multiset().add(tail.to_multiset()));
        assert(r.to_multiset() =~= s.to_multiset().insert(x));
        // The head of the inserted tail is either `x` or the old second
        // element; the old head orders at or before both.
        assert(ins[0] == x || (tail.len() > 0 && ins[0] == tail[0]));
        assert(tail.len() > 0 ==> lex_le(s[0], tail[0]));
        assert forall|i: int| 0 <= i < r.len() - 1 implies lex_le(#[trigger] r[i], r[i + 1]) by {
            if i == 0 {
                assert(r[0] == s[0] && r[1] == ins[0]);
            } else {
                assert(r[i] == ins[i - 1] && r[i + 1] == ins[i]);
            }
        }
    }
}

proof fn lemma_sort_prefix_props(s: Seq<Seq<char>>, n: nat)
    requires
        n <= s.len(),
    ensures
        sorted_lex(sort_prefix(s, n)),
        sort_prefix(s, n).to_multiset() == s.take(n as int).to_multiset(),
        sort_prefix(s, n).len() == n,
    decreases n,
{
    broadcast use vstd::seq_lib::group_to_multiset_ensures;
    broadcast use vstd::multiset::group_multiset_axioms;
    broadcast use vstd::multiset::lemma_multiset_empty_len;

    if n == 0 {
        assert(s.take(0) =~= Seq::<Seq<char>>::empty());
        assert(sort_prefix(s, 0).to_multiset().len() == 0);
        assert(s.take(0).to_multiset().len() == 0);
        assert(sort_prefix(s, 0).to_multiset() =~= s.take(0).to_multiset());
    } else {
        lemma_sort_prefix_props(s, (n - 1) as nat);
        lemma_insert_sorted_props(s[n - 1], sort_prefix(s, (n - 1) as nat));
        assert(s.take(n as int) =~= s.take(n - 1).push(s[n - 1]));
        assert(s.take(n - 1).push(s[n - 1]).to_multiset() =~= s.take(n - 1).to_multiset().insert(
            s[n - 1],
        ));
    }
}

/// The sorted token list is a permutation of the tokens, in lexicographic
/// order.
pub proof fn lemma_sort_spec_props(s: Seq<Seq<char>>)
    ensures
        sorted_lex(sort_spec(s)),
        sort_spec(s).to_multiset() == s.to_multiset(),
        sort_spec(s).len() == s.len(),
{
    lemma_sort_prefix_props(s, s.len());
    assert(s.take(s.len() as int) =~= s);
}

/// In a sorted sequence every element orders at or before every later one.
proof fn lemma_sorted_pairwise(s: Seq<Seq<char>>, i: int, j: int)
    requires
        sorted_lex(s),
        0 <= i <= j < s.len(),
    ensures
        lex_le(s[i], s[j]),
    decreases j - i,
{
    if i < j {
        lemma_sorted_pairwise(s, i, j - 1);
        assert(lex_le(s[j - 1], s[j]));
        lemma_lex_le_trans(s[i], s[j - 1], s[j]);
    } else {
        lemma_lex_le_total(s[i], s[i]);
    }
}

/// Inserting an element that orders at or after everything in a sorted
/// sequence appends it.
proof fn lemma_insert_sorted_at_end(x: Seq<char>, t: Seq<Seq<char>>)
    requires
        sorted_lex(t),
        forall|k: int| 0 <= k < t.len() ==> lex_le(#[trigger] t[k], x),
    ensures
        insert_sorted(x, t) == t.push(x),
    decreases t.len(),
{
    if t.len() == 0 {
        assert(insert_sorted(x, t) =~= t.push(x));
    } else if lex_le(x, t[0]) {
        lemma_lex_le_antisym(x, t[0]);
        assert(x == t[0]);
        assert forall|k: int| 0 <= k < t.len() implies #[trigger] t[k] == x by {
            lemma_sorted_pairwise(t, 0, k);
            lemma_lex_le_antisym(t[k], x);
        }
        assert(seq![x] + t =~= t.push(x));
    } else {
        let tail = t.skip(1);
        assert(sorted_lex(tail)) by {
            assert forall|i: int| 0 <= i < tail.len() - 1 implies lex_le(
                #[trigger] tail[i],
                tail[i + 1],
            ) by {
                assert(tail[i] == t[i + 1]);
                assert(tail[i + 1] == t[i + 2]);
            }
        }
        assert(forall|k: int| 0 <= k < tail.len() ==> #[trigger] tail[k] == t[k + 1]);
        lemma_insert_sorted_at_end(x, tail);
        assert(seq![t[0]] + tail.push(x) =~= t.push(x));
    }
}

/// Two sorted sequences holding the same elements, duplicates counted, are
/// the same sequence.
proof fn lemma_sorted_multiset_unique(r1: Seq<Seq<char>>, r2: Seq<Seq<char>>)
    requires
        sorted_lex(r1),
        sorted_lex(r2),
        r1.to_multiset() == r2.to_multiset(),
    ensures
        r1 == r2,
    decreases r1.len(),
{
    broadcast use vstd::seq_lib::group_to_multiset_ensures;

    if r1.len() == 0 {
        assert(r2.len() == 0);
        assert(r1 =~= r2);
    } else {
        assert(r1.len() == r1.to_multiset().len());
        assert(r2.len() == r2.to_multiset().len());
        assert(r2.len() == r1.len());
        assert(r1.to_multiset().count(r1[0]) > 0);
        assert(r2.contains(r1[0]));
        let j = choose|j: int| 0 <= j < r2.len() && r2[j] == r1[0];
        lemma_sorted_pairwise(r2, 0, j);
        assert(lex_le(r2[0], r1[0]));
        assert(r1.to_multiset().count(r2[0]) > 0);
        assert(r1.contains(r2[0]));
        let k = choose|k: int| 0 <= k < r1.len() && r1[k] == r2[0];
        lemma_sorted_pairwise(r1, 0, k);
        assert(lex_le(r1[0], r2[0]));
        lemma_lex_le_antisym(r1[0], r2[0]);
        assert(r1[0] == r2[0]);
        let t1 = r1.skip(1);
        let t2 = r2.skip(1);
        assert(t1 =~= r1.remove(0));
        assert(t2 =~= r2.remove(0));
        assert(t1.to_multiset() =~= r1.to_multiset().remove(r1[0]));
        assert(t2.to_multiset() =~= r2.to_multiset().remove(r2[0]));
        assert(sorted_lex(t1)) by {
            assert forall|i: int| 0 <= i < t1.len() - 1 implies lex_le(
                #[trigger] t1[i],
                t1[i + 1],
            ) by {
                assert(t1[i] == r1[i + 1]);
                assert(t1[i + 1] == r1[i + 2]);
            }
        }
        assert(sorted_lex(t2)) by {
            assert forall|i: int| 0 <= i < t2.len() - 1 implies lex_le(
                #[trigger] t2[i],
                t2[i + 1],
            ) by {
                assert(t2[i] == r2[i + 1]);
                assert(t2[i + 1] == r2[i + 2]);
            }
        }
        lemma_sorted_multiset_unique(t1, t2);
        assert forall|i: int| 0 <= i < r1.len() implies r1[i] == r2[i] by {
            if i > 0 {
                assert(r1[i] == t1[i - 1]);
                assert(r2[i] == t2[i - 1]);
            }
        }
        assert(r1 =~= r2);
    }
}

/// Order independence: two token lists sort to the same sequence exactly
/// when they hold the same tokens, duplicates counted.
pub(crate) proof fn lemma_sort_spec_eq_iff_same_tokens(a: Seq<Seq<char>>, b: Seq<Seq<char>>)
    ensures
        sort_spec(a) == sort_spec(b) <==> a.to_multiset() == b.to_multiset(),
{
    lemma_sort_spec_props(a);
    lemma_sort_spec_props(b);
    if a.to_multiset() == b.to_multiset() {
        lemma_sorted_multiset_unique(sort_spec(a), sort_spec(b));
    }
}

/// Sorting a sequence that is already in order leaves it as it is.
pub proof fn lemma_sort_spec_identity_on_sorted(s: Seq<Seq<char>>)
    requires
        sorted_lex(s),
    ensures
        sort_spec(s) == s,
{
    assert forall|n: int| 0 <= n <= s.len() implies sort_prefix(s, n as nat) == s.take(n) by {
        lemma_sort_prefix_take(s, n as nat);
    }
    assert(s.take(s.len() as int) =~= s);
}

proof fn lemma_sort_prefix_take(s: Seq<Seq<char>>, n: nat)
    requires
        sorted_lex(s),
        n <= s.len(),
    ensures
        sort_prefix(s, n) == s.take(n as int),
    decreases n,
{
    if n == 0 {
        assert(sort_prefix(s, 0) =~= s.take(0));
    } else {
        lemma_sort_prefix_take(s, (n - 1) as nat);
        let front = s.take(n - 1);
        assert(sorted_lex(front)) by {
            assert(forall|i: int|
                0 <= i < front.len() - 1 ==> #[trigger] front[i] == s[i] && front[i + 1] == s[
                    i + 1
                ]);
        }
        assert forall|k: int| 0 <= k < front.len() implies lex_le(#[trigger] front[k], s[n - 1]) by {
            lemma_sorted_pairwise(s, k, n - 1);
        }
        lemma_insert_sorted_at_end(s[n - 1], front);
        assert(s.take(n - 1).push(s[n - 1]) =~= s.take(n as int));
    }
}

/// Fingerprint determinism: the fingerprint is a function of the files'
/// modification times alone, so any two computations over an unchanged
/// directory agree.
pub proof fn lemma_fingerprint_deterministic(
    stamps: Seq<FileStamp>,
    r1: Seq<Seq<char>>,
    r2: Seq<Seq<char>>,
)
    requires
        r1 == fingerprint_spec(stamps),
        r2 == fingerprint_spec(stamps),
    ensures
        r1 == r2,
{
}

} // verus!
