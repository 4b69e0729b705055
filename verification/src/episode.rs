//! Filename parser: extracts season and episode numbers from a media file
//! name.
//!
//! Rule groups are tried first: a group is attempted only when its label is a
//! literal substring of the name, and within an attempted group each pattern
//! is tried in declared order. When no group rule decides, a generic scan
//! recognizes `S<nn>E<nn>` (case-insensitive) or, failing that, takes the
//! first bare one- or two-digit number as the episode. Numeric captures are
//! zero-padded to two digits; the season defaults to "01" when only an
//! episode is found.
use vstd::prelude::*;

use crate::text::{all_digits, contains_sub, contains_substring, is_digit_char};

verus! {

/// `s` zero-padded on the left to at least two characters.
pub open spec fn pad2(s: Seq<char>) -> Seq<char> {
    if s.len() >= 2 {
        s
    } else if s.len() == 1 {
        seq!['0'] + s
    } else {
        seq!['0', '0']
    }
}

/// Zero-pads a captured number to at least two characters.
fn pad2_str(s: &str) -> (r: String)
    ensures
        r@ == pad2(s@),
{
    let len = s.unicode_len();
    if len >= 2 {
        String::from_str(s)
    } else if len == 1 {
        let mut out = String::new();
        out.append("0");
        out.append(s);
        proof {
            reveal_strlit("0");
            assert(out@ =~= pad2(s@));
        }
        out
    } else {
        let out = String::from_str("00");
        proof {
            reveal_strlit("00");
            assert(out@ =~= pad2(s@));
        }
        out
    }
}

/// The season default used when a rule or the generic scan captures only an
/// episode number.
pub open spec fn default_season() -> Seq<char> {
    seq!['0', '1']
}

/// The default season as a string.
fn default_season_str() -> (r: String)
    ensures
        r@ == default_season(),
{
    let out = String::from_str("01");
    proof {
        reveal_strlit("01");
        assert(out@ =~= default_season());
    }
    out
}

/// A season marker character.
pub open spec fn is_s_char(c: char) -> bool {
    c == 's' || c == 'S'
}

/// An episode marker character.
pub open spec fn is_e_char(c: char) -> bool {
    c == 'e' || c == 'E'
}

/// The bare number starting at position `j`: one digit, or two when a second
/// digit follows at once.
pub open spec fn ep_at(f: Seq<char>, j: int) -> Option<Seq<char>> {
    if 0 <= j < f.len() && is_digit_char(f[j]) {
        if j + 1 < f.len() && is_digit_char(f[j + 1]) {
            Some(f.subrange(j, j + 2))
        } else {
            Some(f.subrange(j, j + 1))
        }
    } else {
        None
    }
}

/// The `S<nn>E<nn>` match anchored at position `i`, if any: a season marker,
/// one or two season digits (two preferred), an episode marker, and one or
/// two episode digits (two preferred). Yields the raw season and episode
/// digits.
pub open spec fn se_at(f: Seq<char>, i: int) -> Option<(Seq<char>, Seq<char>)> {
    if !(0 <= i < f.len() && is_s_char(f[i])) {
        None
    } else if i + 2 < f.len() && is_digit_char(f[i + 1]) && is_digit_char(f[i + 2]) && i + 3
        < f.len() && is_e_char(f[i + 3]) && ep_at(f, i + 4) is Some {
        Some((f.subrange(i + 1, i + 3), ep_at(f, i + 4)->Some_0))
    } else if i + 1 < f.len() && is_digit_char(f[i + 1]) && i + 2 < f.len() && is_e_char(f[i + 2])
        && ep_at(f, i + 3) is Some {
        Some((f.subrange(i + 1, i + 2), ep_at(f, i + 3)->Some_0))
    } else {
        None
    }
}

/// The generic scan from position `i` on: at each position, an `S<nn>E<nn>`
/// match is preferred, then a bare number as the episode with the season
/// defaulted; the leftmost position with either decides.
pub open spec fn generic_from(f: Seq<char>, i: int) -> Option<(Seq<char>, Seq<char>)>
    decreases f.len() - i,
{
    if !(0 <= i < f.len()) {
        None
    } else if se_at(f, i) is Some {
        let (s, e) = se_at(f, i)->Some_0;
        Some((pad2(s), pad2(e)))
    } else if ep_at(f, i) is Some {
        Some((default_season(), pad2(ep_at(f, i)->Some_0)))
    } else {
        generic_from(f, i + 1)
    }
}

/// What the generic scan of the whole name yields.
pub open spec fn generic_parse(f: Seq<char>) -> Option<(Seq<char>, Seq<char>)> {
    generic_from(f, 0)
}

/// The bare number starting at `j`, as its end position.
fn ep_at_exec(f: &str, j: usize, len: usize) -> (r: Option<usize>)
    requires
        len == f@.len(),
        j < len,
    ensures
        match r {
            Some(end) => ep_at(f@, j as int) == Some(f@.subrange(j as int, end as int)) && j < end
                <= len,
            None => ep_at(f@, j as int) is None,
        },
{
    let c = f.get_char(j);
    if 48 <= c as u32 && c as u32 <= 57 {
        if j + 1 < len {
            let c2 = f.get_char(j + 1);
            if 48 <= c2 as u32 && c2 as u32 <= 57 {
                return Some(j + 2);
            }
        }
        Some(j + 1)
    } else {
        None
    }
}

/// The `S<nn>E<nn>` match anchored at `i`, as the ranges of the season and
/// episode digits.
fn se_at_exec(f: &str, i: usize, len: usize) -> (r: Option<(usize, usize, usize, usize)>)
    requires
        len == f@.len(),
        i < len,
    ensures
        match r {
            Some((s0, s1, e0, e1)) => se_at(f@, i as int) == Some(
                (f@.subrange(s0 as int, s1 as int), f@.subrange(e0 as int, e1 as int)),
            ) && i < s0 <= s1 <= e0 <= e1 <= len,
            None => se_at(f@, i as int) is None,
        },
{
    let c = f.get_char(i);
    if !(c == 's' || c == 'S') {
        return None;
    }
    let mut d1 = false;
    if i + 1 < len {
        let c1 = f.get_char(i + 1);
        d1 = 48 <= c1 as u32 && c1 as u32 <= 57;
    }
    if !d1 {
        return None;
    }
    let mut d2 = false;
    if i + 2 < len {
        let c2 = f.get_char(i + 2);
        d2 = 48 <= c2 as u32 && c2 as u32 <= 57;
    }
    if d2 {
        if i + 3 < len {
            let c3 = f.get_char(i + 3);
            if c3 == 'e' || c3 == 'E' {
                if i + 4 < len {
                    match ep_at_exec(f, i + 4, len) {
                        Some(end) => {
                            return Some((i + 1, i + 3, i + 4, end));
                        },
                        None => {},
                    }
                }
            }
        }
        // A two-digit season not followed by an episode marker cannot fall
        // back to one digit: the next character is a digit, not a marker.
        return None;
    }
    if i + 2 < len {
        let c2 = f.get_char(i + 2);
        if c2 == 'e' || c2 == 'E' {
            if i + 3 < len {
                match ep_at_exec(f, i + 3, len) {
                    Some(end) => {
                        return Some((i + 1, i + 2, i + 3, end));
                    },
                    None => {},
                }
            }
        }
    }
    None
}

/// A capture a rule may use: one or two decimal digits, as the season and
/// episode numbers are.
pub open spec fn numeric_capture(s: Seq<char>) -> bool {
    1 <= s.len() <= 2 && all_digits(s)
}

/// Whether a captured text is a usable numeric capture.
fn is_numeric_capture(s: &str) -> (r: bool)
    ensures
        r == numeric_capture(s@),
{
    let len = s.unicode_len();
    if len < 1 || len > 2 {
        return false;
    }
    let c0 = s.get_char(0);
    if !(48 <= c0 as u32 && c0 as u32 <= 57) {
        return false;
    }
    if len == 2 {
        let c1 = s.get_char(1);
        if !(48 <= c1 as u32 && c1 as u32 <= 57) {
            return false;
        }
    }
    proof {
        assert forall|k: int| 0 <= k < s@.len() implies is_digit_char(#[trigger] s@[k]) by {
            if k == 0 {
            } else {
                assert(k == 1);
            }
        }
    }
    true
}

/// Zero-padding a numeric capture yields exactly two digits.
proof fn lemma_pad2_shape(s: Seq<char>)
    requires
        numeric_capture(s),
    ensures
        pad2(s).len() == 2,
        all_digits(pad2(s)),
{
    if s.len() == 1 {
        assert(pad2(s) == seq!['0'] + s);
        assert forall|k: int| 0 <= k < pad2(s).len() implies is_digit_char(#[trigger] pad2(s)[k]) by {
            if k == 0 {
                assert(pad2(s)[0] == '0');
            } else {
                assert(pad2(s)[k] == s[k - 1]);
            }
        }
    }
}

/// The default season is two digits.
proof fn lemma_default_season_shape()
    ensures
        default_season().len() == 2,
        all_digits(default_season()),
{
    assert forall|k: int| 0 <= k < default_season().len() implies is_digit_char(
        #[trigger] default_season()[k],
    ) by {
        if k == 0 {
            assert(default_season()[0] == '0');
        } else {
            assert(default_season()[1] == '1');
        }
    }
}

/// Whether the pattern is a valid regular expression, as regex::Regex::new
/// decides it.
pub uninterp spec fn pattern_compiles(pattern: Seq<char>) -> bool;

/// What regex::Regex::captures yields for a pattern on a text: nothing when
/// the pattern matches nowhere, else the capture groups of the leftmost
/// match, in order, each one either its captured text or absent.
pub uninterp spec fn captures_of(pattern: Seq<char>, text: Seq<char>) -> Option<
    Seq<Option<Seq<char>>>,
>;

/// Relies on regex::Regex::new: whether a pattern is a valid expression
/// depends on the pattern alone.
#[verifier::external_body]
fn regex_compiles(pattern: &str) -> (r: bool)
    ensures
        r == pattern_compiles(pattern@),
{
    regex::Regex::new(pattern).is_ok()
}

/// Relies on regex::Regex::captures: the leftmost match, and what each of its
/// capture groups took, depend on the pattern and the text alone. The capture
/// groups are handed out in order, without the implicit whole-match group.
#[verifier::external_body]
fn regex_captures(pattern: &str, text: &str) -> (r: Option<Vec<Option<String>>>)
    requires
        pattern_compiles(pattern@),
    ensures
        r.deep_view() == captures_of(pattern@, text@),
{
    let re = regex::Regex::new(pattern).unwrap();
    re.captures(text).map(|caps| {
        (1..caps.len()).map(|g| caps.get(g).map(|m| m.as_str().to_string())).collect()
    })
}

/// One rule group: a label and the patterns tried, in order, on file names
/// that contain the label.
pub struct RuleGroup {
    label: String,
    patterns: Vec<String>,
}

/// A rule set: the groups tried, in order, before the generic scan.
pub struct RuleSet {
    groups: Vec<RuleGroup>,
}

/// What one group's patterns, tried in declared order, yield on a file name:
/// the first pattern that matches with usable numeric captures decides — two
/// captured numbers are season and episode, a single captured number is the
/// episode with the season defaulted, both zero-padded. A match whose needed
/// groups are absent, or whose captures are not one- or two-digit numbers,
/// is passed over.
pub open spec fn group_parse(patterns: Seq<Seq<char>>, f: Seq<char>) -> Option<
    (Seq<char>, Seq<char>),
>
    decreases patterns.len(),
{
    if patterns.len() == 0 {
        None
    } else {
        let caps = captures_of(patterns[0], f);
        if caps is Some {
            let groups = caps->Some_0;
            if groups.len() >= 2 && groups[0] is Some && numeric_capture(groups[0]->Some_0)
                && groups[1] is Some && numeric_capture(groups[1]->Some_0) {
                Some((pad2(groups[0]->Some_0), pad2(groups[1]->Some_0)))
            } else if groups.len() == 1 && groups[0] is Some && numeric_capture(
                groups[0]->Some_0,
            ) {
                Some((default_season(), pad2(groups[0]->Some_0)))
            } else {
                group_parse(patterns.skip(1), f)
            }
        } else {
            group_parse(patterns.skip(1), f)
        }
    }
}

/// What the rule groups, tried in order, yield on a file name: the first
/// group whose label occurs in the name and whose patterns decide wins.
pub open spec fn rules_parse(groups: Seq<RuleGroup>, f: Seq<char>) -> Option<(Seq<char>, Seq<char>)>
    decreases groups.len(),
{
    if groups.len() == 0 {
        None
    } else if contains_sub(f, groups[0].label_view()) && group_parse(
        groups[0].patterns_view(),
        f,
    ) is Some {
        group_parse(groups[0].patterns_view(), f)
    } else {
        rules_parse(groups.skip(1), f)
    }
}

/// What a whole rule set yields on a file name: the rule groups first, the
/// generic scan as the last resort.
pub open spec fn parse_spec(groups: Seq<RuleGroup>, f: Seq<char>) -> Option<(Seq<char>, Seq<char>)> {
    match rules_parse(groups, f) {
        Some(r) => Some(r),
        None => generic_parse(f),
    }
}

impl RuleGroup {
    /// The group's label.
    pub closed spec fn label_view(&self) -> Seq<char> {
        self.label@
    }

    /// The group's patterns, in declared order.
    pub closed spec fn patterns_view(&self) -> Seq<Seq<char>> {
        self.patterns.deep_view()
    }

    /// Every pattern of the group is a valid expression.
    pub open spec fn wf(&self) -> bool {
        forall|k: int|
            0 <= k < self.patterns_view().len() ==> pattern_compiles(
                #[trigger] self.patterns_view()[k],
            )
    }

    /// Builds a group after checking each pattern; a group with any invalid
    /// pattern is refused.
    pub fn new(label: String, patterns: Vec<String>) -> (r: Option<RuleGroup>)
        ensures
            r is Some <==> (forall|k: int|
                0 <= k < patterns.deep_view().len() ==> pattern_compiles(
                    #[trigger] patterns.deep_view()[k],
                )),
            r matches Some(g) ==> g.wf() && g.label_view() == label@ && g.patterns_view()
                == patterns.deep_view(),
    {
        let n = patterns.len();
        let mut k: usize = 0;
        while k < n
            invariant
                0 <= k <= n,
                n == patterns@.len(),
                forall|j: int|
                    0 <= j < k ==> pattern_compiles(#[trigger] patterns.deep_view()[j]),
            decreases n - k,
        {
            if !regex_compiles(patterns[k].as_str()) {
                proof {
                    assert(!pattern_compiles(patterns.deep_view()[k as int]));
                }
                return None;
            }
            k = k + 1;
        }
        Some(RuleGroup { label, patterns })
    }
}

impl RuleSet {
    /// The groups of the set, in the order they are tried.
    pub closed spec fn groups_view(&self) -> Seq<RuleGroup> {
        self.groups@
    }

    /// Every group of the set is well formed.
    pub open spec fn wf(&self) -> bool {
        forall|k: int| 0 <= k < self.groups_view().len() ==> (#[trigger] self.groups_view()[k]).wf()
    }

    /// An empty rule set: only the generic scan will apply.
    pub fn new() -> (r: RuleSet)
        ensures
            r.groups_view() == Seq::<RuleGroup>::empty(),
            r.wf(),
    {
        RuleSet { groups: Vec::new() }
    }

    /// Appends a group, which will be tried after the ones already present.
    pub fn push_group(&mut self, g: RuleGroup)
        requires
            old(self).wf(),
            g.wf(),
        ensures
            final(self).groups_view() == old(self).groups_view().push(g),
            final(self).wf(),
    {
        self.groups.push(g);
        proof {
            assert forall|k: int| 0 <= k < self.groups_view().len() implies (
            #[trigger] self.groups_view()[k]).wf() by {
                if k < old(self).groups_view().len() {
                    assert(self.groups_view()[k] == old(self).groups_view()[k]);
                } else {
                    assert(self.groups_view()[k] == g);
                }
            }
        }
    }

    /// Parses a file name against this rule set: the groups in order, then
    /// the generic scan. A result always holds two two-digit numbers.
    pub fn parse(&self, filename: &str) -> (r: Option<(String, String)>)
        requires
            self.wf(),
        ensures
            match parse_spec(self.groups_view(), filename@) {
                Some(p) => r matches Some(q) && q.0@ == p.0 && q.1@ == p.1,
                None => r is None,
            },
            r matches Some(q) ==> q.0@.len() == 2 && all_digits(q.0@) && q.1@.len() == 2
                && all_digits(q.1@),
    {
        let ghost gviews = self.groups_view();
        proof {
            assert(gviews.skip(0) =~= gviews);
        }
        let ngroups = self.groups.len();
        let mut gi: usize = 0;
        while gi < ngroups
            invariant
                0 <= gi <= ngroups,
                ngroups == self.groups@.len(),
                gviews == self.groups_view(),
                self.wf(),
                rules_parse(gviews, filename@) == rules_parse(gviews.skip(gi as int), filename@),
            decreases ngroups - gi,
        {
            let g = &self.groups[gi];
            proof {
                assert(gviews.skip(gi as int)[0] == gviews[gi as int]);
                assert(gviews.skip(gi as int).skip(1) =~= gviews.skip(gi + 1));
            }
            if contains_substring(filename, g.label.as_str()) {
                let ghost pviews = g.patterns_view();
                proof {
                    assert(pviews.skip(0) =~= pviews);
                }
                let npats = g.patterns.len();
                let mut pi: usize = 0;
                while pi < npats
                    invariant
                        0 <= pi <= npats,
                        npats == g.patterns@.len(),
                        pviews == g.patterns_view(),
                        g.wf(),
                        0 <= gi < ngroups,
                        ngroups == self.groups@.len(),
                        gviews == self.groups_view(),
                        *g == gviews[gi as int],
                        contains_sub(filename@, g.label_view()),
                        rules_parse(gviews, filename@) == rules_parse(
                            gviews.skip(gi as int),
                            filename@,
                        ),
                        group_parse(pviews, filename@) == group_parse(
                            pviews.skip(pi as int),
                            filename@,
                        ),
                    decreases npats - pi,
                {
                    proof {
                        assert(pviews.skip(pi as int)[0] == pviews[pi as int]);
                        assert(pviews.skip(pi as int).skip(1) =~= pviews.skip(pi + 1));
                        assert(pattern_compiles(pviews[pi as int]));
                        assert(pviews[pi as int] == g.patterns@[pi as int]@);
                    }
                    match regex_captures(g.patterns[pi].as_str(), filename) {
                        Some(caps) => {
                            proof {
                                assert(captures_of(pviews[pi as int], filename@) == Some(
                                    caps.deep_view(),
                                ));
                            }
                            let ghost groups = caps.deep_view();
                            proof {
                                assert(groups.len() == caps@.len());
                                if caps@.len() >= 1 {
                                    assert(groups[0] == caps@[0].deep_view());
                                }
                                if caps@.len() >= 2 {
                                    assert(groups[1] == caps@[1].deep_view());
                                }
                            }
                            if caps.len() >= 2 {
                                let usable = match (&caps[0], &caps[1]) {
                                    (Some(a), Some(b)) => is_numeric_capture(a.as_str())
                                        && is_numeric_capture(b.as_str()),
                                    _ => false,
                                };
                                if usable {
                                    let a = match &caps[0] {
                                        Some(a) => pad2_str(a.as_str()),
                                        None => String::new(),
                                    };
                                    let b = match &caps[1] {
                                        Some(b) => pad2_str(b.as_str()),
                                        None => String::new(),
                                    };
                                    proof {
                                        assert(groups[0] is Some && groups[1] is Some);
                                        assert(numeric_capture(groups[0]->Some_0));
                                        assert(numeric_capture(groups[1]->Some_0));
                                        lemma_pad2_shape(groups[0]->Some_0);
                                        lemma_pad2_shape(groups[1]->Some_0);
                                        assert(a@ == pad2(groups[0]->Some_0));
                                        assert(b@ == pad2(groups[1]->Some_0));
                                        assert(group_parse(pviews.skip(pi as int), filename@)
                                            == Some((a@, b@)));
                                        assert(gviews.skip(gi as int)[0] == gviews[gi as int]);
                                        assert(rules_parse(gviews.skip(gi as int), filename@)
                                            == Some((a@, b@)));
                                    }
                                    return Some((a, b));
                                }
                            } else if caps.len() == 1 {
                                let usable = match &caps[0] {
                                    Some(a) => is_numeric_capture(a.as_str()),
                                    None => false,
                                };
                                if usable {
                                    let e = match &caps[0] {
                                        Some(a) => pad2_str(a.as_str()),
                                        None => String::new(),
                                    };
                                    proof {
                                        assert(groups[0] is Some);
                                        assert(numeric_capture(groups[0]->Some_0));
                                        lemma_pad2_shape(groups[0]->Some_0);
                                        lemma_default_season_shape();
                                        assert(e@ == pad2(groups[0]->Some_0));
                                        assert(group_parse(pviews.skip(pi as int), filename@)
                                            == Some((default_season(), e@)));
                                        let gidx: int = gi as int;
                                        assert(gviews.skip(gidx)[0] == gviews[gidx]);
                                        assert(rules_parse(gviews.skip(gi as int), filename@)
                                            == Some((default_season(), e@)));
                                    }
                                    return Some((default_season_str(), e));
                                }
                            }
                            proof {
                                assert(group_parse(pviews.skip(pi as int), filename@)
                                    == group_parse(pviews.skip(pi + 1), filename@));
                            }
                        },
                        None => {},
                    }
                    pi = pi + 1;
                }
                proof {
                    assert(pviews.skip(npats as int) =~= Seq::<Seq<char>>::empty());
                    assert(group_parse(pviews, filename@) is None);
                }
            }
            proof {
                assert(rules_parse(gviews.skip(gi as int), filename@) == rules_parse(
                    gviews.skip(gi + 1),
                    filename@,
                ));
            }
            gi = gi + 1;
        }
        proof {
            assert(gviews.skip(ngroups as int) =~= Seq::<RuleGroup>::empty());
            assert(rules_parse(gviews, filename@) is None);
        }
        scan_generic(filename)
    }
}

/// The label of the built-in rule group.
pub open spec fn default_label() -> Seq<char> {
    "LoliSub"@
}

/// The patterns of the built-in rule group, in the order they are tried.
pub open spec fn default_patterns() -> Seq<Seq<char>> {
    seq![
        "\\[LoliSub\\]\\s*-\\s*S(\\d{2})E(\\d{2})"@,
        "\\[LoliSub\\]\\s*-\\s*(\\d{2})"@,
    ]
}

/// All built-in patterns are valid expressions.
pub open spec fn default_patterns_compile() -> bool {
    forall|k: int|
        0 <= k < default_patterns().len() ==> pattern_compiles(#[trigger] default_patterns()[k])
}

/// The built-in rule group, its patterns checked at run time: nothing comes
/// back only if a built-in pattern failed to compile.
pub fn default_group() -> (r: Option<RuleGroup>)
    ensures
        r matches Some(g) ==> g.wf() && g.label_view() == default_label() && g.patterns_view()
            == default_patterns(),
        r is Some <==> default_patterns_compile(),
{
    let mut patterns: Vec<String> = Vec::new();
    patterns.push(String::from_str("\\[LoliSub\\]\\s*-\\s*S(\\d{2})E(\\d{2})"));
    patterns.push(String::from_str("\\[LoliSub\\]\\s*-\\s*(\\d{2})"));
    proof {
        assert(patterns.deep_view() =~= default_patterns());
    }
    RuleGroup::new(String::from_str("LoliSub"), patterns)
}

/// The rule set tried by `extract_episode_info`: the built-in group, checked
/// at run time; were any of its patterns invalid, the set would be empty and
/// only the generic scan would apply.
pub fn default_rules() -> (r: RuleSet)
    ensures
        r.wf(),
        default_patterns_compile() ==> r.groups_view().len() == 1 && r.groups_view()[0].label_view()
            == default_label() && r.groups_view()[0].patterns_view() == default_patterns(),
        !default_patterns_compile() ==> r.groups_view().len() == 0,
{
    let mut rules = RuleSet::new();
    match default_group() {
        Some(g) => {
            rules.push_group(g);
        },
        None => {},
    }
    rules
}

/// The label of the built-in rule group, for callers that merge groups of
/// their own with the built-in one.
pub fn default_group_label() -> (r: &'static str)
    ensures
        r@ == default_label(),
{
    "LoliSub"
}

/// What `extract_episode_info` yields: the built-in rule group when its label
/// occurs in the name and a pattern decides, else the generic scan.
pub open spec fn extract_spec(f: Seq<char>) -> Option<(Seq<char>, Seq<char>)> {
    let from_rules = if default_patterns_compile() && contains_sub(f, default_label()) {
        group_parse(default_patterns(), f)
    } else {
        None
    };
    match from_rules {
        Some(p) => Some(p),
        None => generic_parse(f),
    }
}

/// Extracts season and episode numbers from a media file name, trying the
/// built-in rule group first and the generic scan as the last resort. A
/// result always holds two two-digit numbers. A name that no rule and no
/// scan decides yields nothing, which a caller treats as "skip this file".
pub fn extract_episode_info(filename: &str) -> (r: Option<(String, String)>)
    ensures
        match extract_spec(filename@) {
            Some(p) => r matches Some(q) && q.0@ == p.0 && q.1@ == p.1,
            None => r is None,
        },
        r matches Some(q) ==> q.0@.len() == 2 && all_digits(q.0@) && q.1@.len() == 2
            && all_digits(q.1@),
{
    let rules = default_rules();
    let r = rules.parse(filename);
    proof {
        let gv = rules.groups_view();
        if default_patterns_compile() {
            assert(gv.len() == 1);
            assert(gv[0].label_view() == default_label());
            assert(gv[0].patterns_view() == default_patterns());
            assert(gv.skip(1) =~= Seq::<RuleGroup>::empty());
            assert(rules_parse(gv.skip(1), filename@) is None);
            if contains_sub(filename@, default_label()) && group_parse(
                default_patterns(),
                filename@,
            ) is Some {
                assert(rules_parse(gv, filename@) == group_parse(default_patterns(), filename@));
            } else {
                assert(rules_parse(gv, filename@) is None);
            }
        } else {
            assert(gv.len() == 0);
            assert(rules_parse(gv, filename@) is None);
        }
    }
    r
}

/// A bare number found by the scan is one or two digits.
proof fn lemma_ep_at_shape(f: Seq<char>, j: int)
    ensures
        ep_at(f, j) matches Some(d) ==> numeric_capture(d),
{
    if ep_at(f, j) is Some {
        let d = ep_at(f, j)->Some_0;
        assert forall|k: int| 0 <= k < d.len() implies is_digit_char(#[trigger] d[k]) by {
            assert(d[k] == f[j + k]);
        }
    }
}

/// The season and episode digits of an `S<nn>E<nn>` match are one or two
/// digits each.
proof fn lemma_se_at_shape(f: Seq<char>, i: int)
    ensures
        se_at(f, i) matches Some(p) ==> numeric_capture(p.0) && numeric_capture(p.1),
{
    if se_at(f, i) is Some {
        let p = se_at(f, i)->Some_0;
        lemma_ep_at_shape(f, i + 4);
        lemma_ep_at_shape(f, i + 3);
        assert forall|k: int| 0 <= k < p.0.len() implies is_digit_char(#[trigger] p.0[k]) by {
            assert(p.0[k] == f[i + 1 + k]);
        }
    }
}

/// Runs the generic scan: the leftmost `S<nn>E<nn>` match (case-insensitive)
/// decides season and episode; failing that, the first bare one- or
/// two-digit number is the episode and the season defaults. Results are
/// zero-padded to exactly two digits.
pub fn scan_generic(f: &str) -> (r: Option<(String, String)>)
    ensures
        match generic_parse(f@) {
            Some(p) => r matches Some(q) && q.0@ == p.0 && q.1@ == p.1,
            None => r is None,
        },
        r matches Some(q) ==> q.0@.len() == 2 && all_digits(q.0@) && q.1@.len() == 2
            && all_digits(q.1@),
{
    let len = f.unicode_len();
    let mut i: usize = 0;
    while i < len
        invariant
            0 <= i <= len,
            len == f@.len(),
            generic_parse(f@) == generic_from(f@, i as int),
        decreases len - i,
    {
        match se_at_exec(f, i, len) {
            Some((s0, s1, e0, e1)) => {
                let season = pad2_str(f.substring_char(s0, s1));
                let episode = pad2_str(f.substring_char(e0, e1));
                proof {
                    lemma_se_at_shape(f@, i as int);
                    let p = se_at(f@, i as int)->Some_0;
                    lemma_pad2_shape(p.0);
                    lemma_pad2_shape(p.1);
                }
                return Some((season, episode));
            },
            None => {},
        }
        match ep_at_exec(f, i, len) {
            Some(end) => {
                let episode = pad2_str(f.substring_char(i, end));
                proof {
                    lemma_ep_at_shape(f@, i as int);
                    lemma_pad2_shape(ep_at(f@, i as int)->Some_0);
                    lemma_default_season_shape();
                }
                return Some((default_season_str(), episode));
            },
            None => {},
        }
        i = i + 1;
    }
    None
}

} // verus!
