//! DD-path selectors: the three stages a conversion-map rule can name a path
//! with, how a selector matches a concrete path, and how the other side's
//! selector renders the matched path back.
//!
//! `Subtree` matches its own anchor and every path nested under it, keeping
//! the unmatched remainder so the other side can be rebuilt. `Glob` matches
//! paths with the same segment count where every non-`*` segment agrees
//! literally; `*` stands for exactly one segment and never crosses a `/`.
use vstd::prelude::*;

use crate::text::{
    chars_eq, chars_from, chars_of, chars_start_with, has_char, join_chars, join_with,
    lemma_join_split, lemma_split_join, lemma_split_on_nonempty, lemma_split_on_segments_free,
    split_chars, split_on, starts_with, string_of, views,
};

verus! {

/// Which selector stage a [`Selector`] belongs to. Exact selectors are tried
/// first, subtree selectors second, and glob selectors only when neither of
/// the first two matches anywhere.
#[derive(Debug, Clone, Copy, PartialEq, Eq, Structural, Hash)]
pub enum SelectorStage {
    Exact,
    Subtree,
    Glob,
}

impl SelectorStage {
    /// The lowercase word this stage is written as.
    pub fn word(self) -> (r: &'static str)
        ensures
            r@ == stage_word(self),
    {
        match self {
            SelectorStage::Exact => "exact",
            SelectorStage::Subtree => "subtree",
            SelectorStage::Glob => "glob",
        }
    }
}

pub open spec fn stage_word(s: SelectorStage) -> Seq<char> {
    match s {
        SelectorStage::Exact => "exact"@,
        SelectorStage::Subtree => "subtree"@,
        SelectorStage::Glob => "glob"@,
    }
}

/// A DD-path pattern tagged with the stage it must be tried at.
#[derive(Debug, PartialEq, Eq)]
pub enum Selector {
    Exact(String),
    Subtree(String),
    Glob(String),
}

/// The pattern text of a selector.
pub open spec fn pattern_of(s: Selector) -> Seq<char> {
    match s {
        Selector::Exact(p) => p@,
        Selector::Subtree(p) => p@,
        Selector::Glob(p) => p@,
    }
}

/// The stage of a selector.
pub open spec fn stage_of(s: Selector) -> SelectorStage {
    match s {
        Selector::Exact(_) => SelectorStage::Exact,
        Selector::Subtree(_) => SelectorStage::Subtree,
        Selector::Glob(_) => SelectorStage::Glob,
    }
}

/// The single-segment wildcard.
pub open spec fn star() -> Seq<char> {
    seq!['*']
}

/// Every pattern segment is `*` or equal to the path segment at the same
/// position, and both have the same number of segments.
pub open spec fn segments_agree(p: Seq<Seq<char>>, s: Seq<Seq<char>>) -> bool {
    &&& p.len() == s.len()
    &&& forall|i: int| 0 <= i < p.len() ==> (#[trigger] p[i] == star() || p[i] == s[i])
}

/// The path segments the `*` segments of `p` stand for, in pattern order.
pub open spec fn glob_captures(p: Seq<Seq<char>>, s: Seq<Seq<char>>) -> Seq<Seq<char>>
    decreases p.len(),
{
    if p.len() == 0 || s.len() == 0 {
        Seq::empty()
    } else {
        let head = if p[0] == star() {
            seq![s[0]]
        } else {
            Seq::<Seq<char>>::empty()
        };
        head + glob_captures(p.drop_first(), s.drop_first())
    }
}

/// The number of `*` segments in a list of segments.
pub open spec fn star_count(p: Seq<Seq<char>>) -> nat
    decreases p.len(),
{
    if p.len() == 0 {
        0
    } else {
        (if p[0] == star() {
            1nat
        } else {
            0nat
        }) + star_count(p.drop_first())
    }
}

/// The number of `*` wildcards in a glob pattern.
pub open spec fn wildcards(pattern: Seq<char>) -> nat {
    star_count(split_on(pattern, '/'))
}

/// What matching `path` against glob `pattern` gives: the segments each
/// `*` stood for, or `None`.
pub open spec fn glob_match_spec(pattern: Seq<char>, path: Seq<char>) -> Option<Seq<Seq<char>>> {
    let p = split_on(pattern, '/');
    let s = split_on(path, '/');
    if segments_agree(p, s) {
        Some(glob_captures(p, s))
    } else {
        None
    }
}

/// Whether some path could satisfy both glob patterns: same segment count
/// and, at every position, one side is `*` or the two agree literally.
pub open spec fn globs_overlap_spec(a: Seq<char>, b: Seq<char>) -> bool {
    let x = split_on(a, '/');
    let y = split_on(b, '/');
    &&& x.len() == y.len()
    &&& forall|i: int| 0 <= i < x.len() ==> (#[trigger] x[i] == star() || y[i] == star() || x[i] == y[i])
}

/// A path lies strictly beneath `anchor`: it continues `anchor` with a `/`.
pub open spec fn strictly_beneath(path: Seq<char>, anchor: Seq<char>) -> bool {
    &&& starts_with(path, anchor)
    &&& path.len() > anchor.len()
    &&& path[anchor.len() as int] == '/'
}

/// The abstract result of one selector match: specificity, the remainder
/// past a subtree anchor, and a glob's captured segments.
pub struct MatchView {
    pub specificity: nat,
    pub suffix: Seq<char>,
    pub captures: Seq<Seq<char>>,
}

/// What matching `path` against `sel` gives.
pub open spec fn try_match_spec(sel: Selector, path: Seq<char>) -> Option<MatchView> {
    match sel {
        Selector::Exact(p) => if p@ == path {
            Some(MatchView { specificity: p@.len(), suffix: Seq::empty(), captures: Seq::empty() })
        } else {
            None
        },
        Selector::Subtree(a) => if path == a@ {
            Some(MatchView { specificity: a@.len(), suffix: Seq::empty(), captures: Seq::empty() })
        } else if strictly_beneath(path, a@) {
            Some(
                MatchView {
                    specificity: a@.len(),
                    suffix: path.subrange(a@.len() as int, path.len() as int),
                    captures: Seq::empty(),
                },
            )
        } else {
            None
        },
        Selector::Glob(p) => match glob_match_spec(p@, path) {
            Some(c) => Some(MatchView { specificity: 0, suffix: Seq::empty(), captures: c }),
            None => None,
        },
    }
}

/// `p`'s segments with each `*` filled, in order, from `captures`; a `*`
/// left over once the captures run out stays `*`.
pub open spec fn fill_glob(p: Seq<Seq<char>>, captures: Seq<Seq<char>>) -> Seq<Seq<char>>
    decreases p.len(),
{
    if p.len() == 0 {
        Seq::empty()
    } else if p[0] == star() && captures.len() > 0 {
        seq![captures[0]] + fill_glob(p.drop_first(), captures.drop_first())
    } else {
        seq![p[0]] + fill_glob(p.drop_first(), captures)
    }
}

/// The path `sel` renders for a match made on the other side of its rule.
pub open spec fn render_spec(sel: Selector, suffix: Seq<char>, captures: Seq<Seq<char>>) -> Seq<
    char,
> {
    match sel {
        Selector::Glob(p) => join_with(fill_glob(split_on(p@, '/'), captures), '/'),
        Selector::Exact(p) => p@ + suffix,
        Selector::Subtree(p) => p@ + suffix,
    }
}

/// One successful selector match.
pub struct SelectorMatch {
    /// How specific the match was: the matched selector's own pattern
    /// length for `Exact` and `Subtree`, and zero for `Glob`.
    pub specificity: usize,
    /// The remainder of the path past a `Subtree` anchor: starting with `/`,
    /// or empty when the path equals the anchor.
    pub suffix: String,
    /// The segments a `Glob` match's `*` wildcards stood for.
    pub captures: Vec<String>,
}

/// The character views of a sequence of strings.
pub open spec fn string_views(v: Seq<String>) -> Seq<Seq<char>> {
    v.map_values(|s: String| s@)
}

impl SelectorMatch {
    pub open spec fn view_of(self) -> MatchView {
        MatchView {
            specificity: self.specificity as nat,
            suffix: self.suffix@,
            captures: string_views(self.captures@),
        }
    }
}


fn is_star(seg: &Vec<char>) -> (r: bool)
    ensures
        r == (seg@ == star()),
{
    if seg.len() == 1 && seg[0] == '*' {
        assert(seg@ =~= star());
        true
    } else {
        assert(seg@ != star()) by {
            if seg@ == star() {
                assert(seg@.len() == 1 && seg@[0] == '*');
            }
        }
        false
    }
}

proof fn lemma_glob_captures_step(p: Seq<Seq<char>>, s: Seq<Seq<char>>, i: int)
    requires
        0 <= i < p.len(),
        p.len() == s.len(),
    ensures
        glob_captures(p.subrange(i, p.len() as int), s.subrange(i, s.len() as int)) == (if p[i]
            == star() {
            seq![s[i]]
        } else {
            Seq::<Seq<char>>::empty()
        }) + glob_captures(p.subrange(i + 1, p.len() as int), s.subrange(i + 1, s.len() as int)),
{
    let pi = p.subrange(i, p.len() as int);
    let si = s.subrange(i, s.len() as int);
    assert(pi.drop_first() =~= p.subrange(i + 1, p.len() as int));
    assert(si.drop_first() =~= s.subrange(i + 1, s.len() as int));
    assert(pi[0] == p[i]);
    assert(si[0] == s[i]);
}

/// Matches `path` against glob `pattern` segment by segment, returning the
/// segments each `*` stood for, in pattern order.
pub fn glob_match(pattern: &str, path: &str) -> (r: Option<Vec<String>>)
    ensures
        r is Some <==> glob_match_spec(pattern@, path@) is Some,
        r matches Some(c) ==> glob_match_spec(pattern@, path@) == Some(string_views(c@)),
{
    let pc = chars_of(pattern);
    let sc = chars_of(path);
    let p = split_chars(&pc, '/');
    let s = split_chars(&sc, '/');
    let ghost ps = views(p@);
    let ghost ss = views(s@);
    if p.len() != s.len() {
        return None;
    }
    let mut captures: Vec<String> = Vec::new();
    let mut i: usize = 0;
    assert(ps.subrange(0, ps.len() as int) =~= ps);
    assert(ss.subrange(0, ss.len() as int) =~= ss);
    assert(string_views(captures@) =~= Seq::<Seq<char>>::empty());
    while i < p.len()
        invariant
            ps == split_on(pattern@, '/'),
            ss == split_on(path@, '/'),
            ps == views(p@),
            ss == views(s@),
            ps.len() == ss.len(),
            i <= ps.len(),
            forall|k: int| 0 <= k < i ==> (#[trigger] ps[k] == star() || ps[k] == ss[k]),
            string_views(captures@) + glob_captures(
                ps.subrange(i as int, ps.len() as int),
                ss.subrange(i as int, ss.len() as int),
            ) == glob_captures(ps, ss),
        decreases ps.len() - i,
    {
        proof {
            lemma_glob_captures_step(ps, ss, i as int);
        }
        assert(p@[i as int]@ == ps[i as int]);
        assert(s@[i as int]@ == ss[i as int]);
        if is_star(&p[i]) {
            let c = string_of(&s[i]);
            let ghost before = string_views(captures@);
            captures.push(c);
            assert(string_views(captures@) =~= before.push(ss[i as int]));
        } else if !chars_eq(&p[i], &s[i]) {
            assert(!segments_agree(ps, ss)) by {
                assert(!(ps[i as int] == star() || ps[i as int] == ss[i as int]));
            }
            return None;
        }
        i = i + 1;
    }
    assert(ps.subrange(ps.len() as int, ps.len() as int) =~= Seq::<Seq<char>>::empty());
    assert(ss.subrange(ss.len() as int, ss.len() as int) =~= Seq::<Seq<char>>::empty());
    assert(string_views(captures@) =~= glob_captures(ps, ss));
    assert(ps =~= split_on(pattern@, '/'));
    Some(captures)
}

/// The number of `*` wildcards in a glob pattern.
pub fn wildcard_count(pattern: &str) -> (n: usize)
    ensures
        n == wildcards(pattern@),
{
    let pc = chars_of(pattern);
    let p = split_chars(&pc, '/');
    let ghost ps = views(p@);
    let mut n: usize = 0;
    let mut i: usize = 0;
    assert(ps.subrange(0, ps.len() as int) =~= ps);
    while i < p.len()
        invariant
            ps == views(p@),
            i <= ps.len(),
            n <= i,
            n + star_count(ps.subrange(i as int, ps.len() as int)) == star_count(ps),
        decreases ps.len() - i,
    {
        let ghost rest = ps.subrange(i as int, ps.len() as int);
        assert(rest.drop_first() =~= ps.subrange(i + 1, ps.len() as int));
        assert(rest[0] == ps[i as int]);
        if is_star(&p[i]) {
            n = n + 1;
        }
        i = i + 1;
    }
    assert(ps.subrange(ps.len() as int, ps.len() as int) =~= Seq::<Seq<char>>::empty());
    n
}

/// Whether some concrete path could satisfy both glob patterns at once.
pub fn globs_overlap(a: &str, b: &str) -> (r: bool)
    ensures
        r == globs_overlap_spec(a@, b@),
{
    let ac = chars_of(a);
    let bc = chars_of(b);
    let x = split_chars(&ac, '/');
    let y = split_chars(&bc, '/');
    let ghost xs = views(x@);
    let ghost ys = views(y@);
    if x.len() != y.len() {
        return false;
    }
    let mut i: usize = 0;
    while i < x.len()
        invariant
            xs == split_on(a@, '/'),
            ys == split_on(b@, '/'),
            xs == views(x@),
            ys == views(y@),
            xs.len() == ys.len(),
            i <= xs.len(),
            forall|k: int|
                0 <= k < i ==> (#[trigger] xs[k] == star() || ys[k] == star() || xs[k] == ys[k]),
        decreases xs.len() - i,
    {
        assert(x@[i as int]@ == xs[i as int]);
        assert(y@[i as int]@ == ys[i as int]);
        if !is_star(&x[i]) && !is_star(&y[i]) && !chars_eq(&x[i], &y[i]) {
            return false;
        }
        i = i + 1;
    }
    true
}

impl Selector {
    /// The stage this selector must be tried at.
    pub fn stage(&self) -> (r: SelectorStage)
        ensures
            r == stage_of(*self),
    {
        match self {
            Selector::Exact(_) => SelectorStage::Exact,
            Selector::Subtree(_) => SelectorStage::Subtree,
            Selector::Glob(_) => SelectorStage::Glob,
        }
    }

    /// The selector's pattern text.
    pub fn pattern(&self) -> (r: &str)
        ensures
            r@ == pattern_of(*self),
    {
        match self {
            Selector::Exact(p) => p.as_str(),
            Selector::Subtree(p) => p.as_str(),
            Selector::Glob(p) => p.as_str(),
        }
    }

    /// A selector of the given stage over `pattern`.
    pub fn new(stage: SelectorStage, pattern: String) -> (r: Selector)
        ensures
            stage_of(r) == stage,
            pattern_of(r) == pattern@,
    {
        match stage {
            SelectorStage::Exact => Selector::Exact(pattern),
            SelectorStage::Subtree => Selector::Subtree(pattern),
            SelectorStage::Glob => Selector::Glob(pattern),
        }
    }

    /// An equal copy of this selector.
    pub fn duplicate(&self) -> (r: Selector)
        ensures
            r == *self,
    {
        match self {
            Selector::Exact(p) => Selector::Exact(p.clone()),
            Selector::Subtree(p) => Selector::Subtree(p.clone()),
            Selector::Glob(p) => Selector::Glob(p.clone()),
        }
    }

    /// Matches `path` against this selector.
    pub fn try_match(&self, path: &str) -> (r: Option<SelectorMatch>)
        ensures
            r is Some <==> try_match_spec(*self, path@) is Some,
            r matches Some(m) ==> try_match_spec(*self, path@) == Some(m.view_of()),
    {
        match self {
            Selector::Exact(pattern) => {
                let pc = chars_of(pattern.as_str());
                let sc = chars_of(path);
                if chars_eq(&pc, &sc) {
                    let m = SelectorMatch {
                        specificity: pc.len(),
                        suffix: String::new(),
                        captures: Vec::new(),
                    };
                    assert(string_views(m.captures@) =~= Seq::<Seq<char>>::empty());
                    Some(m)
                } else {
                    None
                }
            },
            Selector::Subtree(anchor) => {
                let ac = chars_of(anchor.as_str());
                let sc = chars_of(path);
                if chars_eq(&ac, &sc) {
                    let m = SelectorMatch {
                        specificity: ac.len(),
                        suffix: String::new(),
                        captures: Vec::new(),
                    };
                    assert(string_views(m.captures@) =~= Seq::<Seq<char>>::empty());
                    Some(m)
                } else if chars_start_with(&sc, &ac) && sc.len() > ac.len() && sc[ac.len()] == '/' {
                    let rest = chars_from(&sc, ac.len());
                    let m = SelectorMatch {
                        specificity: ac.len(),
                        suffix: string_of(&rest),
                        captures: Vec::new(),
                    };
                    assert(string_views(m.captures@) =~= Seq::<Seq<char>>::empty());
                    Some(m)
                } else {
                    None
                }
            },
            Selector::Glob(pattern) => match glob_match(pattern.as_str(), path) {
                Some(captures) => Some(
                    SelectorMatch { specificity: 0, suffix: String::new(), captures },
                ),
                None => None,
            },
        }
    }

    /// Renders this selector as the path for a match obtained on the other
    /// side of the same rule: an `Exact` or `Subtree` pattern has `suffix`
    /// appended, and a `Glob` pattern has its `*` wildcards filled, in
    /// order, from `captures`.
    pub fn render(&self, suffix: &str, captures: &Vec<String>) -> (r: String)
        ensures
            r@ == render_spec(*self, suffix@, string_views(captures@)),
    {
        match self {
            Selector::Glob(pattern) => {
                let pc = chars_of(pattern.as_str());
                let p = split_chars(&pc, '/');
                let ghost ps = views(p@);
                let ghost cs = string_views(captures@);
                let mut out: Vec<Vec<char>> = Vec::new();
                let mut i: usize = 0;
                let mut k: usize = 0;
                assert(ps.subrange(0, ps.len() as int) =~= ps);
                assert(cs.subrange(0, cs.len() as int) =~= cs);
                assert(views(out@) =~= Seq::<Seq<char>>::empty());
                while i < p.len()
                    invariant
                        ps == views(p@),
                        cs == string_views(captures@),
                        i <= ps.len(),
                        k <= cs.len(),
                        views(out@) + fill_glob(
                            ps.subrange(i as int, ps.len() as int),
                            cs.subrange(k as int, cs.len() as int),
                        ) == fill_glob(ps, cs),
                    decreases ps.len() - i,
                {
                    let ghost pr = ps.subrange(i as int, ps.len() as int);
                    let ghost cr = cs.subrange(k as int, cs.len() as int);
                    assert(pr.drop_first() =~= ps.subrange(i + 1, ps.len() as int));
                    assert(pr[0] == ps[i as int]);
                    assert(p@[i as int]@ == ps[i as int]);
                    let ghost before = views(out@);
                    if is_star(&p[i]) && k < captures.len() {
                        assert(cr.drop_first() =~= cs.subrange(k + 1, cs.len() as int));
                        assert(cr[0] == cs[k as int]);
                        let seg = chars_of(captures[k].as_str());
                        out.push(seg);
                        assert(views(out@) =~= before.push(cs[k as int]));
                        k = k + 1;
                    } else {
                        let seg = p[i].clone();
                        out.push(seg);
                        assert(views(out@) =~= before.push(ps[i as int]));
                    }
                    i = i + 1;
                    assert(views(out@) + fill_glob(
                        ps.subrange(i as int, ps.len() as int),
                        cs.subrange(k as int, cs.len() as int),
                    ) =~= fill_glob(ps, cs));
                }
                assert(ps.subrange(ps.len() as int, ps.len() as int) =~= Seq::<Seq<char>>::empty());
                assert(views(out@) =~= fill_glob(ps, cs));
                let joined = join_chars(&out, '/');
                string_of(&joined)
            },
            Selector::Exact(pattern) => {
                let mut r = pattern.clone();
                r.append(suffix);
                r
            },
            Selector::Subtree(pattern) => {
                let mut r = pattern.clone();
                r.append(suffix);
                r
            },
        }
    }
}

proof fn lemma_agree_rest(p: Seq<Seq<char>>, s: Seq<Seq<char>>)
    requires
        segments_agree(p, s),
        p.len() > 0,
    ensures
        segments_agree(p.drop_first(), s.drop_first()),
{
    assert forall|i: int| 0 <= i < p.drop_first().len() implies (#[trigger] p.drop_first()[i]
        == star() || p.drop_first()[i] == s.drop_first()[i]) by {
        assert(p.drop_first()[i] == p[i + 1]);
        assert(s.drop_first()[i] == s[i + 1]);
        assert(p[i + 1] == star() || p[i + 1] == s[i + 1]);
    }
}

/// Filling a pattern's wildcards with the segments they matched rebuilds
/// the matched segments.
proof fn lemma_fill_captures(p: Seq<Seq<char>>, s: Seq<Seq<char>>)
    requires
        segments_agree(p, s),
    ensures
        fill_glob(p, glob_captures(p, s)) == s,
    decreases p.len(),
{
    if p.len() == 0 {
        assert(s =~= Seq::<Seq<char>>::empty());
    } else {
        lemma_agree_rest(p, s);
        lemma_fill_captures(p.drop_first(), s.drop_first());
        let rest = glob_captures(p.drop_first(), s.drop_first());
        assert(p[0] == star() || p[0] == s[0]);
        if p[0] == star() {
            let c = seq![s[0]] + rest;
            assert(c[0] == s[0]);
            assert(c.drop_first() =~= rest);
        } else {
            assert(Seq::<Seq<char>>::empty() + rest =~= rest);
        }
        assert(s =~= seq![s[0]] + s.drop_first());
    }
}

/// Every captured segment is one of the matched path's segments.
proof fn lemma_captures_from_segments(p: Seq<Seq<char>>, s: Seq<Seq<char>>)
    requires
        p.len() == s.len(),
    ensures
        forall|k: int|
            0 <= k < glob_captures(p, s).len() ==> s.contains(#[trigger] glob_captures(p, s)[k]),
    decreases p.len(),
{
    if p.len() > 0 {
        lemma_captures_from_segments(p.drop_first(), s.drop_first());
        let rest = glob_captures(p.drop_first(), s.drop_first());
        let head = if p[0] == star() {
            seq![s[0]]
        } else {
            Seq::<Seq<char>>::empty()
        };
        let all = head + rest;
        assert(glob_captures(p, s) == all);
        assert forall|k: int| 0 <= k < all.len() implies s.contains(#[trigger] all[k]) by {
            if k < head.len() {
                assert(all[k] == s[0]);
            } else {
                assert(all[k] == rest[k - head.len()]);
                assert(s.drop_first().contains(rest[k - head.len()]));
                let j = choose|j: int|
                    0 <= j < s.drop_first().len() && s.drop_first()[j] == rest[k - head.len()];
                assert(s[j + 1] == all[k]);
            }
        }
    }
}

/// Filling the wildcards of `q` with exactly as many captures as it has
/// wildcards yields segments `q` matches, and matching them captures the
/// same segments back.
proof fn lemma_fill_then_capture(q: Seq<Seq<char>>, c: Seq<Seq<char>>)
    requires
        star_count(q) == c.len(),
    ensures
        fill_glob(q, c).len() == q.len(),
        segments_agree(q, fill_glob(q, c)),
        glob_captures(q, fill_glob(q, c)) == c,
        forall|i: int|
            0 <= i < q.len() ==> (#[trigger] fill_glob(q, c)[i] == q[i] || exists|k: int|
                0 <= k < c.len() && fill_glob(q, c)[i] == c[k]),
    decreases q.len(),
{
    if q.len() == 0 {
        assert(c =~= Seq::<Seq<char>>::empty());
    } else {
        let f = fill_glob(q, c);
        if q[0] == star() {
            assert(c.len() > 0);
            lemma_fill_then_capture(q.drop_first(), c.drop_first());
            let fr = fill_glob(q.drop_first(), c.drop_first());
            assert(f == seq![c[0]] + fr);
            assert(f.drop_first() =~= fr);
            assert(f[0] == c[0]);
            assert(q.drop_first().len() == fr.len());
            assert forall|i: int| 0 <= i < q.len() implies (#[trigger] q[i] == star() || q[i]
                == f[i]) by {
                if i > 0 {
                    assert(q[i] == q.drop_first()[i - 1]);
                    assert(f[i] == fr[i - 1]);
                }
            }
            assert(glob_captures(q, f) == seq![f[0]] + glob_captures(q.drop_first(), f.drop_first()));
            assert(c =~= seq![c[0]] + c.drop_first());
            assert forall|i: int| 0 <= i < q.len() implies (#[trigger] f[i] == q[i] || exists|k: int|
                0 <= k < c.len() && f[i] == c[k]) by {
                if i == 0 {
                    assert(f[0] == c[0]);
                } else {
                    assert(f[i] == fr[i - 1]);
                    assert(q[i] == q.drop_first()[i - 1]);
                    if fr[i - 1] != q.drop_first()[i - 1] {
                        let k = choose|k: int|
                            0 <= k < c.drop_first().len() && fr[i - 1] == c.drop_first()[k];
                        assert(f[i] == c[k + 1]);
                    }
                }
            }
        } else {
            lemma_fill_then_capture(q.drop_first(), c);
            let fr = fill_glob(q.drop_first(), c);
            assert(f == seq![q[0]] + fr);
            assert(f.drop_first() =~= fr);
            assert(f[0] == q[0]);
            assert forall|i: int| 0 <= i < q.len() implies (#[trigger] q[i] == star() || q[i]
                == f[i]) by {
                if i > 0 {
                    assert(q[i] == q.drop_first()[i - 1]);
                    assert(f[i] == fr[i - 1]);
                }
            }
            assert(glob_captures(q, f) =~= glob_captures(q.drop_first(), f.drop_first()));
            assert forall|i: int| 0 <= i < q.len() implies (#[trigger] f[i] == q[i] || exists|k: int|
                0 <= k < c.len() && f[i] == c[k]) by {
                if i > 0 {
                    assert(f[i] == fr[i - 1]);
                    assert(q[i] == q.drop_first()[i - 1]);
                }
            }
        }
    }
}

/// A glob selector renders a path back from the segments its own match
/// captured: matching `path` against a glob selector and rendering the same
/// selector with the captures gives `path` again.
pub proof fn law_glob_render_inverts_match(sel: Selector, path: Seq<char>, suffix: Seq<char>)
    requires
        sel is Glob,
        glob_match_spec(pattern_of(sel), path) is Some,
    ensures
        render_spec(sel, suffix, glob_match_spec(pattern_of(sel), path)->0) == path,
{
    let p = split_on(pattern_of(sel), '/');
    let s = split_on(path, '/');
    lemma_fill_captures(p, s);
    lemma_join_split(path, '/');
}

/// What a glob selector renders from captures that fill its wildcards
/// exactly (one segment per `*`, none containing `/`) is matched by the same
/// selector, which captures the same segments back. This is what makes a
/// glob rule translate a path to the other side and back unchanged.
pub proof fn law_glob_match_inverts_render(sel: Selector, suffix: Seq<char>, captures: Seq<Seq<char>>)
    requires
        sel is Glob,
        wildcards(pattern_of(sel)) == captures.len(),
        forall|k: int| 0 <= k < captures.len() ==> !has_char(#[trigger] captures[k], '/'),
    ensures
        glob_match_spec(pattern_of(sel), render_spec(sel, suffix, captures)) == Some(captures),
{
    let q = split_on(pattern_of(sel), '/');
    lemma_split_on_nonempty(pattern_of(sel), '/');
    lemma_split_on_segments_free(pattern_of(sel), '/');
    lemma_fill_then_capture(q, captures);
    let f = fill_glob(q, captures);
    assert forall|i: int| 0 <= i < f.len() implies !has_char(#[trigger] f[i], '/') by {
        if f[i] != q[i] {
            let k = choose|k: int| 0 <= k < captures.len() && f[i] == captures[k];
            assert(!has_char(captures[k], '/'));
        } else {
            assert(!has_char(q[i], '/'));
        }
    }
    lemma_split_join(f, '/');
}

/// Segments captured by a glob match never contain `/`.
pub proof fn law_glob_captures_are_segments(pattern: Seq<char>, path: Seq<char>)
    requires
        glob_match_spec(pattern, path) is Some,
    ensures
        forall|k: int|
            0 <= k < glob_match_spec(pattern, path)->0.len() ==> !has_char(
                #[trigger] glob_match_spec(pattern, path)->0[k],
                '/',
            ),
{
    let p = split_on(pattern, '/');
    let s = split_on(path, '/');
    lemma_captures_from_segments(p, s);
    lemma_split_on_segments_free(path, '/');
    let c = glob_captures(p, s);
    assert forall|k: int| 0 <= k < c.len() implies !has_char(#[trigger] c[k], '/') by {
        assert(s.contains(c[k]));
        let j = choose|j: int| 0 <= j < s.len() && s[j] == c[k];
        assert(!has_char(s[j], '/'));
    }
}

/// A subtree selector matches the path it renders for any remainder that is
/// empty or starts with `/`, and hands the same remainder back.
pub proof fn law_subtree_match_inverts_render(sel: Selector, suffix: Seq<char>, captures: Seq<Seq<char>>)
    requires
        sel is Subtree,
        suffix.len() == 0 || suffix[0] == '/',
    ensures
        try_match_spec(sel, render_spec(sel, suffix, captures)) == Some(
            MatchView { specificity: pattern_of(sel).len(), suffix, captures: Seq::empty() },
        ),
{
    let a = pattern_of(sel);
    let r = a + suffix;
    if suffix.len() == 0 {
        assert(r =~= a);
        assert(suffix =~= Seq::<char>::empty());
    } else {
        assert(r[a.len() as int] == suffix[0]);
        assert(r.subrange(0, a.len() as int) =~= a);
        assert(r.subrange(a.len() as int, r.len() as int) =~= suffix);
        assert(r != a);
    }
}


/// The glob overlap check is exact: two glob patterns overlap precisely
/// when some path is matched by both.
pub proof fn law_globs_overlap_exact(a: Seq<char>, b: Seq<char>)
    ensures
        globs_overlap_spec(a, b) <==> (exists|path: Seq<char>|
            glob_match_spec(a, path) is Some && #[trigger] glob_match_spec(b, path) is Some),
{
    let x = split_on(a, '/');
    let y = split_on(b, '/');
    if globs_overlap_spec(a, b) {
        lemma_split_on_nonempty(a, '/');
        lemma_split_on_segments_free(a, '/');
        lemma_split_on_segments_free(b, '/');
        let w = Seq::new(
            x.len(),
            |i: int|
                if x[i] != star() {
                    x[i]
                } else if y[i] != star() {
                    y[i]
                } else {
                    seq!['x']
                },
        );
        assert forall|i: int| 0 <= i < w.len() implies !has_char(#[trigger] w[i], '/') by {
            if x[i] != star() {
                assert(!has_char(x[i], '/'));
            } else if y[i] != star() {
                assert(!has_char(y[i], '/'));
            } else {
                assert(!has_char(seq!['x'], '/')) by {
                    if has_char(seq!['x'], '/') {
                        let k = choose|k: int| 0 <= k < 1 && seq!['x'][k] == '/';
                    }
                }
            }
        }
        lemma_split_join(w, '/');
        let path = join_with(w, '/');
        assert(segments_agree(x, w));
        assert(segments_agree(y, w));
        assert(glob_match_spec(a, path) is Some && glob_match_spec(b, path) is Some);
    }
    if exists|path: Seq<char>|
        glob_match_spec(a, path) is Some && #[trigger] glob_match_spec(b, path) is Some {
        let path = choose|path: Seq<char>|
            glob_match_spec(a, path) is Some && #[trigger] glob_match_spec(b, path) is Some;
        let s = split_on(path, '/');
        assert(segments_agree(x, s));
        assert(segments_agree(y, s));
        assert forall|i: int| 0 <= i < x.len() implies (#[trigger] x[i] == star() || y[i] == star()
            || x[i] == y[i]) by {
            assert(x[i] == star() || x[i] == s[i]);
            assert(y[i] == star() || y[i] == s[i]);
        }
    }
}

} // verus!
