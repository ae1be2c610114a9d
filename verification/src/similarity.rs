//! Five-axis similarity scoring and tier partitioning.
//!
//! Scores are integers in permille: 1000 stands for a perfect 1.0.
//! Tiers: Exact at 900 and above, Similar at 800 and above, Low below.

use vstd::prelude::*;

use crate::compressor::{matrix_view, FontCategory};
use crate::text::{
    append_chars, append_lit, chars_string, contains_sub, contains_vec, eq_vec, lower_seq,
    lower_vec, str_chars, string_chars,
};
use crate::types::{
    FontDescriptor, FontDescriptorV, FontFormat, FontMatchScore, FontRequest, FontRequestV,
};

verus! {

// ----- name similarity ------------------------------------------------------

/// Words of `s`, split on spaces, with the partial word `cur` carried.
pub open spec fn tokens_acc(s: Seq<char>, i: int, cur: Seq<char>) -> Seq<Seq<char>>
    decreases s.len() - i,
{
    if i < 0 || i >= s.len() {
        if cur.len() > 0 {
            seq![cur]
        } else {
            Seq::empty()
        }
    } else if s[i] == ' ' {
        if cur.len() > 0 {
            seq![cur] + tokens_acc(s, i + 1, Seq::empty())
        } else {
            tokens_acc(s, i + 1, Seq::empty())
        }
    } else {
        tokens_acc(s, i + 1, cur.push(s[i]))
    }
}

pub open spec fn tokens(s: Seq<char>) -> Seq<Seq<char>> {
    tokens_acc(s, 0, Seq::empty())
}

pub open spec fn has_token(ts: Seq<Seq<char>>, t: Seq<char>) -> bool {
    exists|k: int| 0 <= k < ts.len() && ts[k] == t
}

/// First occurrences only, in order.
pub open spec fn dedup_tokens(ts: Seq<Seq<char>>, i: int) -> Seq<Seq<char>>
    decreases ts.len() - i,
{
    if i < 0 || i >= ts.len() {
        Seq::empty()
    } else if has_token(ts.subrange(0, i), ts[i]) {
        dedup_tokens(ts, i + 1)
    } else {
        seq![ts[i]] + dedup_tokens(ts, i + 1)
    }
}

/// How many elements of `a` (from `i` on) occur in `b`.
pub open spec fn count_in(a: Seq<Seq<char>>, b: Seq<Seq<char>>, i: int) -> int
    decreases a.len() - i,
{
    if i < 0 || i >= a.len() {
        0
    } else {
        (if has_token(b, a[i]) {
            1int
        } else {
            0int
        }) + count_in(a, b, i + 1)
    }
}

/// How many elements of `a` (from `i` on) do not occur in `b`.
pub open spec fn count_not_in(a: Seq<Seq<char>>, b: Seq<Seq<char>>, i: int) -> int
    decreases a.len() - i,
{
    if i < 0 || i >= a.len() {
        0
    } else {
        (if has_token(b, a[i]) {
            0int
        } else {
            1int
        }) + count_not_in(a, b, i + 1)
    }
}

/// Jaccard index over distinct word tokens, in permille.
pub open spec fn word_jaccard(la: Seq<char>, lb: Seq<char>) -> int {
    let ta = dedup_tokens(tokens(la), 0);
    let tb = dedup_tokens(tokens(lb), 0);
    let inter = count_in(ta, tokens(lb), 0);
    let union = ta.len() + count_not_in(tb, tokens(la), 0);
    if union == 0 {
        0
    } else {
        inter * 1000 / union
    }
}

/// The distinct characters of `s`, as singleton token sequences.
pub open spec fn char_tokens(s: Seq<char>) -> Seq<Seq<char>> {
    s.map_values(|c: char| seq![c])
}

/// Jaccard index over distinct characters, in permille.
pub open spec fn char_jaccard(la: Seq<char>, lb: Seq<char>) -> int {
    let ta = dedup_tokens(char_tokens(la), 0);
    let tb = dedup_tokens(char_tokens(lb), 0);
    let inter = count_in(ta, char_tokens(lb), 0);
    let union = ta.len() + count_not_in(tb, char_tokens(la), 0);
    if union == 0 {
        0
    } else {
        inter * 1000 / union
    }
}

/// Name similarity: equal names 1000, containment 850, else word-token
/// Jaccard, else character-set Jaccard.
pub open spec fn name_score_spec(a: Seq<char>, b: Seq<char>) -> int {
    let la = lower_seq(a);
    let lb = lower_seq(b);
    if la == lb {
        1000
    } else if contains_sub(la, lb) || contains_sub(lb, la) {
        850
    } else {
        let wj = word_jaccard(la, lb);
        if wj != 0 {
            wj
        } else {
            char_jaccard(la, lb)
        }
    }
}

// ----- other axes -----------------------------------------------------------

pub open spec fn weight_score_spec(w1: u16, w2: u16) -> int {
    let diff = if w1 >= w2 {
        w1 - w2
    } else {
        w2 - w1
    };
    if diff == 0 {
        1000
    } else if diff <= 100 {
        800
    } else if diff <= 200 {
        600
    } else if diff <= 300 {
        400
    } else {
        200
    }
}

pub open spec fn style_score_spec(req_italic: bool, font_italic: bool) -> int {
    if req_italic == font_italic {
        1000
    } else if req_italic && !font_italic {
        400
    } else {
        700
    }
}

/// Category from name substrings alone; the default is sans-serif.
pub open spec fn name_category(name: Seq<char>) -> FontCategory {
    let low = lower_seq(name);
    if contains_sub(low, "mono"@) || contains_sub(low, "console"@) {
        FontCategory::Monospace
    } else if contains_sub(low, "serif"@) {
        FontCategory::Serif
    } else if contains_sub(low, "sans"@) {
        FontCategory::SansSerif
    } else if contains_sub(low, "script"@) || contains_sub(low, "hand"@) {
        FontCategory::Handwriting
    } else if contains_sub(low, "display"@) || contains_sub(low, "decorative"@) {
        FontCategory::Display
    } else {
        FontCategory::SansSerif
    }
}

/// Category compatibility, with the monospace flags deciding the two
/// asymmetric mismatch penalties.
pub open spec fn category_score_spec(
    req_family: Seq<char>,
    req_mono: bool,
    font_family: Seq<char>,
    font_mono: bool,
) -> int {
    let rc = name_category(req_family);
    let fc = name_category(font_family);
    if rc == fc {
        1000
    } else if (rc == FontCategory::Serif && fc == FontCategory::SansSerif) || (rc
        == FontCategory::SansSerif && fc == FontCategory::Serif) {
        300
    } else if rc == FontCategory::Monospace && req_mono && !font_mono {
        100
    } else if fc == FontCategory::Monospace && !req_mono && font_mono {
        200
    } else if (rc == FontCategory::Handwriting && fc == FontCategory::Display) || (rc
        == FontCategory::Display && fc == FontCategory::Handwriting) {
        600
    } else {
        400
    }
}

pub open spec fn metrics_score_spec(metrics: Option<crate::types::FontMetrics>) -> int {
    if metrics is Some {
        800
    } else {
        700
    }
}

/// The weighted combination: 35% name, 25% weight, 20% style, 15%
/// category, 5% metrics; multiplied by 0.7 on a monospace mismatch.
pub open spec fn combine_spec(n: int, w: int, st: int, c: int, m: int, req_mono: bool,
    font_mono: bool) -> int {
    let base = (350 * n + 250 * w + 200 * st + 150 * c + 50 * m) / 1000;
    if req_mono != font_mono {
        base * 700 / 1000
    } else {
        base
    }
}

pub open spec fn overall_score_spec(req: FontRequestV, f: FontDescriptorV) -> int {
    combine_spec(
        name_score_spec(req.family, f.family),
        weight_score_spec(req.weight, f.weight),
        style_score_spec(req.italic, f.italic),
        category_score_spec(req.family, req.monospaced, f.family, f.monospaced),
        metrics_score_spec(f.metrics),
        req.monospaced,
        f.monospaced,
    )
}

// ----- bounds ---------------------------------------------------------------

proof fn lemma_count_in_bound(a: Seq<Seq<char>>, b: Seq<Seq<char>>, i: int)
    requires
        0 <= i <= a.len(),
    ensures
        0 <= count_in(a, b, i) <= a.len() - i,
    decreases a.len() - i,
{
    if i < a.len() {
        lemma_count_in_bound(a, b, i + 1);
    }
}

proof fn lemma_count_not_in_nonneg(a: Seq<Seq<char>>, b: Seq<Seq<char>>, i: int)
    requires
        0 <= i,
    ensures
        count_not_in(a, b, i) >= 0,
    decreases a.len() - i,
{
    if i < a.len() {
        lemma_count_not_in_nonneg(a, b, i + 1);
    }
}

/// Every element of a deduplicated token list occurs in the original.
proof fn lemma_dedup_sub(ts: Seq<Seq<char>>, i: int)
    requires
        0 <= i,
    ensures
        forall|k: int|
            0 <= k < dedup_tokens(ts, i).len() ==> has_token(ts, #[trigger] dedup_tokens(ts, i)[k]),
    decreases ts.len() - i,
{
    if 0 <= i < ts.len() {
        lemma_dedup_sub(ts, i + 1);
        let rest = dedup_tokens(ts, i + 1);
        if !has_token(ts.subrange(0, i), ts[i]) {
            let whole = dedup_tokens(ts, i);
            assert(whole == seq![ts[i]] + rest);
            assert forall|k: int| 0 <= k < whole.len() implies has_token(
                ts,
                #[trigger] whole[k],
            ) by {
                if k == 0 {
                    assert(whole[0] == ts[i]);
                } else {
                    assert(whole[k] == rest[k - 1]);
                }
            }
        }
    }
}

/// If every element of `a` occurs in `b2` whenever it occurs in `b1`,
/// counting matches against `b1` is no more than against `b2`.
proof fn lemma_count_in_all(a: Seq<Seq<char>>, b: Seq<Seq<char>>, i: int)
    requires
        0 <= i,
        forall|k: int| i <= k < a.len() ==> has_token(b, #[trigger] a[k]),
    ensures
        count_in(a, b, i) == a.len() - i || i >= a.len(),
        i <= a.len() ==> count_in(a, b, i) == a.len() - i,
    decreases a.len() - i,
{
    if i < a.len() {
        lemma_count_in_all(a, b, i + 1);
    }
}

/// Word-token Jaccard stays within [0, 1000].
proof fn lemma_word_jaccard_bound(la: Seq<char>, lb: Seq<char>)
    ensures
        0 <= word_jaccard(la, lb) <= 1000,
{
    let ta = dedup_tokens(tokens(la), 0);
    let tb = dedup_tokens(tokens(lb), 0);
    let inter = count_in(ta, tokens(lb), 0);
    let extra = count_not_in(tb, tokens(la), 0);
    lemma_count_in_bound(ta, tokens(lb), 0);
    lemma_count_not_in_nonneg(tb, tokens(la), 0);
    let union = ta.len() + extra;
    if union != 0 {
        assert(inter <= union);
        assert(inter * 1000 <= union * 1000) by (nonlinear_arith)
            requires
                inter <= union,
                union > 0,
        ;
        assert(inter * 1000 / union <= 1000) by (nonlinear_arith)
            requires
                inter * 1000 <= union * 1000,
                union > 0,
        ;
        assert(inter * 1000 / union >= 0) by (nonlinear_arith)
            requires
                inter >= 0,
                union > 0,
        ;
    }
}

proof fn lemma_char_jaccard_bound(la: Seq<char>, lb: Seq<char>)
    ensures
        0 <= char_jaccard(la, lb) <= 1000,
{
    let ta = dedup_tokens(char_tokens(la), 0);
    let tb = dedup_tokens(char_tokens(lb), 0);
    let inter = count_in(ta, char_tokens(lb), 0);
    let extra = count_not_in(tb, char_tokens(la), 0);
    lemma_count_in_bound(ta, char_tokens(lb), 0);
    lemma_count_not_in_nonneg(tb, char_tokens(la), 0);
    let union = ta.len() + extra;
    if union != 0 {
        assert(inter <= union);
        assert(inter * 1000 <= union * 1000) by (nonlinear_arith)
            requires
                inter <= union,
                union > 0,
        ;
        assert(inter * 1000 / union <= 1000) by (nonlinear_arith)
            requires
                inter * 1000 <= union * 1000,
                union > 0,
        ;
        assert(inter * 1000 / union >= 0) by (nonlinear_arith)
            requires
                inter >= 0,
                union > 0,
        ;
    }
}

/// The character-set Jaccard bound, for other modules' scorers.
pub proof fn lemma_char_jaccard_pub(la: Seq<char>, lb: Seq<char>)
    ensures
        0 <= char_jaccard(la, lb) <= 1000,
{
    lemma_char_jaccard_bound(la, lb);
}

/// Character-set Jaccard on lowered character buffers.
pub fn char_jaccard_x(la: &Vec<char>, lb: &Vec<char>) -> (r: u32)
    ensures
        r as int == char_jaccard(la@, lb@),
        r <= 1000,
{
    proof {
        lemma_char_jaccard_bound(la@, lb@);
    }
    let ca_all = char_tokens_x(la);
    let cb_all = char_tokens_x(lb);
    let ca = dedup_x(&ca_all);
    let cb = dedup_x(&cb_all);
    let inter = count_in_x(&ca, &cb_all);
    let extra = count_not_in_x(&cb, &ca_all);
    proof {
        assert(inter <= ca@.len());
    }
    jaccard_permille(inter, ca.len(), extra)
}

pub proof fn lemma_name_score_bound(a: Seq<char>, b: Seq<char>)
    ensures
        0 <= name_score_spec(a, b) <= 1000,
{
    lemma_word_jaccard_bound(lower_seq(a), lower_seq(b));
    lemma_char_jaccard_bound(lower_seq(a), lower_seq(b));
}

/// The combined score of any request and face lies in [0, 1000].
pub proof fn lemma_overall_score_in_range(req: FontRequestV, f: FontDescriptorV)
    ensures
        0 <= overall_score_spec(req, f) <= 1000,
{
    lemma_name_score_bound(req.family, f.family);
    let n = name_score_spec(req.family, f.family);
    let w = weight_score_spec(req.weight, f.weight);
    let st = style_score_spec(req.italic, f.italic);
    let c = category_score_spec(req.family, req.monospaced, f.family, f.monospaced);
    let m = metrics_score_spec(f.metrics);
    let base = (350 * n + 250 * w + 200 * st + 150 * c + 50 * m) / 1000;
    assert(350 * n + 250 * w + 200 * st + 150 * c + 50 * m <= 1000000);
    assert(0 <= base <= 1000);
    if req.monospaced != f.monospaced {
        assert(0 <= base * 700 / 1000 <= 1000) by (nonlinear_arith)
            requires
                0 <= base <= 1000,
        ;
    }
}

/// A request matched against a face with the same family (up to case),
/// weight, slant and monospace flag lands in the Exact tier.
pub proof fn lemma_self_match_exact(req: FontRequestV, f: FontDescriptorV)
    requires
        lower_seq(req.family) == lower_seq(f.family),
        req.weight == f.weight,
        req.italic == f.italic,
        req.monospaced == f.monospaced,
    ensures
        overall_score_spec(req, f) >= 900,
{
    let n = name_score_spec(req.family, f.family);
    assert(n == 1000);
    assert(name_category(req.family) == name_category(f.family));
    let m = metrics_score_spec(f.metrics);
    assert(m == 800 || m == 700);
}

/// Flipping only the monospace flag of an otherwise identical face
/// strictly lowers the combined score.
pub proof fn lemma_mono_mismatch_reduces(req: FontRequestV, fa: FontDescriptorV,
    fb: FontDescriptorV)
    requires
        fa.family == fb.family,
        fa.weight == fb.weight,
        fa.italic == fb.italic,
        fa.metrics == fb.metrics,
        fa.monospaced == req.monospaced,
        fb.monospaced != req.monospaced,
    ensures
        overall_score_spec(req, fb) < overall_score_spec(req, fa),
{
    let n = name_score_spec(req.family, fa.family);
    let w = weight_score_spec(req.weight, fa.weight);
    let st = style_score_spec(req.italic, fa.italic);
    let m = metrics_score_spec(fa.metrics);
    let ca = category_score_spec(req.family, req.monospaced, fa.family, fa.monospaced);
    let cb = category_score_spec(req.family, req.monospaced, fb.family, fb.monospaced);
    lemma_name_score_bound(req.family, fa.family);
    assert(cb <= ca);
    let base_a = (350 * n + 250 * w + 200 * st + 150 * ca + 50 * m) / 1000;
    let base_b = (350 * n + 250 * w + 200 * st + 150 * cb + 50 * m) / 1000;
    assert(350 * n + 250 * w + 200 * st + 150 * cb + 50 * m <= 350 * n + 250 * w + 200 * st + 150
        * ca + 50 * m);
    assert(base_b <= base_a);
    assert(base_a >= 160);
    assert(base_b >= 160);
    assert(base_b * 700 / 1000 < base_b) by (nonlinear_arith)
        requires
            base_b >= 1,
    ;
    assert(overall_score_spec(req, fb) == base_b * 700 / 1000);
    assert(overall_score_spec(req, fa) == base_a);
}

// ----- executable scoring ---------------------------------------------------

pub open spec fn token_views(ts: Seq<Vec<char>>) -> Seq<Seq<char>> {
    ts.map_values(|v: Vec<char>| v@)
}

fn tokens_x(s: &Vec<char>) -> (r: Vec<Vec<char>>)
    ensures
        token_views(r@) == tokens(s@),
{
    let mut out: Vec<Vec<char>> = Vec::new();
    let mut cur: Vec<char> = Vec::new();
    let mut i: usize = 0;
    while i < s.len()
        invariant
            i <= s@.len(),
            tokens(s@) == token_views(out@) + tokens_acc(s@, i as int, cur@),
        decreases s@.len() - i,
    {
        let c = s[i];
        if c == ' ' {
            if cur.len() > 0 {
                let ghost prev = out@;
                out.push(cur);
                cur = Vec::new();
                proof {
                    assert(token_views(out@) =~= token_views(prev).push(out@.last()@));
                    assert(token_views(out@) + tokens_acc(s@, i + 1, cur@) =~= token_views(prev)
                        + tokens_acc(s@, i as int, out@.last()@));
                }
            } else {
                proof {
                    assert(cur@ =~= Seq::<char>::empty());
                }
            }
        } else {
            cur.push(c);
        }
        i += 1;
    }
    if cur.len() > 0 {
        let ghost prev = out@;
        out.push(cur);
        proof {
            assert(token_views(out@) =~= token_views(prev).push(out@.last()@));
            assert(token_views(prev) + tokens_acc(s@, s@.len() as int, out@.last()@)
                =~= token_views(out@));
        }
    } else {
        proof {
            assert(token_views(out@) + tokens_acc(s@, s@.len() as int, cur@) =~= token_views(out@));
        }
    }
    out
}

/// Does `t` occur among the first `upto` token views?
fn find_token_x(ts: &Vec<Vec<char>>, upto: usize, t: &Vec<char>) -> (r: bool)
    requires
        upto <= ts@.len(),
    ensures
        r == has_token(token_views(ts@).subrange(0, upto as int), t@),
{
    let ghost pre = token_views(ts@).subrange(0, upto as int);
    let mut j: usize = 0;
    while j < upto
        invariant
            upto <= ts@.len(),
            j <= upto,
            pre == token_views(ts@).subrange(0, upto as int),
            forall|k: int| 0 <= k < j ==> pre[k] != t@,
        decreases upto - j,
    {
        if eq_vec(&ts[j], t) {
            proof {
                assert(pre[j as int] == t@);
            }
            return true;
        }
        j += 1;
    }
    false
}

fn dedup_x(ts: &Vec<Vec<char>>) -> (r: Vec<Vec<char>>)
    ensures
        token_views(r@) == dedup_tokens(token_views(ts@), 0),
{
    let ghost tv = token_views(ts@);
    let mut out: Vec<Vec<char>> = Vec::new();
    let mut i: usize = 0;
    while i < ts.len()
        invariant
            i <= ts@.len(),
            tv == token_views(ts@),
            dedup_tokens(tv, 0) == token_views(out@) + dedup_tokens(tv, i as int),
        decreases ts@.len() - i,
    {
        if find_token_x(ts, i, &ts[i]) {
        } else {
            let ghost prev = out@;
            out.push(copy_chars(&ts[i]));
            proof {
                assert(token_views(out@) =~= token_views(prev).push(tv[i as int]));
                assert(dedup_tokens(tv, i as int) =~= seq![tv[i as int]] + dedup_tokens(tv, i + 1));
                assert(token_views(out@) + dedup_tokens(tv, i + 1) =~= token_views(prev)
                    + dedup_tokens(tv, i as int));
            }
        }
        i += 1;
    }
    proof {
        assert(token_views(out@) =~= dedup_tokens(tv, 0));
    }
    out
}

fn copy_chars(v: &Vec<char>) -> (r: Vec<char>)
    ensures
        r@ == v@,
{
    let r = crate::text::copy_range(v, 0, v.len());
    proof {
        assert(v@.subrange(0, v@.len() as int) =~= v@);
    }
    r
}

fn count_in_x(a: &Vec<Vec<char>>, b: &Vec<Vec<char>>) -> (r: usize)
    ensures
        r as int == count_in(token_views(a@), token_views(b@), 0),
        r <= a@.len(),
{
    let ghost av = token_views(a@);
    let ghost bv = token_views(b@);
    proof {
        lemma_count_in_bound(av, bv, 0);
    }
    let mut r: usize = 0;
    let mut i: usize = 0;
    while i < a.len()
        invariant
            i <= a@.len(),
            av == token_views(a@),
            bv == token_views(b@),
            r <= i,
            r + count_in(av, bv, i as int) == count_in(av, bv, 0),
        decreases a@.len() - i,
    {
        proof {
            lemma_count_in_bound(av, bv, i + 1);
        }
        if find_token_x(b, b.len(), &a[i]) {
            proof {
                assert(bv.subrange(0, bv.len() as int) =~= bv);
            }
            r += 1;
        } else {
            proof {
                assert(bv.subrange(0, bv.len() as int) =~= bv);
            }
        }
        i += 1;
    }
    r
}

fn count_not_in_x(a: &Vec<Vec<char>>, b: &Vec<Vec<char>>) -> (r: usize)
    ensures
        r as int == count_not_in(token_views(a@), token_views(b@), 0),
        r <= a@.len(),
{
    let ghost av = token_views(a@);
    let ghost bv = token_views(b@);
    let mut r: usize = 0;
    let mut i: usize = 0;
    while i < a.len()
        invariant
            i <= a@.len(),
            av == token_views(a@),
            bv == token_views(b@),
            r <= i,
            r + count_not_in(av, bv, i as int) == count_not_in(av, bv, 0),
        decreases a@.len() - i,
    {
        if find_token_x(b, b.len(), &a[i]) {
            proof {
                assert(bv.subrange(0, bv.len() as int) =~= bv);
            }
        } else {
            proof {
                assert(bv.subrange(0, bv.len() as int) =~= bv);
            }
            r += 1;
        }
        i += 1;
    }
    proof {
        lemma_count_not_in_nonneg(av, bv, 0);
    }
    r
}

fn char_tokens_x(s: &Vec<char>) -> (r: Vec<Vec<char>>)
    ensures
        token_views(r@) == char_tokens(s@),
{
    let mut out: Vec<Vec<char>> = Vec::new();
    let mut i: usize = 0;
    while i < s.len()
        invariant
            i <= s@.len(),
            token_views(out@) == char_tokens(s@).subrange(0, i as int),
        decreases s@.len() - i,
    {
        let mut one: Vec<char> = Vec::new();
        one.push(s[i]);
        let ghost prev = out@;
        out.push(one);
        proof {
            assert(token_views(out@) =~= token_views(prev).push(seq![s@[i as int]]));
            assert(token_views(out@) =~= char_tokens(s@).subrange(0, i + 1));
        }
        i += 1;
    }
    proof {
        assert(char_tokens(s@).subrange(0, s@.len() as int) =~= char_tokens(s@));
    }
    out
}

/// inter * 1000 / (base + extra), performed in 128 bits to rule out
/// overflow.
fn jaccard_permille(inter: usize, base: usize, extra: usize) -> (r: u32)
    requires
        inter <= base,
    ensures
        base + extra == 0 ==> r == 0,
        base + extra > 0 ==> r as int == inter * 1000 / (base + extra),
        r <= 1000,
{
    if base == 0 && extra == 0 {
        return 0;
    }
    let union_w: u128 = (base as u128) + (extra as u128);
    let wide: u128 = (inter as u128) * 1000 / union_w;
    proof {
        let u = base + extra;
        assert(inter * 1000 <= u * 1000) by (nonlinear_arith)
            requires
                inter <= u,
        ;
        assert(inter * 1000 / (u as int) <= 1000) by (nonlinear_arith)
            requires
                inter * 1000 <= u * 1000,
                u > 0,
        ;
        assert(inter * 1000 / (u as int) >= 0) by (nonlinear_arith)
            requires
                inter >= 0,
                u > 0,
        ;
    }
    wide as u32
}

/// Name similarity in permille.
pub fn name_score(a: &String, b: &String) -> (r: u32)
    ensures
        r as int == name_score_spec(a@, b@),
        r <= 1000,
{
    proof {
        lemma_name_score_bound(a@, b@);
    }
    let ac = string_chars(a);
    let bc = string_chars(b);
    let la = lower_vec(&ac);
    let lb = lower_vec(&bc);
    if eq_vec(&la, &lb) {
        return 1000;
    }
    if contains_vec(&la, &lb) || contains_vec(&lb, &la) {
        return 850;
    }
    let ta_all = tokens_x(&la);
    let tb_all = tokens_x(&lb);
    let ta = dedup_x(&ta_all);
    let tb = dedup_x(&tb_all);
    let inter = count_in_x(&ta, &tb_all);
    let extra = count_not_in_x(&tb, &ta_all);
    proof {
        lemma_dedup_sub(token_views(ta_all@), 0);
        lemma_count_in_bound(token_views(ta@), token_views(tb_all@), 0);
    }
    proof {
        assert(inter <= ta@.len());
    }
    let wj = jaccard_permille(inter, ta.len(), extra);
    if wj != 0 {
        return wj;
    }
    char_jaccard_x(&la, &lb)
}

pub fn weight_score(w1: u16, w2: u16) -> (r: u32)
    ensures
        r as int == weight_score_spec(w1, w2),
        r <= 1000,
{
    let diff: u16 = if w1 >= w2 {
        w1 - w2
    } else {
        w2 - w1
    };
    if diff == 0 {
        1000
    } else if diff <= 100 {
        800
    } else if diff <= 200 {
        600
    } else if diff <= 300 {
        400
    } else {
        200
    }
}

pub fn style_score(req_italic: bool, font_italic: bool) -> (r: u32)
    ensures
        r as int == style_score_spec(req_italic, font_italic),
        r <= 1000,
{
    if req_italic == font_italic {
        1000
    } else if req_italic && !font_italic {
        400
    } else {
        700
    }
}

fn name_category_x(name: &String) -> (r: FontCategory)
    ensures
        r == name_category(name@),
{
    let chars = string_chars(name);
    let low = lower_vec(&chars);
    if has_low(&low, "mono") || has_low(&low, "console") {
        FontCategory::Monospace
    } else if has_low(&low, "serif") {
        FontCategory::Serif
    } else if has_low(&low, "sans") {
        FontCategory::SansSerif
    } else if has_low(&low, "script") || has_low(&low, "hand") {
        FontCategory::Handwriting
    } else if has_low(&low, "display") || has_low(&low, "decorative") {
        FontCategory::Display
    } else {
        FontCategory::SansSerif
    }
}

fn has_low(low: &Vec<char>, kw: &str) -> (r: bool)
    ensures
        r == contains_sub(low@, kw@),
{
    let k = str_chars(kw);
    contains_vec(low, &k)
}

pub fn category_score(req_family: &String, req_mono: bool, font_family: &String,
    font_mono: bool) -> (r: u32)
    ensures
        r as int == category_score_spec(req_family@, req_mono, font_family@, font_mono),
        r <= 1000,
{
    let rc = name_category_x(req_family);
    let fc = name_category_x(font_family);
    if rc == fc {
        1000
    } else if (rc == FontCategory::Serif && fc == FontCategory::SansSerif) || (rc
        == FontCategory::SansSerif && fc == FontCategory::Serif) {
        300
    } else if rc == FontCategory::Monospace && req_mono && !font_mono {
        100
    } else if fc == FontCategory::Monospace && !req_mono && font_mono {
        200
    } else if (rc == FontCategory::Handwriting && fc == FontCategory::Display) || (rc
        == FontCategory::Display && fc == FontCategory::Handwriting) {
        600
    } else {
        400
    }
}

pub fn combine_scores(n: u32, w: u32, st: u32, c: u32, m: u32, req_mono: bool,
    font_mono: bool) -> (r: u32)
    requires
        n <= 1000,
        w <= 1000,
        st <= 1000,
        c <= 1000,
        m <= 1000,
    ensures
        r as int == combine_spec(n as int, w as int, st as int, c as int, m as int, req_mono,
            font_mono),
        r <= 1000,
{
    let base: u32 = (350 * n + 250 * w + 200 * st + 150 * c + 50 * m) / 1000;
    if req_mono != font_mono {
        base * 700 / 1000
    } else {
        base
    }
}

// ----- tiers ----------------------------------------------------------------

/// Similarity band of a score in permille.
#[derive(Debug, Clone, Copy, PartialEq, Eq, Structural)]
pub enum MatchTier {
    Exact(u32),
    Similar(u32),
    Low(u32),
}

pub open spec fn tier_of(score: u32) -> MatchTier {
    if score >= 900 {
        MatchTier::Exact(score)
    } else if score >= 800 {
        MatchTier::Similar(score)
    } else {
        MatchTier::Low(score)
    }
}

/// 0 for Exact, 1 for Similar, 2 for Low.
pub open spec fn tier_rank(t: MatchTier) -> int {
    match t {
        MatchTier::Exact(_) => 0,
        MatchTier::Similar(_) => 1,
        MatchTier::Low(_) => 2,
    }
}

impl MatchTier {
    pub fn from_score(score: u32) -> (r: MatchTier)
        ensures
            r == tier_of(score),
    {
        if score >= 900 {
            MatchTier::Exact(score)
        } else if score >= 800 {
            MatchTier::Similar(score)
        } else {
            MatchTier::Low(score)
        }
    }

    pub fn should_suggest_internet_search(&self) -> (r: bool)
        ensures
            r == (self is Low),
    {
        match self {
            MatchTier::Low(_) => true,
            _ => false,
        }
    }

    /// Only the Exact tier counts as a good match.
    pub fn is_good_match(&self) -> (r: bool)
        ensures
            r == (self is Exact),
    {
        match self {
            MatchTier::Exact(_) => true,
            _ => false,
        }
    }
}

/// Tier bands never overlap: an Exact score always beats a Similar one,
/// which always beats a Low one.
pub proof fn lemma_tier_partition_ordered(s1: u32, s2: u32)
    ensures
        tier_of(s1) is Exact && tier_of(s2) is Similar ==> s1 > s2,
        tier_of(s1) is Similar && tier_of(s2) is Low ==> s1 > s2,
        tier_of(s1) is Exact && tier_of(s2) is Low ==> s1 > s2,
{
}

// ----- match records --------------------------------------------------------

/// Per-axis scores, each in permille.
#[derive(Debug, Clone, Copy, PartialEq, Eq, Structural)]
pub struct SimilarityDetails {
    pub name_similarity: u32,
    pub weight_similarity: u32,
    pub style_similarity: u32,
    pub category_similarity: u32,
    pub metrics_similarity: u32,
}

pub struct FontMatchV {
    pub font: FontDescriptorV,
    pub score: FontMatchScore,
    pub tier: MatchTier,
    pub similarity_details: SimilarityDetails,
}

#[derive(Debug, Clone)]
pub struct FontMatch {
    pub font: FontDescriptor,
    pub score: FontMatchScore,
    pub tier: MatchTier,
    pub similarity_details: SimilarityDetails,
}

impl View for FontMatch {
    type V = FontMatchV;

    open spec fn view(&self) -> FontMatchV {
        FontMatchV {
            font: self.font@,
            score: self.score,
            tier: self.tier,
            similarity_details: self.similarity_details,
        }
    }
}

#[derive(Debug, Clone, Copy, PartialEq, Eq, Structural)]
pub enum SuggestionSource {
    LocalDatabase,
    InternetSearch,
    Substitution,
}

pub struct FontSuggestionV {
    pub font: FontDescriptorV,
    pub similarity_score: u32,
    pub reason: Seq<char>,
    pub source: SuggestionSource,
}

#[derive(Debug, Clone)]
pub struct FontSuggestion {
    pub font: FontDescriptor,
    pub similarity_score: u32,
    pub reason: String,
    pub source: SuggestionSource,
}

impl View for FontSuggestion {
    type V = FontSuggestionV;

    open spec fn view(&self) -> FontSuggestionV {
        FontSuggestionV {
            font: self.font@,
            similarity_score: self.similarity_score,
            reason: self.reason@,
            source: self.source,
        }
    }
}

pub struct TieredMatchResultV {
    pub original_request: FontRequestV,
    pub matches: Seq<FontMatchV>,
    pub best_tier: MatchTier,
    pub suggestions: Seq<FontSuggestionV>,
}

#[derive(Debug, Clone)]
pub struct TieredMatchResult {
    pub original_request: FontRequest,
    pub matches: Vec<FontMatch>,
    pub best_tier: MatchTier,
    pub suggestions: Vec<FontSuggestion>,
}

impl View for TieredMatchResult {
    type V = TieredMatchResultV;

    open spec fn view(&self) -> TieredMatchResultV {
        TieredMatchResultV {
            original_request: self.original_request@,
            matches: self.matches@.map_values(|m: FontMatch| m@),
            best_tier: self.best_tier,
            suggestions: self.suggestions@.map_values(|s: FontSuggestion| s@),
        }
    }
}

// ----- the engine -----------------------------------------------------------

/// Similarity engine, optionally primed with a precomputed matrix: rows of
/// (family, list of (other family, permille score)).
pub struct FontSimilarityEngine {
    precomputed_similarities: Vec<(String, Vec<(String, u32)>)>,
}

impl View for FontSimilarityEngine {
    type V = Seq<(Seq<char>, Seq<(Seq<char>, u32)>)>;

    closed spec fn view(&self) -> Seq<(Seq<char>, Seq<(Seq<char>, u32)>)> {
        matrix_view(self.precomputed_similarities@)
    }
}

pub open spec fn find_row(m: Seq<(Seq<char>, Seq<(Seq<char>, u32)>)>, fam: Seq<char>,
    i: int) -> int
    decreases m.len() - i,
{
    if i < 0 || i >= m.len() {
        -1
    } else if m[i].0 == fam {
        i
    } else {
        find_row(m, fam, i + 1)
    }
}

pub open spec fn find_pair(ps: Seq<(Seq<char>, u32)>, name: Seq<char>, i: int) -> int
    decreases ps.len() - i,
{
    if i < 0 || i >= ps.len() {
        -1
    } else if ps[i].0 == name {
        i
    } else {
        find_pair(ps, name, i + 1)
    }
}

/// Score of the first matrix entry for `(fam, other)`, if any.
pub open spec fn matrix_lookup(m: Seq<(Seq<char>, Seq<(Seq<char>, u32)>)>, fam: Seq<char>,
    other: Seq<char>) -> Option<u32> {
    let r = find_row(m, fam, 0);
    if r < 0 {
        None
    } else {
        let p = find_pair(m[r].1, other, 0);
        if p < 0 {
            None
        } else {
            Some(m[r].1[p].1)
        }
    }
}

proof fn lemma_find_row_chain(m: Seq<(Seq<char>, Seq<(Seq<char>, u32)>)>, fam: Seq<char>, j: int,
    i: int)
    requires
        0 <= j <= i <= m.len(),
        forall|k: int| j <= k < i ==> (#[trigger] m[k]).0 != fam,
        i < m.len() ==> m[i].0 == fam,
    ensures
        i < m.len() ==> find_row(m, fam, j) == i,
        i == m.len() ==> find_row(m, fam, j) == -1,
    decreases i - j,
{
    if j < i {
        lemma_find_row_chain(m, fam, j + 1, i);
    } else if i == m.len() {
        lemma_find_row_none(m, fam, j);
    }
}

proof fn lemma_find_row_none(m: Seq<(Seq<char>, Seq<(Seq<char>, u32)>)>, fam: Seq<char>, j: int)
    requires
        0 <= j,
        forall|k: int| j <= k < m.len() ==> (#[trigger] m[k]).0 != fam,
    ensures
        find_row(m, fam, j) == -1,
    decreases m.len() - j,
{
    if j < m.len() {
        lemma_find_row_none(m, fam, j + 1);
    }
}

proof fn lemma_find_pair_chain(ps: Seq<(Seq<char>, u32)>, name: Seq<char>, j: int, i: int)
    requires
        0 <= j <= i <= ps.len(),
        forall|k: int| j <= k < i ==> (#[trigger] ps[k]).0 != name,
        i < ps.len() ==> ps[i].0 == name,
    ensures
        i < ps.len() ==> find_pair(ps, name, j) == i,
        i == ps.len() ==> find_pair(ps, name, j) == -1,
    decreases i - j,
{
    if j < i {
        lemma_find_pair_chain(ps, name, j + 1, i);
    } else if i == ps.len() {
        lemma_find_pair_none(ps, name, j);
    }
}

proof fn lemma_find_pair_none(ps: Seq<(Seq<char>, u32)>, name: Seq<char>, j: int)
    requires
        0 <= j,
        forall|k: int| j <= k < ps.len() ==> (#[trigger] ps[k]).0 != name,
    ensures
        find_pair(ps, name, j) == -1,
    decreases ps.len() - j,
{
    if j < ps.len() {
        lemma_find_pair_none(ps, name, j + 1);
    }
}

/// The per-axis scores when no precomputed entry applies.
pub open spec fn computed_score(req: FontRequestV, f: FontDescriptorV) -> FontMatchScore {
    FontMatchScore {
        overall: overall_score_spec(req, f) as u32,
        family: name_score_spec(req.family, f.family) as u32,
        weight: weight_score_spec(req.weight, f.weight) as u32,
        style: style_score_spec(req.italic, f.italic) as u32,
        monospaced: if req.monospaced == f.monospaced {
            1000u32
        } else {
            0u32
        },
        metrics: metrics_score_spec(f.metrics) as u32,
    }
}

pub open spec fn computed_details(req: FontRequestV, f: FontDescriptorV) -> SimilarityDetails {
    SimilarityDetails {
        name_similarity: name_score_spec(req.family, f.family) as u32,
        weight_similarity: weight_score_spec(req.weight, f.weight) as u32,
        style_similarity: style_score_spec(req.italic, f.italic) as u32,
        category_similarity: category_score_spec(
            req.family,
            req.monospaced,
            f.family,
            f.monospaced,
        ) as u32,
        metrics_similarity: metrics_score_spec(f.metrics) as u32,
    }
}

/// The scores the engine reports: a precomputed entry (when allowed)
/// replaces the name axis and sets every other axis to 1000.
pub open spec fn full_score(m: Seq<(Seq<char>, Seq<(Seq<char>, u32)>)>, use_pre: bool,
    req: FontRequestV, f: FontDescriptorV) -> FontMatchScore {
    if use_pre && matrix_lookup(m, req.family, f.family) is Some {
        let p = matrix_lookup(m, req.family, f.family)->Some_0;
        FontMatchScore {
            overall: p,
            family: p,
            weight: 1000,
            style: 1000,
            monospaced: 1000,
            metrics: 1000,
        }
    } else {
        computed_score(req, f)
    }
}

pub open spec fn full_details(m: Seq<(Seq<char>, Seq<(Seq<char>, u32)>)>, use_pre: bool,
    req: FontRequestV, f: FontDescriptorV) -> SimilarityDetails {
    if use_pre && matrix_lookup(m, req.family, f.family) is Some {
        let p = matrix_lookup(m, req.family, f.family)->Some_0;
        SimilarityDetails {
            name_similarity: p,
            weight_similarity: 1000,
            style_similarity: 1000,
            category_similarity: 1000,
            metrics_similarity: 1000,
        }
    } else {
        computed_details(req, f)
    }
}

impl FontSimilarityEngine {
    pub fn new(similarity_matrix: Option<Vec<(String, Vec<(String, u32)>)>>) -> (r:
        FontSimilarityEngine)
        ensures
            match similarity_matrix {
                Some(m) => r@ == matrix_view(m@),
                None => r@ == matrix_view(Seq::<(String, Vec<(String, u32)>)>::empty()),
            },
    {
        match similarity_matrix {
            Some(m) => FontSimilarityEngine { precomputed_similarities: m },
            None => {
                let r = FontSimilarityEngine { precomputed_similarities: Vec::new() };
                proof {
                    assert(matrix_view(Seq::<(String, Vec<(String, u32)>)>::empty())
                        =~= matrix_view(r.precomputed_similarities@));
                }
                r
            },
        }
    }

    fn get_precomputed_similarity(&self, name1: &String, name2: &String) -> (r: Option<u32>)
        ensures
            r == matrix_lookup(self@, name1@, name2@),
    {
        let m = &self.precomputed_similarities;
        let ghost mv = matrix_view(m@);
        proof {
            assert(mv == self@);
        }
        let mut i: usize = 0;
        while i < m.len()
            invariant
                mv == matrix_view(m@),
                mv == self@,
                i <= m@.len(),
                forall|k: int| 0 <= k < i ==> (#[trigger] mv[k]).0 != name1@,
            decreases m@.len() - i,
        {
            proof {
                assert(mv[i as int] == (m@[i as int].0@, m@[i as int].1@.map_values(
                    |p: (String, u32)| (p.0@, p.1),
                )));
            }
            if m[i].0 == *name1 {
                proof {
                    lemma_find_row_chain(mv, name1@, 0, i as int);
                }
                let ps = &m[i].1;
                let ghost pv = mv[i as int].1;
                proof {
                    assert(forall|k: int|
                        0 <= k < ps@.len() ==> pv[k] == ((#[trigger] ps@[k]).0@, ps@[k].1));
                }
                let mut j: usize = 0;
                while j < ps.len()
                    invariant
                        mv == matrix_view(m@),
                        mv == self@,
                        i < m@.len(),
                        find_row(mv, name1@, 0) == i as int,
                        pv == mv[i as int].1,
                        pv.len() == ps@.len(),
                        forall|k: int|
                            0 <= k < ps@.len() ==> pv[k] == ((#[trigger] ps@[k]).0@, ps@[k].1),
                        j <= ps@.len(),
                        forall|k: int| 0 <= k < j ==> (#[trigger] pv[k]).0 != name2@,
                    decreases ps@.len() - j,
                {
                    if ps[j].0 == *name2 {
                        let v = ps[j].1;
                        proof {
                            assert(mv == self@);
                            assert(pv[j as int].0 == name2@);
                            lemma_find_pair_chain(pv, name2@, 0, j as int);
                            assert(find_row(mv, name1@, 0) == i as int);
                            assert(find_pair(mv[i as int].1, name2@, 0) == j as int);
                            assert(v == pv[j as int].1);
                            assert(matrix_lookup(self@, name1@, name2@) == Some(v));
                        }
                        return Some(v);
                    }
                    j += 1;
                }
                proof {
                    assert(mv == self@);
                    lemma_find_pair_chain(pv, name2@, 0, pv.len() as int);
                    assert(matrix_lookup(self@, name1@, name2@) is None);
                }
                return None;
            }
            i += 1;
        }
        proof {
            lemma_find_row_chain(mv, name1@, 0, mv.len() as int);
        }
        None
    }

    /// Five-axis scores of one candidate against the request.  With
    /// `use_precomputed`, a matrix entry short-circuits the computation.
    pub fn calculate_comprehensive_similarity(
        &self,
        request: &FontRequest,
        font: &FontDescriptor,
        use_precomputed: bool,
    ) -> (r: (FontMatchScore, SimilarityDetails))
        ensures
            r.0 == full_score(self@, use_precomputed, request@, font@),
            r.1 == full_details(self@, use_precomputed, request@, font@),
    {
        if use_precomputed {
            if let Some(p) = self.get_precomputed_similarity(&request.family, &font.family) {
                let score = FontMatchScore {
                    overall: p,
                    family: p,
                    weight: 1000,
                    style: 1000,
                    monospaced: 1000,
                    metrics: 1000,
                };
                let details = SimilarityDetails {
                    name_similarity: p,
                    weight_similarity: 1000,
                    style_similarity: 1000,
                    category_similarity: 1000,
                    metrics_similarity: 1000,
                };
                return (score, details);
            }
        }
        let n = name_score(&request.family, &font.family);
        let w = weight_score(request.weight, font.weight);
        let st = style_score(request.italic, font.italic);
        let c = category_score(&request.family, request.monospaced, &font.family, font.monospaced);
        let m = if font.metrics.is_some() {
            800
        } else {
            700
        };
        let overall = combine_scores(n, w, st, c, m, request.monospaced, font.monospaced);
        let score = FontMatchScore {
            overall,
            family: n,
            weight: w,
            style: st,
            monospaced: if request.monospaced == font.monospaced {
                1000
            } else {
                0
            },
            metrics: m,
        };
        let details = SimilarityDetails {
            name_similarity: n,
            weight_similarity: w,
            style_similarity: st,
            category_similarity: c,
            metrics_similarity: m,
        };
        (score, details)
    }
}

// ----- tiered matching ------------------------------------------------------

pub open spec fn font_views(fs: Seq<FontDescriptor>) -> Seq<FontDescriptorV> {
    fs.map_values(|f: FontDescriptor| f@)
}

/// A match record is consistent: its face comes from the candidate list
/// and its scores and tier are the engine's.
pub open spec fn match_ok(m: Seq<(Seq<char>, Seq<(Seq<char>, u32)>)>, req: FontRequestV,
    fv: Seq<FontDescriptorV>, fm: FontMatchV) -> bool {
    &&& exists|k: int| 0 <= k < fv.len() && fv[k] == fm.font
    &&& fm.score == full_score(m, true, req, fm.font)
    &&& fm.tier == tier_of(fm.score.overall)
    &&& fm.similarity_details == full_details(m, true, req, fm.font)
}

/// How many candidates from `i` on land in tier rank `r`.
pub open spec fn count_rank(m: Seq<(Seq<char>, Seq<(Seq<char>, u32)>)>, req: FontRequestV,
    fv: Seq<FontDescriptorV>, r: int, i: int) -> int
    decreases fv.len() - i,
{
    if i < 0 || i >= fv.len() {
        0
    } else {
        (if tier_rank(tier_of(full_score(m, true, req, fv[i]).overall)) == r {
            1int
        } else {
            0int
        }) + count_rank(m, req, fv, r, i + 1)
    }
}

pub open spec fn spec_min(a: int, b: int) -> int {
    if a <= b {
        a
    } else {
        b
    }
}

proof fn lemma_count_rank_bound(m: Seq<(Seq<char>, Seq<(Seq<char>, u32)>)>, req: FontRequestV,
    fv: Seq<FontDescriptorV>, r: int, i: int)
    requires
        0 <= i <= fv.len(),
    ensures
        0 <= count_rank(m, req, fv, r, i) <= fv.len() - i,
    decreases fv.len() - i,
{
    if i < fv.len() {
        lemma_count_rank_bound(m, req, fv, r, i + 1);
    }
}

/// Tier counts are nonnegative and bounded by the candidate count.
pub proof fn lemma_count_rank_bounds_pub(m: Seq<(Seq<char>, Seq<(Seq<char>, u32)>)>,
    req: FontRequestV, fv: Seq<FontDescriptorV>, r: int)
    ensures
        0 <= count_rank(m, req, fv, r, 0) <= fv.len(),
{
    lemma_count_rank_bound(m, req, fv, r, 0);
}

/// Every candidate lands in exactly one tier.
pub proof fn lemma_rank_partition(m: Seq<(Seq<char>, Seq<(Seq<char>, u32)>)>, req: FontRequestV,
    fv: Seq<FontDescriptorV>, i: int)
    requires
        0 <= i <= fv.len(),
    ensures
        count_rank(m, req, fv, 0, i) + count_rank(m, req, fv, 1, i) + count_rank(m, req, fv, 2, i)
            == fv.len() - i,
    decreases fv.len() - i,
{
    if i < fv.len() {
        lemma_rank_partition(m, req, fv, i + 1);
    }
}

/// Sorts matches by overall score, highest first.
#[verifier::loop_isolation(false)]
fn sort_matches_desc(v: Vec<FontMatch>) -> (r: Vec<FontMatch>)
    ensures
        r@.len() == v@.len(),
        r@.to_multiset() == v@.to_multiset(),
        forall|x: int, y: int|
            0 <= x <= y < r@.len() ==> (#[trigger] r@[x]).score.overall
                >= (#[trigger] r@[y]).score.overall,
{
    broadcast use vstd::seq_lib::group_to_multiset_ensures;

    let ghost orig = v@;
    let mut src = v;
    let mut out: Vec<FontMatch> = Vec::new();
    while src.len() > 0
        invariant
            out@.to_multiset().add(src@.to_multiset()) == orig.to_multiset(),
            out@.len() + src@.len() == orig.len(),
            forall|x: int, y: int|
                0 <= x <= y < out@.len() ==> (#[trigger] out@[x]).score.overall
                    >= (#[trigger] out@[y]).score.overall,
            forall|x: int, y: int|
                0 <= x < out@.len() && 0 <= y < src@.len() ==> (#[trigger] out@[x]).score.overall
                    >= (#[trigger] src@[y]).score.overall,
        decreases src@.len(),
    {
        let mut mi: usize = 0;
        let mut k: usize = 1;
        while k < src.len()
            invariant
                mi < k <= src@.len(),
                forall|j: int| 0 <= j < k ==> (#[trigger] src@[j]).score.overall
                    <= src@[mi as int].score.overall,
            decreases src@.len() - k,
        {
            if src[k].score.overall > src[mi].score.overall {
                mi = k;
            }
            k += 1;
        }
        let ghost src_before = src@;
        let m = src.remove(mi);
        let ghost out_before = out@;
        out.push(m);
        proof {
            assert(out@.to_multiset() =~= out_before.to_multiset().insert(m));
            assert(src@.to_multiset() =~= src_before.to_multiset().remove(m));
            assert(src_before.to_multiset().count(m) > 0) by {
                assert(src_before[mi as int] == m);
                assert(src_before.contains(m));
            }
            assert(out@.to_multiset().add(src@.to_multiset()) =~= out_before.to_multiset().add(
                src_before.to_multiset(),
            ));
            assert forall|y: int| 0 <= y < src@.len() implies m.score.overall
                >= (#[trigger] src@[y]).score.overall by {
                assert(src@[y] == if y < mi {
                    src_before[y]
                } else {
                    src_before[y + 1]
                });
            }
        }
    }
    proof {
        assert(out@.to_multiset().add(src@.to_multiset()) =~= out@.to_multiset());
        assert(orig.to_multiset().len() == orig.len());
        assert(out@.to_multiset().len() == out@.len());
    }
    out
}

/// Equal multisets carry the per-element consistency and rank facts over.
proof fn lemma_matches_transfer(a: Seq<FontMatch>, b: Seq<FontMatch>,
    m: Seq<(Seq<char>, Seq<(Seq<char>, u32)>)>, req: FontRequestV, fv: Seq<FontDescriptorV>,
    rr: int)
    requires
        a.to_multiset() == b.to_multiset(),
        forall|j: int| 0 <= j < a.len() ==> match_ok(m, req, fv, (#[trigger] a[j])@),
        forall|j: int| 0 <= j < a.len() ==> tier_rank((#[trigger] a[j]).tier) == rr,
    ensures
        forall|j: int| 0 <= j < b.len() ==> match_ok(m, req, fv, (#[trigger] b[j])@),
        forall|j: int| 0 <= j < b.len() ==> tier_rank((#[trigger] b[j]).tier) == rr,
{
    broadcast use vstd::seq_lib::group_to_multiset_ensures;

    assert forall|j: int| 0 <= j < b.len() implies match_ok(m, req, fv, (#[trigger] b[j])@)
        && tier_rank(b[j].tier) == rr by {
        assert(b.contains(b[j]));
        assert(b.to_multiset().count(b[j]) > 0);
        assert(a.to_multiset().count(b[j]) > 0);
        assert(a.contains(b[j]));
        let i = choose|i: int| 0 <= i < a.len() && a[i] == b[j];
    }
}

impl FontSimilarityEngine {
    /// Scores every candidate, partitions the matches into tiers, sorts
    /// each tier by score descending and truncates it to the limit.
    /// The best tier is that of the leading match.
    #[verifier::loop_isolation(false)]
    pub fn find_tiered_matches(
        &self,
        request: &FontRequest,
        fonts: &Vec<FontDescriptor>,
        limit_per_tier: usize,
    ) -> (r: TieredMatchResult)
        ensures
            r.original_request@ == request@,
            r.suggestions@.len() == 0,
            forall|i: int|
                0 <= i < r.matches@.len() ==> match_ok(
                    self@,
                    request@,
                    font_views(fonts@),
                    (#[trigger] r.matches@[i])@,
                ),
            ({
                let ne = spec_min(limit_per_tier as int, count_rank(self@, request@, font_views(fonts@), 0, 0));
                let ns = spec_min(limit_per_tier as int, count_rank(self@, request@, font_views(fonts@), 1, 0));
                let nl = spec_min(limit_per_tier as int, count_rank(self@, request@, font_views(fonts@), 2, 0));
                &&& r.matches@.len() == ne + ns + nl
                &&& forall|i: int| 0 <= i < ne ==> tier_rank((#[trigger] r.matches@[i]).tier) == 0
                &&& forall|i: int|
                    ne <= i < ne + ns ==> tier_rank((#[trigger] r.matches@[i]).tier) == 1
                &&& forall|i: int|
                    ne + ns <= i < ne + ns + nl ==> tier_rank((#[trigger] r.matches@[i]).tier) == 2
                &&& forall|x: int, y: int|
                    0 <= x <= y < ne ==> (#[trigger] r.matches@[x]).score.overall
                        >= (#[trigger] r.matches@[y]).score.overall
                &&& forall|x: int, y: int|
                    ne <= x <= y < ne + ns ==> (#[trigger] r.matches@[x]).score.overall
                        >= (#[trigger] r.matches@[y]).score.overall
                &&& forall|x: int, y: int|
                    ne + ns <= x <= y < ne + ns + nl ==> (#[trigger] r.matches@[x]).score.overall
                        >= (#[trigger] r.matches@[y]).score.overall
            }),
            r.matches@.len() > 0 ==> r.best_tier == r.matches@[0].tier,
            r.matches@.len() == 0 ==> r.best_tier == (MatchTier::Low(0)),
    {
        let ghost mat = self@;
        let ghost fv = font_views(fonts@);
        let mut exact: Vec<FontMatch> = Vec::new();
        let mut similar: Vec<FontMatch> = Vec::new();
        let mut low: Vec<FontMatch> = Vec::new();
        let mut i: usize = 0;
        proof {
            lemma_count_rank_bound(mat, request@, fv, 0, 0);
            lemma_count_rank_bound(mat, request@, fv, 1, 0);
            lemma_count_rank_bound(mat, request@, fv, 2, 0);
        }
        while i < fonts.len()
            invariant
                i <= fonts@.len(),
                exact@.len() + count_rank(mat, request@, fv, 0, i as int) == count_rank(
                    mat,
                    request@,
                    fv,
                    0,
                    0,
                ),
                similar@.len() + count_rank(mat, request@, fv, 1, i as int) == count_rank(
                    mat,
                    request@,
                    fv,
                    1,
                    0,
                ),
                low@.len() + count_rank(mat, request@, fv, 2, i as int) == count_rank(
                    mat,
                    request@,
                    fv,
                    2,
                    0,
                ),
                forall|j: int|
                    0 <= j < exact@.len() ==> match_ok(mat, request@, fv, (#[trigger] exact@[j])@),
                forall|j: int| 0 <= j < exact@.len() ==> tier_rank((#[trigger] exact@[j]).tier) == 0,
                forall|j: int|
                    0 <= j < similar@.len() ==> match_ok(
                        mat,
                        request@,
                        fv,
                        (#[trigger] similar@[j])@,
                    ),
                forall|j: int|
                    0 <= j < similar@.len() ==> tier_rank((#[trigger] similar@[j]).tier) == 1,
                forall|j: int|
                    0 <= j < low@.len() ==> match_ok(mat, request@, fv, (#[trigger] low@[j])@),
                forall|j: int| 0 <= j < low@.len() ==> tier_rank((#[trigger] low@[j]).tier) == 2,
            decreases fonts@.len() - i,
        {
            proof {
                lemma_count_rank_bound(mat, request@, fv, 0, i + 1);
                lemma_count_rank_bound(mat, request@, fv, 1, i + 1);
                lemma_count_rank_bound(mat, request@, fv, 2, i + 1);
            }
            let f = &fonts[i];
            let (score, details) = self.calculate_comprehensive_similarity(request, f, true);
            let tier = MatchTier::from_score(score.overall);
            let fm = FontMatch {
                font: f.duplicate(),
                score,
                tier,
                similarity_details: details,
            };
            proof {
                assert(fv[i as int] == fonts@[i as int]@);
                assert(match_ok(mat, request@, fv, fm@));
            }
            let rk: u32 = match tier {
                MatchTier::Exact(_) => 0,
                MatchTier::Similar(_) => 1,
                MatchTier::Low(_) => 2,
            };
            if rk == 0 {
                exact.push(fm);
            } else if rk == 1 {
                similar.push(fm);
            } else {
                low.push(fm);
            }
            i += 1;
        }
        let ghost c0 = count_rank(mat, request@, fv, 0, 0);
        let ghost c1 = count_rank(mat, request@, fv, 1, 0);
        let ghost c2 = count_rank(mat, request@, fv, 2, 0);
        let ghost exact_pre = exact@;
        let ghost similar_pre = similar@;
        let ghost low_pre = low@;
        let mut exact = sort_matches_desc(exact);
        let mut similar = sort_matches_desc(similar);
        let mut low = sort_matches_desc(low);
        proof {
            lemma_matches_transfer(exact_pre, exact@, mat, request@, fv, 0);
            lemma_matches_transfer(similar_pre, similar@, mat, request@, fv, 1);
            lemma_matches_transfer(low_pre, low@, mat, request@, fv, 2);
        }
        let ghost exact_sorted = exact@;
        let ghost similar_sorted = similar@;
        let ghost low_sorted = low@;
        exact.truncate(limit_per_tier);
        similar.truncate(limit_per_tier);
        low.truncate(limit_per_tier);
        proof {
            if limit_per_tier <= exact_sorted.len() {
                assert(exact@ == exact_sorted.subrange(0, limit_per_tier as int));
            }
            if limit_per_tier <= similar_sorted.len() {
                assert(similar@ == similar_sorted.subrange(0, limit_per_tier as int));
            }
            if limit_per_tier <= low_sorted.len() {
                assert(low@ == low_sorted.subrange(0, limit_per_tier as int));
            }
        }
        let ghost ne = exact@.len() as int;
        let ghost ns = similar@.len() as int;
        let ghost nl = low@.len() as int;
        let mut all = exact;
        all.append(&mut similar);
        all.append(&mut low);
        proof {
            assert(ne == spec_min(limit_per_tier as int, c0));
            assert(ns == spec_min(limit_per_tier as int, c1));
            assert(nl == spec_min(limit_per_tier as int, c2));
        }
        let best_tier = if all.len() > 0 {
            all[0].tier
        } else {
            MatchTier::Low(0)
        };
        TieredMatchResult {
            original_request: request.duplicate(),
            matches: all,
            best_tier,
            suggestions: Vec::new(),
        }
    }
}

// ----- suggestions ----------------------------------------------------------

/// Percentage rendering of a permille score.
pub open spec fn pct_seq(overall: u32) -> Seq<char> {
    crate::text::dec_seq((overall / 10) as nat)
}

pub open spec fn low_reason_parts(p1: bool, p2: bool, p3: bool) -> Seq<char> {
    let l1 = "different name"@;
    let l2 = "different weight"@;
    let l3 = "different style"@;
    if p1 && p2 && p3 {
        l1 + ", "@ + l2 + ", "@ + l3
    } else if p1 && p2 {
        l1 + ", "@ + l2
    } else if p1 && p3 {
        l1 + ", "@ + l3
    } else if p2 && p3 {
        l2 + ", "@ + l3
    } else if p1 {
        l1
    } else if p2 {
        l2
    } else {
        l3
    }
}

/// The human-readable reason attached to a suggestion.
pub open spec fn reason_spec(m: FontMatchV) -> Seq<char> {
    match m.tier {
        MatchTier::Exact(_) => "Exact match ("@ + pct_seq(m.score.overall) + "% similarity)"@,
        MatchTier::Similar(_) => "Similar font ("@ + pct_seq(m.score.overall) + "% match)"@,
        MatchTier::Low(_) => {
            let p1 = m.similarity_details.name_similarity < 500;
            let p2 = m.similarity_details.weight_similarity < 600;
            let p3 = m.similarity_details.style_similarity < 600;
            if !p1 && !p2 && !p3 {
                "Best available alternative"@
            } else {
                "Similar but with "@ + low_reason_parts(p1, p2, p3)
            }
        },
    }
}

fn build_reason(m: &FontMatch) -> (r: String)
    ensures
        r@ == reason_spec(m@),
{
    let mut out: Vec<char> = Vec::new();
    match m.tier {
        MatchTier::Exact(_) => {
            append_lit(&mut out, "Exact match (");
            let d = crate::text::u64_dec((m.score.overall / 10) as u64);
            append_chars(&mut out, &d);
            append_lit(&mut out, "% similarity)");
        },
        MatchTier::Similar(_) => {
            append_lit(&mut out, "Similar font (");
            let d = crate::text::u64_dec((m.score.overall / 10) as u64);
            append_chars(&mut out, &d);
            append_lit(&mut out, "% match)");
        },
        MatchTier::Low(_) => {
            let p1 = m.similarity_details.name_similarity < 500;
            let p2 = m.similarity_details.weight_similarity < 600;
            let p3 = m.similarity_details.style_similarity < 600;
            if !p1 && !p2 && !p3 {
                append_lit(&mut out, "Best available alternative");
            } else {
                append_lit(&mut out, "Similar but with ");
                let mut first = true;
                if p1 {
                    append_lit(&mut out, "different name");
                    first = false;
                }
                if p2 {
                    if !first {
                        append_lit(&mut out, ", ");
                    }
                    append_lit(&mut out, "different weight");
                    first = false;
                }
                if p3 {
                    if !first {
                        append_lit(&mut out, ", ");
                    }
                    append_lit(&mut out, "different style");
                }
                proof {
                    assert(out@ =~= "Similar but with "@ + low_reason_parts(p1, p2, p3));
                }
            }
        },
    }
    chars_string(&out)
}

/// The fixed substitution table: requested family fragment to stand-in.
pub open spec fn subst_table() -> Seq<(Seq<char>, Seq<char>)> {
    seq![
        ("helvetica"@, "arial"@),
        ("helvetica neue"@, "arial"@),
        ("times"@, "times new roman"@),
        ("courier"@, "courier new"@),
        ("garamond"@, "adobe garamond pro"@),
        ("futura"@, "century gothic"@),
        ("gill sans"@, "myriad pro"@),
    ]
}

pub open spec fn first_subst_from(fam_low: Seq<char>, i: int) -> int
    decreases subst_table().len() - i,
{
    if i < 0 || i >= subst_table().len() {
        -1
    } else if contains_sub(fam_low, subst_table()[i].0) {
        i
    } else {
        first_subst_from(fam_low, i + 1)
    }
}

proof fn lemma_first_subst_chain(fam_low: Seq<char>, j: int, i: int)
    requires
        0 <= j <= i <= subst_table().len(),
        forall|k: int| j <= k < i ==> !contains_sub(fam_low, (#[trigger] subst_table()[k]).0),
        i < subst_table().len() ==> contains_sub(fam_low, subst_table()[i].0),
    ensures
        i < subst_table().len() ==> first_subst_from(fam_low, j) == i,
        i == subst_table().len() ==> first_subst_from(fam_low, j) == -1,
    decreases i - j,
{
    if j < i {
        lemma_first_subst_chain(fam_low, j + 1, i);
    }
}

/// `s` with all spaces removed.
pub open spec fn drop_spaces(s: Seq<char>, i: int) -> Seq<char>
    decreases s.len() - i,
{
    if i < 0 || i >= s.len() {
        Seq::empty()
    } else if s[i] == ' ' {
        drop_spaces(s, i + 1)
    } else {
        seq![s[i]] + drop_spaces(s, i + 1)
    }
}

fn drop_spaces_x(v: &Vec<char>) -> (r: Vec<char>)
    ensures
        r@ == drop_spaces(v@, 0),
{
    let mut out: Vec<char> = Vec::new();
    let mut i: usize = 0;
    while i < v.len()
        invariant
            i <= v@.len(),
            drop_spaces(v@, 0) == out@ + drop_spaces(v@, i as int),
        decreases v@.len() - i,
    {
        if v[i] != ' ' {
            out.push(v[i]);
            proof {
                assert(drop_spaces(v@, i as int) =~= seq![v@[i as int]] + drop_spaces(v@, i + 1));
                assert(drop_spaces(v@, 0) =~= out@ + drop_spaces(v@, i + 1));
            }
        }
        i += 1;
    }
    proof {
        assert(out@ =~= drop_spaces(v@, 0));
    }
    out
}

/// The synthetic face offered as a substitution for `to`.
pub open spec fn subst_font_spec(req: FontRequestV, to: Seq<char>) -> FontDescriptorV {
    FontDescriptorV {
        family: to,
        subfamily: Some("Regular"@),
        postscript_name: lower_seq(drop_spaces(to, 0)),
        full_name: Some(to + " Regular"@),
        path: "/system/fonts/"@ + drop_spaces(to, 0) + ".ttf"@,
        format: FontFormat::Ttf,
        weight: req.weight,
        italic: req.italic,
        monospaced: req.monospaced,
        variable: false,
        metrics: None,
        license: None,
    }
}

/// The default face offered when no table entry applies.
pub open spec fn default_subst_font() -> FontDescriptorV {
    FontDescriptorV {
        family: "Arial"@,
        subfamily: Some("Regular"@),
        postscript_name: "arial"@,
        full_name: Some("Arial Regular"@),
        path: "/system/fonts/arial.ttf"@,
        format: FontFormat::Ttf,
        weight: 400,
        italic: false,
        monospaced: false,
        variable: false,
        metrics: None,
        license: None,
    }
}

pub open spec fn best_substitution_spec(req: FontRequestV) -> FontSuggestionV {
    let k = first_subst_from(lower_seq(req.family), 0);
    if k >= 0 {
        FontSuggestionV {
            font: subst_font_spec(req, subst_table()[k].1),
            similarity_score: 700,
            reason: "Common substitution for "@ + subst_table()[k].0,
            source: SuggestionSource::Substitution,
        }
    } else {
        FontSuggestionV {
            font: default_subst_font(),
            similarity_score: 500,
            reason: "System default font"@,
            source: SuggestionSource::Substitution,
        }
    }
}

fn subst_font_x(req: &FontRequest, to: &Vec<char>) -> (r: FontDescriptor)
    ensures
        r@ == subst_font_spec(req@, to@),
{
    let family = chars_string(to);
    let nospace = drop_spaces_x(to);
    let ps = lower_vec(&nospace);
    let postscript_name = chars_string(&ps);
    let mut full: Vec<char> = Vec::new();
    append_chars(&mut full, to);
    append_lit(&mut full, " Regular");
    let full_name = chars_string(&full);
    let mut path: Vec<char> = Vec::new();
    append_lit(&mut path, "/system/fonts/");
    append_chars(&mut path, &nospace);
    append_lit(&mut path, ".ttf");
    let path_s = chars_string(&path);
    FontDescriptor {
        family,
        subfamily: Some("Regular".to_owned()),
        postscript_name,
        full_name: Some(full_name),
        path: path_s,
        format: FontFormat::Ttf,
        weight: req.weight,
        italic: req.italic,
        monospaced: req.monospaced,
        variable: false,
        metrics: None,
        license: None,
    }
}

impl FontSimilarityEngine {
    /// Picks a common substitution for the requested family, or the
    /// system default face.
    #[verifier::loop_isolation(false)]
    pub fn get_best_substitution(&self, request: &FontRequest) -> (r: FontSuggestion)
        ensures
            r@ == best_substitution_spec(request@),
    {
        let mut froms: Vec<Vec<char>> = Vec::new();
        froms.push(str_chars("helvetica"));
        froms.push(str_chars("helvetica neue"));
        froms.push(str_chars("times"));
        froms.push(str_chars("courier"));
        froms.push(str_chars("garamond"));
        froms.push(str_chars("futura"));
        froms.push(str_chars("gill sans"));
        let mut tos: Vec<Vec<char>> = Vec::new();
        tos.push(str_chars("arial"));
        tos.push(str_chars("arial"));
        tos.push(str_chars("times new roman"));
        tos.push(str_chars("courier new"));
        tos.push(str_chars("adobe garamond pro"));
        tos.push(str_chars("century gothic"));
        tos.push(str_chars("myriad pro"));
        let fam_chars = string_chars(&request.family);
        let fam_low = lower_vec(&fam_chars);
        let mut i: usize = 0;
        while i < froms.len()
            invariant
                froms@.len() == subst_table().len(),
                tos@.len() == subst_table().len(),
                forall|k: int|
                    0 <= k < subst_table().len() ==> (#[trigger] froms@[k])@ == subst_table()[k].0
                        && tos@[k]@ == subst_table()[k].1,
                i <= froms@.len(),
                forall|k: int|
                    0 <= k < i ==> !contains_sub(fam_low@, (#[trigger] subst_table()[k]).0),
            decreases froms@.len() - i,
        {
            if contains_vec(&fam_low, &froms[i]) {
                proof {
                    lemma_first_subst_chain(fam_low@, 0, i as int);
                }
                let font = subst_font_x(request, &tos[i]);
                let mut reason: Vec<char> = Vec::new();
                append_lit(&mut reason, "Common substitution for ");
                append_chars(&mut reason, &froms[i]);
                return FontSuggestion {
                    font,
                    similarity_score: 700,
                    reason: chars_string(&reason),
                    source: SuggestionSource::Substitution,
                };
            }
            i += 1;
        }
        proof {
            lemma_first_subst_chain(fam_low@, 0, subst_table().len() as int);
        }
        let font = FontDescriptor {
            family: "Arial".to_owned(),
            subfamily: Some("Regular".to_owned()),
            postscript_name: "arial".to_owned(),
            full_name: Some("Arial Regular".to_owned()),
            path: "/system/fonts/arial.ttf".to_owned(),
            format: FontFormat::Ttf,
            weight: 400,
            italic: false,
            monospaced: false,
            variable: false,
            metrics: None,
            license: None,
        };
        FontSuggestion {
            font,
            similarity_score: 500,
            reason: "System default font".to_owned(),
            source: SuggestionSource::Substitution,
        }
    }

    /// Turns the matches of a tiered result into suggestions; a common
    /// substitution is appended when the best tier is Low.
    #[verifier::loop_isolation(false)]
    pub fn generate_suggestions(
        &self,
        tiered_result: &TieredMatchResult,
        include_reasons: bool,
    ) -> (r: Vec<FontSuggestion>)
        ensures
            r@.len() == tiered_result.matches@.len() + (if tiered_result.best_tier is Low {
                1int
            } else {
                0int
            }),
            forall|i: int|
                0 <= i < tiered_result.matches@.len() ==> {
                    let s = (#[trigger] r@[i])@;
                    let m = tiered_result.matches@[i]@;
                    &&& s.font == m.font
                    &&& s.similarity_score == m.score.overall
                    &&& s.source == SuggestionSource::LocalDatabase
                    &&& s.reason == if include_reasons {
                        reason_spec(m)
                    } else {
                        Seq::<char>::empty()
                    }
                },
            tiered_result.best_tier is Low ==> r@[r@.len() - 1]@ == best_substitution_spec(
                tiered_result.original_request@,
            ),
    {
        let mut suggestions: Vec<FontSuggestion> = Vec::new();
        let mut i: usize = 0;
        while i < tiered_result.matches.len()
            invariant
                i <= tiered_result.matches@.len(),
                suggestions@.len() == i,
                forall|j: int|
                    0 <= j < i ==> {
                        let s = (#[trigger] suggestions@[j])@;
                        let m = tiered_result.matches@[j]@;
                        &&& s.font == m.font
                        &&& s.similarity_score == m.score.overall
                        &&& s.source == SuggestionSource::LocalDatabase
                        &&& s.reason == if include_reasons {
                            reason_spec(m)
                        } else {
                            Seq::<char>::empty()
                        }
                    },
            decreases tiered_result.matches@.len() - i,
        {
            let m = &tiered_result.matches[i];
            let reason = if include_reasons {
                build_reason(m)
            } else {
                String::new()
            };
            suggestions.push(
                FontSuggestion {
                    font: m.font.duplicate(),
                    similarity_score: m.score.overall,
                    reason,
                    source: SuggestionSource::LocalDatabase,
                },
            );
            i += 1;
        }
        let add_subst = match tiered_result.best_tier {
            MatchTier::Low(_) => true,
            _ => false,
        };
        if add_subst {
            let substitution = self.get_best_substitution(&tiered_result.original_request);
            suggestions.push(substitution);
        }
        suggestions
    }
}

} // verus!
