//! The resolution pipeline: a raw name is normalized, matched against the
//! available faces, license-checked, cached, and answered with a result
//! or a ranked suggestion list.  Scores are in permille.

use vstd::prelude::*;

use crate::cache::{mem_lookup, cache_wf, HybridFontCache};
use crate::compressor::{CompressedFontData, CompressedFontDataV, CompressedFontDatabase,
    FontCompressor, try_load_simple_database};
use crate::license::{LicenseChecker, LicenseWarning, known_commercial_families,
    known_commercial_postscript};
use crate::normalize::{norm_family, FontNormalizer};
use crate::similarity::{FontSimilarityEngine, MatchTier, TieredMatchResult};
use crate::sources::{FontSourceManager, SourceInfo, SourceType};
use crate::text::{append_chars, append_lit, chars_string, contains_sub, contains_vec, eq_vec,
    lower_seq, lower_vec, str_chars, string_chars, u64_dec};
use crate::types::{EnhancedResolverConfig, FontDescriptor, FontDescriptorV, FontMatchScore,
    FontMetrics, FontRequest, FontRequestV, FontSource, LicenseInfo, ResolutionResult,
    ResolverConfig, SubstitutionReason};
use crate::FontError;
use crate::FontResult;

verus! {

// ----- the basic resolver's scorer ------------------------------------------

/// Character-overlap similarity: how many of the first name's characters
/// occur in the second, over the longer length.
pub open spec fn overlap_count(a: Seq<char>, b: Seq<char>, i: int) -> int
    decreases a.len() - i,
{
    if i < 0 || i >= a.len() {
        0
    } else {
        (if b.contains(a[i]) {
            1int
        } else {
            0int
        }) + overlap_count(a, b, i + 1)
    }
}

pub open spec fn string_similarity_spec(a: Seq<char>, b: Seq<char>) -> int {
    if a.len() == 0 && b.len() == 0 {
        1000
    } else {
        let m = if a.len() >= b.len() {
            a.len() as int
        } else {
            b.len() as int
        };
        overlap_count(a, b, 0) * 1000 / m
    }
}

pub open spec fn basic_family_score(req_fam: Seq<char>, fam: Seq<char>) -> int {
    let rl = lower_seq(req_fam);
    let fl = lower_seq(fam);
    if fl == rl {
        1000
    } else if contains_sub(fl, rl) {
        800
    } else {
        let s = string_similarity_spec(fl, rl);
        if s >= 300 {
            s
        } else {
            300
        }
    }
}

pub open spec fn basic_weight_score(w1: u16, w2: u16) -> int {
    let diff = if w1 >= w2 {
        w1 - w2
    } else {
        w2 - w1
    };
    if diff == 0 {
        1000
    } else if diff <= 100 {
        800
    } else if diff <= 200 {
        600
    } else if diff <= 300 {
        400
    } else {
        200
    }
}

pub open spec fn basic_style_score(req_italic: bool, italic: bool) -> int {
    if req_italic == italic {
        1000
    } else if req_italic && !italic {
        300
    } else {
        700
    }
}

pub open spec fn basic_mono_score(req_mono: bool, mono: bool) -> int {
    if req_mono {
        if mono {
            1000
        } else {
            200
        }
    } else {
        1000
    }
}

pub open spec fn basic_metrics_score(require_metrics: bool, m: Option<FontMetrics>) -> int {
    if require_metrics {
        if m is Some {
            900
        } else {
            500
        }
    } else {
        1000
    }
}

/// The basic scorer: 40% family, 30% weight, 20% style, 5% monospace,
/// 5% metrics.
pub open spec fn basic_overall(req: FontRequestV, f: FontDescriptorV, require_metrics: bool) -> int {
    (400 * basic_family_score(req.family, f.family) + 300 * basic_weight_score(req.weight, f.weight)
        + 200 * basic_style_score(req.italic, f.italic) + 50 * basic_mono_score(
        req.monospaced,
        f.monospaced,
    ) + 50 * basic_metrics_score(require_metrics, f.metrics)) / 1000
}

pub open spec fn basic_score_record(req: FontRequestV, f: FontDescriptorV,
    require_metrics: bool) -> FontMatchScore {
    FontMatchScore {
        overall: basic_overall(req, f, require_metrics) as u32,
        family: basic_family_score(req.family, f.family) as u32,
        weight: basic_weight_score(req.weight, f.weight) as u32,
        style: basic_style_score(req.italic, f.italic) as u32,
        monospaced: basic_mono_score(req.monospaced, f.monospaced) as u32,
        metrics: basic_metrics_score(require_metrics, f.metrics) as u32,
    }
}

proof fn lemma_overlap_bound(a: Seq<char>, b: Seq<char>, i: int)
    requires
        0 <= i <= a.len(),
    ensures
        0 <= overlap_count(a, b, i) <= a.len() - i,
    decreases a.len() - i,
{
    if i < a.len() {
        lemma_overlap_bound(a, b, i + 1);
    }
}

pub proof fn lemma_string_similarity_bound(a: Seq<char>, b: Seq<char>)
    ensures
        0 <= string_similarity_spec(a, b) <= 1000,
{
    if a.len() == 0 && b.len() == 0 {
    } else {
        lemma_overlap_bound(a, b, 0);
        let m = if a.len() >= b.len() {
            a.len() as int
        } else {
            b.len() as int
        };
        let c = overlap_count(a, b, 0);
        assert(c <= m);
        assert(c * 1000 <= m * 1000) by (nonlinear_arith)
            requires
                c <= m,
        ;
        assert(c * 1000 / m <= 1000) by (nonlinear_arith)
            requires
                c * 1000 <= m * 1000,
                m > 0,
        ;
        assert(c * 1000 / m >= 0) by (nonlinear_arith)
            requires
                c >= 0,
                m > 0,
        ;
    }
}

/// The basic score also stays within [0, 1000].
pub proof fn lemma_basic_overall_bound(req: FontRequestV, f: FontDescriptorV,
    require_metrics: bool)
    ensures
        0 <= basic_overall(req, f, require_metrics) <= 1000,
{
    lemma_string_similarity_bound(lower_seq(f.family), lower_seq(req.family));
}

fn string_similarity_x(a: &Vec<char>, b: &Vec<char>) -> (r: u32)
    ensures
        r as int == string_similarity_spec(a@, b@),
        r <= 1000,
{
    proof {
        lemma_string_similarity_bound(a@, b@);
    }
    if a.len() == 0 && b.len() == 0 {
        return 1000;
    }
    proof {
        lemma_overlap_bound(a@, b@, 0);
    }
    let mut c: usize = 0;
    let mut i: usize = 0;
    #[verifier::loop_isolation(false)]
    while i < a.len()
        invariant
            i <= a@.len(),
            c <= i,
            c + overlap_count(a@, b@, i as int) == overlap_count(a@, b@, 0),
        decreases a@.len() - i,
    {
        proof {
            lemma_overlap_bound(a@, b@, i + 1);
        }
        let mut hit = false;
        let mut j: usize = 0;
        while j < b.len()
            invariant
                j <= b@.len(),
                i < a@.len(),
                hit == (exists|k: int| 0 <= k < j && b@[k] == a@[i as int]),
            decreases b@.len() - j,
        {
            if b[j] == a[i] {
                hit = true;
            }
            j += 1;
        }
        proof {
            assert(hit == b@.contains(a@[i as int]));
        }
        if hit {
            c += 1;
        }
        i += 1;
    }
    let m = if a.len() >= b.len() {
        a.len()
    } else {
        b.len()
    };
    let wide: u128 = (c as u128) * 1000 / (m as u128);
    proof {
        let cc = overlap_count(a@, b@, 0);
        assert(cc * 1000 <= m * 1000) by (nonlinear_arith)
            requires
                cc <= m,
        ;
        assert(cc * 1000 / (m as int) <= 1000) by (nonlinear_arith)
            requires
                cc * 1000 <= m * 1000,
                m > 0,
        ;
        assert(cc * 1000 / (m as int) >= 0) by (nonlinear_arith)
            requires
                cc >= 0,
                m > 0,
        ;
    }
    wide as u32
}

/// The common substitutions of the basic resolver.
pub open spec fn basic_subst_table() -> Seq<(Seq<char>, Seq<char>)> {
    seq![
        ("helvetica"@, "arial"@),
        ("helvetica neue"@, "arial"@),
        ("times"@, "times new roman"@),
        ("times roman"@, "times new roman"@),
        ("courier"@, "courier new"@),
        ("zapfdingbats"@, "wingdings"@),
        ("symbol"@, "wingdings"@),
        ("monospace"@, "courier new"@),
        ("serif"@, "times new roman"@),
        ("sans-serif"@, "arial"@),
        ("cursive"@, "comic sans ms"@),
        ("fantasy"@, "impact"@),
    ]
}

pub open spec fn basic_subst_find(fam_low: Seq<char>, i: int) -> int
    decreases basic_subst_table().len() - i,
{
    if i < 0 || i >= basic_subst_table().len() {
        -1
    } else if basic_subst_table()[i].0 == fam_low {
        i
    } else {
        basic_subst_find(fam_low, i + 1)
    }
}

/// What a requested family is commonly replaced by, or itself.
pub open spec fn basic_subst_spec(fam: Seq<char>) -> Seq<char> {
    let k = basic_subst_find(lower_seq(fam), 0);
    if k >= 0 {
        basic_subst_table()[k].1
    } else {
        fam
    }
}

proof fn lemma_basic_subst_chain(fam: Seq<char>, j: int, i: int)
    requires
        0 <= j <= i <= basic_subst_table().len(),
        forall|k: int| j <= k < i ==> (#[trigger] basic_subst_table()[k]).0 != fam,
        i < basic_subst_table().len() ==> basic_subst_table()[i].0 == fam,
    ensures
        i < basic_subst_table().len() ==> basic_subst_find(fam, j) == i,
        i == basic_subst_table().len() ==> basic_subst_find(fam, j) == -1,
    decreases i - j,
{
    if j < i {
        lemma_basic_subst_chain(fam, j + 1, i);
    }
}

/// Fallback preference: closeness of weight, matching slant, matching
/// monospace flag.
pub open spec fn fallback_score(req: FontRequestV, f: FontDescriptorV) -> int {
    let diff: int = if f.weight >= req.weight {
        f.weight - req.weight
    } else {
        req.weight - f.weight
    };
    1000int / (diff + 1) + (if f.italic == req.italic {
        1000int
    } else {
        0int
    }) + (if f.monospaced == req.monospaced {
        500int
    } else {
        0int
    })
}

/// The structured request the normalizer yields for a raw name.
pub open spec fn spec_request(name: Seq<char>) -> FontRequestV {
    FontRequestV {
        original_name: name,
        normalized_name: norm_family(name),
        family: norm_family(name),
        weight: crate::normalize::norm_weight(name),
        style: crate::normalize::norm_style(name),
        italic: crate::normalize::norm_style(name) != crate::types::FontStyle::Normal,
        monospaced: crate::normalize::norm_mono(name),
    }
}

// ----- the basic resolver ----------------------------------------------------

/// Resolves names against a list of scanned faces with the basic scorer.
pub struct FontResolver {
    normalizer: FontNormalizer,
    config: ResolverConfig,
}

impl View for FontResolver {
    type V = crate::types::ResolverConfigV;

    closed spec fn view(&self) -> crate::types::ResolverConfigV {
        self.config@
    }
}

impl FontResolver {
    pub fn new(config: ResolverConfig) -> (r: FontResolver)
        ensures
            r@ == config@,
    {
        FontResolver { normalizer: FontNormalizer, config }
    }

    /// The basic per-face score.
    pub fn calculate_match_score(&self, request: &FontRequest, font: &FontDescriptor) -> (r:
        FontMatchScore)
        ensures
            r == basic_score_record(request@, font@, self@.require_metrics),
            r.overall <= 1000,
    {
        proof {
            lemma_basic_overall_bound(request@, font@, self@.require_metrics);
            lemma_string_similarity_bound(lower_seq(font@.family), lower_seq(request@.family));
        }
        let fc = string_chars(&font.family);
        let fl = lower_vec(&fc);
        let rc = string_chars(&request.family);
        let rl = lower_vec(&rc);
        let family: u32 = if eq_vec(&fl, &rl) {
            1000
        } else if contains_vec(&fl, &rl) {
            800
        } else {
            let s = string_similarity_x(&fl, &rl);
            if s >= 300 {
                s
            } else {
                300
            }
        };
        let diff: u16 = if request.weight >= font.weight {
            request.weight - font.weight
        } else {
            font.weight - request.weight
        };
        let weight: u32 = if diff == 0 {
            1000
        } else if diff <= 100 {
            800
        } else if diff <= 200 {
            600
        } else if diff <= 300 {
            400
        } else {
            200
        };
        let style: u32 = if font.italic == request.italic {
            1000
        } else if request.italic && !font.italic {
            300
        } else {
            700
        };
        let monospaced: u32 = if request.monospaced {
            if font.monospaced {
                1000
            } else {
                200
            }
        } else {
            1000
        };
        let metrics: u32 = if self.config.require_metrics {
            if font.metrics.is_some() {
                900
            } else {
                500
            }
        } else {
            1000
        };
        let overall: u32 = (400 * family + 300 * weight + 200 * style + 50 * monospaced + 50
            * metrics) / 1000;
        FontMatchScore { overall, family, weight, style, monospaced, metrics }
    }

    /// The common replacement for a requested family, or the family
    /// itself.
    #[verifier::loop_isolation(false)]
    pub fn get_font_substitution(&self, family: &str) -> (r: String)
        ensures
            r@ == basic_subst_spec(family@),
    {
        let mut froms: Vec<&'static str> = Vec::new();
        froms.push("helvetica");
        froms.push("helvetica neue");
        froms.push("times");
        froms.push("times roman");
        froms.push("courier");
        froms.push("zapfdingbats");
        froms.push("symbol");
        froms.push("monospace");
        froms.push("serif");
        froms.push("sans-serif");
        froms.push("cursive");
        froms.push("fantasy");
        let mut tos: Vec<&'static str> = Vec::new();
        tos.push("arial");
        tos.push("arial");
        tos.push("times new roman");
        tos.push("times new roman");
        tos.push("courier new");
        tos.push("wingdings");
        tos.push("wingdings");
        tos.push("courier new");
        tos.push("times new roman");
        tos.push("arial");
        tos.push("comic sans ms");
        tos.push("impact");
        proof {
            assert(forall|k: int|
                0 <= k < 12 ==> ((#[trigger] froms@[k])@, tos@[k]@) == basic_subst_table()[k]);
        }
        let fc = str_chars(family);
        let fl = lower_vec(&fc);
        let mut i: usize = 0;
        while i < froms.len()
            invariant
                froms@.len() == 12,
                tos@.len() == 12,
                forall|k: int|
                    0 <= k < 12 ==> ((#[trigger] froms@[k])@, tos@[k]@) == basic_subst_table()[k],
                i <= 12,
                forall|k: int|
                    0 <= k < i ==> (#[trigger] basic_subst_table()[k]).0 != lower_seq(family@),
            decreases 12 - i,
        {
            let e = str_chars(froms[i]);
            if eq_vec(&fl, &e) {
                proof {
                    lemma_basic_subst_chain(lower_seq(family@), 0, i as int);
                }
                return tos[i].to_owned();
            }
            i += 1;
        }
        proof {
            lemma_basic_subst_chain(lower_seq(family@), 0, 12);
        }
        family.to_owned()
    }

    /// The best face by the basic scorer; the first among equals wins.
    #[verifier::loop_isolation(false)]
    pub fn find_best_in_family(&self, request: &FontRequest, fonts: &Vec<FontDescriptor>) -> (r: (
        FontDescriptor,
        FontMatchScore,
    ))
        requires
            fonts@.len() > 0,
        ensures
            exists|k: int|
                0 <= k < fonts@.len() && r.0@ == (#[trigger] fonts@[k])@ && r.1
                    == basic_score_record(request@, fonts@[k]@, self@.require_metrics),
            forall|j: int|
                0 <= j < fonts@.len() ==> basic_overall(
                    request@,
                    (#[trigger] fonts@[j])@,
                    self@.require_metrics,
                ) <= r.1.overall,
    {
        let mut best: usize = 0;
        let mut best_score = self.calculate_match_score(request, &fonts[0]);
        proof {
            lemma_basic_overall_bound(request@, fonts@[0]@, self@.require_metrics);
        }
        let mut i: usize = 1;
        while i < fonts.len()
            invariant
                best < i <= fonts@.len(),
                best_score == basic_score_record(request@, fonts@[best as int]@, self@.require_metrics),
                forall|j: int|
                    0 <= j < i ==> basic_overall(
                        request@,
                        (#[trigger] fonts@[j])@,
                        self@.require_metrics,
                    ) <= best_score.overall,
            decreases fonts@.len() - i,
        {
            let s = self.calculate_match_score(request, &fonts[i]);
            proof {
                lemma_basic_overall_bound(request@, fonts@[i as int]@, self@.require_metrics);
            }
            if s.overall > best_score.overall {
                best = i;
                best_score = s;
            }
            i += 1;
        }
        (fonts[best].duplicate(), best_score)
    }

    /// The face a fallback picks: the first maximizer of weight, slant
    /// and monospace agreement.
    #[verifier::loop_isolation(false)]
    pub fn create_fallback(&self, request: &FontRequest, system_fonts: &Vec<FontDescriptor>) -> (r:
        FontDescriptor)
        requires
            system_fonts@.len() > 0,
        ensures
            exists|k: int|
                0 <= k < system_fonts@.len() && r@ == (#[trigger] system_fonts@[k])@ && (forall|
                    j: int,
                |
                    0 <= j < system_fonts@.len() ==> fallback_score(
                        request@,
                        (#[trigger] system_fonts@[j])@,
                    ) <= fallback_score(request@, system_fonts@[k]@)),
    {
        let mut best: usize = 0;
        let mut best_score = fallback_score_x(request, &system_fonts[0]);
        let mut i: usize = 1;
        while i < system_fonts.len()
            invariant
                best < i <= system_fonts@.len(),
                best_score as int == fallback_score(request@, system_fonts@[best as int]@),
                forall|j: int|
                    0 <= j < i ==> fallback_score(request@, (#[trigger] system_fonts@[j])@)
                        <= best_score,
            decreases system_fonts@.len() - i,
        {
            let s = fallback_score_x(request, &system_fonts[i]);
            if s > best_score {
                best = i;
                best_score = s;
            }
            i += 1;
        }
        system_fonts[best].duplicate()
    }

    /// Resolves a name against the scanned faces.  With no faces at all
    /// the request fails as not found; an unusable name is rejected.
    /// A score above 0.8 answers with the score-maximal face unchanged;
    /// anything lower answers with the fallback maximizer, marked
    /// substituted for want of the face.
    pub fn resolve(&self, font_name: &str, system_fonts: &Vec<FontDescriptor>) -> (r: Result<
        ResolutionResult,
        FontError,
    >)
        ensures
            norm_family(font_name@).len() == 0 ==> r is Err,
            system_fonts@.len() == 0 ==> r is Err,
            norm_family(font_name@).len() > 0 && system_fonts@.len() > 0 ==> r is Ok,
            r matches Ok(res) ==> {
                let req = spec_request(font_name@);
                &&& res@.original_name == font_name@
                &&& res@.compatibility_score <= 1000
                &&& (exists|k: int|
                    0 <= k < system_fonts@.len() && res@.compatibility_score as int
                        == basic_overall(req, (#[trigger] system_fonts@[k])@, self@.require_metrics))
                &&& (forall|j: int|
                    0 <= j < system_fonts@.len() ==> basic_overall(
                        req,
                        (#[trigger] system_fonts@[j])@,
                        self@.require_metrics,
                    ) <= res@.compatibility_score)
                &&& (res@.compatibility_score > 800 ==> {
                    &&& !res@.substituted
                    &&& res@.substitution_reason is None
                    &&& res@.source == FontSource::System
                    &&& (exists|k: int|
                        0 <= k < system_fonts@.len() && res@.font == (#[trigger] system_fonts@[k])@
                            && basic_overall(req, system_fonts@[k]@, self@.require_metrics)
                            == res@.compatibility_score)
                })
                &&& (res@.compatibility_score <= 800 ==> {
                    &&& res@.substituted
                    &&& res@.substitution_reason == Some(SubstitutionReason::FontNotFound)
                    &&& res@.source == FontSource::Substituted
                    &&& (exists|k: int|
                        0 <= k < system_fonts@.len() && res@.font == (#[trigger] system_fonts@[k])@
                            && (forall|j: int|
                            0 <= j < system_fonts@.len() ==> fallback_score(
                                req,
                                #[trigger] system_fonts@[j]@,
                            ) <= fallback_score(req, system_fonts@[k]@)))
                })
            },
    {
        let normalizer = FontNormalizer;
        let request = match normalizer.normalize(font_name) {
            Ok(q) => q,
            Err(e) => {
                return Err(e);
            },
        };
        if system_fonts.len() == 0 {
            return Err(FontError::NotFound(font_name.to_owned()));
        }
        let (best, score) = self.find_best_in_family(&request, system_fonts);
        proof {
            lemma_basic_overall_bound(request@, best@, self@.require_metrics);
            assert(request@ == spec_request(font_name@));
        }
        if score.overall > 800 {
            Ok(
                ResolutionResult {
                    original_name: font_name.to_owned(),
                    font: best,
                    source: FontSource::System,
                    substituted: false,
                    substitution_reason: None,
                    compatibility_score: score.overall,
                    warnings: Vec::new(),
                },
            )
        } else {
            let mut warnings: Vec<String> = Vec::new();
            let mut w: Vec<char> = Vec::new();
            append_lit(&mut w, "No exact match found for '");
            let nc = str_chars(font_name);
            append_chars(&mut w, &nc);
            append_lit(&mut w, "', using fallback");
            warnings.push(chars_string(&w));
            let fallback = self.create_fallback(&request, system_fonts);
            Ok(
                ResolutionResult {
                    original_name: font_name.to_owned(),
                    font: fallback,
                    source: FontSource::Substituted,
                    substituted: true,
                    substitution_reason: Some(SubstitutionReason::FontNotFound),
                    compatibility_score: score.overall,
                    warnings,
                },
            )
        }
    }

    /// Resolves several names; failures are dropped from the answer.
    #[verifier::loop_isolation(false)]
    pub fn resolve_batch(&self, font_names: &Vec<String>, system_fonts: &Vec<FontDescriptor>) -> (r:
        Result<Vec<ResolutionResult>, FontError>)
        ensures
            r matches Ok(v) && v@.len() <= font_names@.len(),
    {
        let mut results: Vec<ResolutionResult> = Vec::new();
        let mut i: usize = 0;
        while i < font_names.len()
            invariant
                i <= font_names@.len(),
                results@.len() <= i,
            decreases font_names@.len() - i,
        {
            match self.resolve(font_names[i].as_str(), system_fonts) {
                Ok(res) => {
                    results.push(res);
                },
                Err(_) => {},
            }
            i += 1;
        }
        Ok(results)
    }
}

// ----- the enhanced resolver --------------------------------------------------

pub struct SuggestionResultV {
    pub family: Seq<char>,
    pub subfamily: Seq<char>,
    pub source: Seq<char>,
    pub score: u32,
    pub weight: u16,
    pub italic: bool,
    pub is_critical_license_warning: bool,
    pub license_name: Seq<char>,
    pub has_local_file: bool,
    pub download_url: Option<Seq<char>>,
    pub is_offline_fallback: bool,
}

/// One ranked suggestion; the score is in permille.
#[derive(Debug, Clone)]
pub struct SuggestionResult {
    pub family: String,
    pub subfamily: String,
    pub source: String,
    pub score: u32,
    pub weight: u16,
    pub italic: bool,
    pub is_critical_license_warning: bool,
    pub license_name: String,
    pub has_local_file: bool,
    pub download_url: Option<String>,
    pub is_offline_fallback: bool,
}

impl View for SuggestionResult {
    type V = SuggestionResultV;

    open spec fn view(&self) -> SuggestionResultV {
        SuggestionResultV {
            family: self.family@,
            subfamily: self.subfamily@,
            source: self.source@,
            score: self.score,
            weight: self.weight,
            italic: self.italic,
            is_critical_license_warning: self.is_critical_license_warning,
            license_name: self.license_name@,
            has_local_file: self.has_local_file,
            download_url: match self.download_url {
                Some(u) => Some(u@),
                None => None,
            },
            is_offline_fallback: self.is_offline_fallback,
        }
    }
}

#[derive(Debug, Clone)]
pub enum TieredResolutionResult {
    Exact(FontDescriptor, u32),
    Similar(Vec<FontDescriptor>, u32),
    SuggestInternet,
    NotFound,
}

/// Integer figures of the loaded database: sizes in bytes, saving in
/// permille.
#[derive(Debug, Clone)]
pub struct DatabaseStats {
    pub font_count: usize,
    pub compressed_size_bytes: usize,
    pub original_size_bytes: usize,
    pub compression_saving_permille: i128,
    pub categories: Vec<(crate::compressor::FontCategory, usize)>,
}

/// The descriptor a database record stands for, under a synthetic path.
pub open spec fn compressed_descriptor(c: CompressedFontDataV) -> FontDescriptorV {
    FontDescriptorV {
        family: c.family,
        subfamily: None,
        postscript_name: c.postscript_name,
        full_name: Some(c.family),
        path: "/compressed"@,
        format: crate::types::FontFormat::Ttf,
        weight: c.weight,
        italic: c.italic,
        monospaced: c.monospaced,
        variable: false,
        metrics: match c.metrics {
            Some(m) => Some(
                (FontMetrics {
                    units_per_em: m.units_per_em,
                    ascender: m.ascender,
                    descender: m.descender,
                    x_height: m.x_height,
                    cap_height: m.cap_height,
                    average_width: m.average_width,
                    max_advance_width: 1000,
                }),
            ),
            None => None,
        },
        license: Some(
            (crate::types::LicenseInfoV {
                name: c.license.name,
                url: Some(c.license.url),
                allows_embedding: c.license.allows_embedding,
                allows_modification: c.license.allows_modification,
                requires_attribution: c.license.requires_attribution,
                allows_commercial_use: c.license.allows_commercial_use,
            }),
        ),
    }
}

/// Everything matching can draw on: the scanned faces, one face per web
/// family when the web source is on, then the database records.
pub open spec fn available_spec(m: crate::sources::FontSourceManagerV,
    db: Option<crate::compressor::CompressedFontDatabaseV>) -> Seq<FontDescriptorV> {
    m.scanned + (match m.web_db {
        Some(d) => crate::webdb::web_faces(d.fonts, 0),
        None => Seq::<FontDescriptorV>::empty(),
    }) + (match db {
        Some(d) => d.fonts.map_values(|c: CompressedFontDataV| compressed_descriptor(c)),
        None => Seq::<FontDescriptorV>::empty(),
    })
}

/// The face the source manager yields for a name: the name-keyed cache
/// first, then a case-insensitive scan of the provided faces.
pub open spec fn source_lookup(m: crate::sources::FontSourceManagerV, name: Seq<char>) -> Option<
    FontDescriptorV,
> {
    let c = crate::sources::cache_find(m.font_cache, name, 0);
    let si = crate::sources::scanned_find(m.scanned, lower_seq(name), 0);
    if c >= 0 {
        Some(m.font_cache[c].1)
    } else if si >= 0 {
        Some(m.scanned[si])
    } else {
        None
    }
}

/// First database record whose lowercase family matches, or -1.
pub open spec fn db_fam_find(fs: Seq<CompressedFontDataV>, low: Seq<char>, i: int) -> int
    decreases fs.len() - i,
{
    if i < 0 || i >= fs.len() {
        -1
    } else if lower_seq(fs[i].family) == low {
        i
    } else {
        db_fam_find(fs, low, i + 1)
    }
}

proof fn lemma_db_fam_chain(fs: Seq<CompressedFontDataV>, low: Seq<char>, j: int, i: int)
    requires
        0 <= j <= i <= fs.len(),
        forall|k: int| j <= k < i ==> lower_seq((#[trigger] fs[k]).family) != low,
        i < fs.len() ==> lower_seq(fs[i].family) == low,
    ensures
        i < fs.len() ==> db_fam_find(fs, low, j) == i,
        i == fs.len() ==> db_fam_find(fs, low, j) == -1,
    decreases i - j,
{
    if j < i {
        lemma_db_fam_chain(fs, low, j + 1, i);
    }
}

/// What `export_metrics` answers: the found face's metrics as JSON, the
/// database record's metrics on a 1000-unit advance grid, or nothing.
pub open spec fn export_metrics_spec(m: crate::sources::FontSourceManagerV,
    db: Option<crate::compressor::CompressedFontDatabaseV>, name: Seq<char>) -> Option<Seq<char>> {
    match source_lookup(m, name) {
        Some(f) => match f.metrics {
            Some(fm) => Some(metrics_json_spec(fm)),
            None => None,
        },
        None => match db {
            Some(d) => {
                let k = db_fam_find(d.fonts, lower_seq(name), 0);
                if k >= 0 {
                    match d.fonts[k].metrics {
                        Some(cm) => Some(
                            metrics_json_spec(
                                (FontMetrics {
                                    units_per_em: cm.units_per_em,
                                    ascender: cm.ascender,
                                    descender: cm.descender,
                                    x_height: cm.x_height,
                                    cap_height: cm.cap_height,
                                    average_width: cm.average_width,
                                    max_advance_width: 1000,
                                }),
                            ),
                        ),
                        None => None,
                    }
                } else {
                    None
                }
            },
            None => None,
        },
    }
}

/// The face a resident cache answers with for a raw name, if any.
pub open spec fn cache_hit_spec(c: Option<crate::cache::CacheV>, name: Seq<char>) -> Option<
    FontDescriptorV,
> {
    match c {
        Some(cv) => match mem_lookup(cv.entries, name) {
            Some(e) => Some(e.font),
            None => None,
        },
        None => None,
    }
}

/// The face the bundled web database resolves a family to, preferring
/// the requested weight and slant.
pub open spec fn web_resolution(m: crate::sources::FontSourceManagerV, fam: Seq<char>,
    weight: u16, italic: bool) -> Option<FontDescriptorV> {
    match m.web_db {
        Some(d) => match crate::webdb::wdb_lookup(d, fam) {
            Some(wf) => crate::webdb::web_pick(wf, weight, italic),
            None => None,
        },
        None => None,
    }
}

/// Every suggestion names one of the three sources; the offline-fallback
/// flag marks exactly the substitution entries; internet entries carry
/// the fixed web score.
pub open spec fn suggestion_basic(sv: SuggestionResultV) -> bool {
    &&& (sv.source == "Local"@ || sv.source == "Internet"@ || sv.source
        == "System (Substitution)"@)
    &&& (sv.is_offline_fallback <==> sv.source == "System (Substitution)"@)
    &&& (sv.source == "Internet"@ ==> sv.score == 850)
}

pub open spec fn same_triple(a: SuggestionResultV, b: SuggestionResultV) -> bool {
    lower_seq(a.family) == lower_seq(b.family) && a.weight == b.weight && a.italic == b.italic
}

/// Pairwise discipline of a suggestion list: an internet entry never
/// shares its (family, weight, slant) key with any other entry, and
/// offline fallbacks appear only beside entries scoring under 0.6.
pub open spec fn suggestion_pair_ok(a: SuggestionResultV, b: SuggestionResultV) -> bool {
    &&& (b.source == "Internet"@ ==> !same_triple(a, b))
    &&& (b.is_offline_fallback && !a.is_offline_fallback ==> a.score < 600)
}

proof fn lemma_source_literals()
    ensures
        "Local"@ != "Internet"@,
        "Local"@ != "System (Substitution)"@,
        "Internet"@ != "System (Substitution)"@,
{
    reveal_strlit("Local");
    reveal_strlit("Internet");
    reveal_strlit("System (Substitution)");
    assert("Local"@.len() == 5);
    assert("Internet"@.len() == 8);
    assert("System (Substitution)"@.len() == 21);
}

/// A value counted at least twice sits at two distinct positions.
proof fn lemma_two_indices(s: Seq<SuggestionResult>, x: SuggestionResult)
    requires
        s.to_multiset().count(x) >= 2,
    ensures
        exists|i: int, j: int| 0 <= i < j < s.len() && s[i] == x && s[j] == x,
    decreases s.len(),
{
    broadcast use vstd::seq_lib::group_to_multiset_ensures;

    if s.len() == 0 {
        assert(s.to_multiset() =~= vstd::multiset::Multiset::<SuggestionResult>::empty());
    } else {
        let d = s.drop_last();
        assert(s =~= d.push(s.last()));
        assert(s.to_multiset() =~= d.to_multiset().insert(s.last()));
        if s.last() == x {
            assert(d.to_multiset().count(x) >= 1);
            assert(d.contains(x));
            let i = choose|i: int| 0 <= i < d.len() && d[i] == x;
            assert(s[i] == x && s[s.len() - 1] == x);
        } else {
            assert(d.to_multiset().count(x) >= 2);
            lemma_two_indices(d, x);
            let (i, j) = choose|i: int, j: int| 0 <= i < j < d.len() && d[i] == x && d[j] == x;
            assert(s[i] == x && s[j] == x);
        }
    }
}

/// A permutation keeps the per-entry and pairwise suggestion facts.
proof fn lemma_suggestions_transfer(a: Seq<SuggestionResult>, b: Seq<SuggestionResult>)
    requires
        a.to_multiset() == b.to_multiset(),
        forall|i: int| 0 <= i < a.len() ==> suggestion_basic((#[trigger] a[i])@),
        forall|i: int, j: int|
            0 <= i < a.len() && 0 <= j < a.len() && i != j ==> suggestion_pair_ok(
                (#[trigger] a[i])@,
                (#[trigger] a[j])@,
            ),
    ensures
        forall|i: int| 0 <= i < b.len() ==> suggestion_basic((#[trigger] b[i])@),
        forall|i: int, j: int|
            0 <= i < b.len() && 0 <= j < b.len() && i != j ==> suggestion_pair_ok(
                (#[trigger] b[i])@,
                (#[trigger] b[j])@,
            ),
{
    broadcast use vstd::seq_lib::group_to_multiset_ensures;

    assert forall|i: int| 0 <= i < b.len() implies suggestion_basic((#[trigger] b[i])@) by {
        assert(b.contains(b[i]));
        assert(a.to_multiset().count(b[i]) > 0);
        assert(a.contains(b[i]));
        let k = choose|k: int| 0 <= k < a.len() && a[k] == b[i];
    }
    assert forall|i: int, j: int|
        0 <= i < b.len() && 0 <= j < b.len() && i != j implies suggestion_pair_ok(
        (#[trigger] b[i])@,
        (#[trigger] b[j])@,
    ) by {
        if b[i] == b[j] {
            assert(b.to_multiset().count(b[i]) >= 2) by {
                assert(b.remove(i).to_multiset() =~= b.to_multiset().remove(b[i]));
                assert(b.remove(i).contains(b[j])) by {
                    if j < i {
                        assert(b.remove(i)[j] == b[j]);
                    } else {
                        assert(b.remove(i)[j - 1] == b[j]);
                    }
                }
                assert(b.remove(i).to_multiset().count(b[i]) > 0);
            }
            assert(a.to_multiset().count(b[i]) >= 2);
            lemma_two_indices(a, b[i]);
            let (x, y) = choose|x: int, y: int|
                0 <= x < y < a.len() && a[x] == b[i] && a[y] == b[i];
            assert(suggestion_pair_ok(a[x]@, a[y]@));
        } else {
            assert(b.contains(b[i]));
            assert(a.to_multiset().count(b[i]) > 0);
            assert(a.contains(b[i]));
            assert(b.contains(b[j]));
            assert(a.to_multiset().count(b[j]) > 0);
            assert(a.contains(b[j]));
            let x = choose|x: int| 0 <= x < a.len() && a[x] == b[i];
            let y = choose|y: int| 0 <= y < a.len() && a[y] == b[j];
            assert(x != y);
            assert(suggestion_pair_ok(a[x]@, a[y]@));
        }
    }
}

/// Whether an offered face demands attention before use: internet faces
/// always, otherwise anything without a known-safe license.
pub open spec fn license_critical_spec(f: FontDescriptorV, is_internet: bool) -> bool {
    if is_internet {
        true
    } else {
        match f.license {
            Some(l) => !(contains_sub(l.name, "SIL Open Font License"@)
                || l.allows_commercial_use),
            None => true,
        }
    }
}

/// The full pipeline owner: normalizer, cache, sources, scorer, license
/// checker, and the optional compressed database.
pub struct EnhancedFontResolver {
    normalizer: FontNormalizer,
    cache: Option<HybridFontCache>,
    config: EnhancedResolverConfig,
    license_checker: LicenseChecker,
    source_manager: FontSourceManager,
    similarity_engine: FontSimilarityEngine,
    compressed_database: Option<CompressedFontDatabase>,
}

/// The checker the resolver carries is the stock one.
pub open spec fn checker_ok(r: EnhancedFontResolver) -> bool {
    r.checker_view().0 == known_commercial_families() && r.checker_view().1
        == known_commercial_postscript()
}

impl EnhancedFontResolver {
    pub closed spec fn cache_view(&self) -> Option<crate::cache::CacheV> {
        match self.cache {
            Some(c) => Some(c@),
            None => None,
        }
    }

    pub closed spec fn checker_view(&self) -> (Seq<Seq<char>>, Seq<Seq<char>>, Seq<
        crate::license::FreeAlternativeV,
    >) {
        self.license_checker@
    }

    pub closed spec fn config_view(&self) -> crate::types::EnhancedResolverConfigV {
        self.config@
    }

    pub closed spec fn db_view(&self) -> Option<crate::compressor::CompressedFontDatabaseV> {
        match self.compressed_database {
            Some(d) => Some(d@),
            None => None,
        }
    }

    pub closed spec fn sources_view(&self) -> crate::sources::FontSourceManagerV {
        self.source_manager@
    }

    pub closed spec fn engine_view(&self) -> Seq<(Seq<char>, Seq<(Seq<char>, u32)>)> {
        self.similarity_engine@
    }

    pub closed spec fn cache_healthy(&self) -> bool {
        match self.cache {
            Some(c) => cache_wf(c@),
            None => true,
        }
    }

    /// Builds the pipeline from a configuration.  Quotas must fit the
    /// machine word.
    pub fn new(config: EnhancedResolverConfig) -> (r: FontResult<EnhancedFontResolver>)
        requires
            config.memory_limit_mb * 1024 * 1024 <= usize::MAX,
            config.disk_limit_mb * 1024 * 1024 <= usize::MAX,
        ensures
            r matches Ok(res) ==> {
                &&& res.config_view() == config@
                &&& (config.cache_enabled <==> res.cache_view() is Some)
                &&& res.cache_healthy()
                &&& checker_ok(res)
                &&& res.db_view() is None
            },
            r is Ok,
    {
        let cache = if config.cache_enabled {
            match HybridFontCache::new(
                config.memory_limit_mb,
                config.disk_limit_mb,
                config.auto_pin_threshold,
            ) {
                Ok(c) => Some(c),
                Err(_) => None,
            }
        } else {
            None
        };
        let mut source_manager = FontSourceManager::new();
        if config.web_fonts_enabled {
            let _ = source_manager.enable_web_fonts(true);
        }
        source_manager.set_priority(config.font_source_priority.clone());
        let similarity_engine = FontSimilarityEngine::new(None);
        Ok(
            EnhancedFontResolver {
                normalizer: FontNormalizer,
                cache,
                config,
                license_checker: LicenseChecker::new(),
                source_manager,
                similarity_engine,
                compressed_database: None,
            },
        )
    }

    /// Builds the pipeline and loads a database blob: the brotli payload
    /// first, the simple fallback format second; neither loading is
    /// fatal.  Any payload the encoder produced is loaded and read back
    /// equal but for the size field; a simple-format blob with at least
    /// one face is loaded too.
    pub fn new_with_database(config: EnhancedResolverConfig, database_data: &Vec<u8>) -> (r:
        FontResult<EnhancedFontResolver>)
        requires
            config.memory_limit_mb * 1024 * 1024 <= usize::MAX,
            config.disk_limit_mb * 1024 * 1024 <= usize::MAX,
        ensures
            r is Ok,
            r matches Ok(res) ==> res.config_view() == config@ && res.cache_healthy()
                && checker_ok(res),
            forall|dbv: crate::compressor::CompressedFontDatabaseV, q: u32|
                q <= 11 && crate::compressor::db_bounded(dbv) && database_data@
                    == #[trigger] crate::outside::brotli_of(crate::compressor::enc_db(dbv), q)
                    ==> (r matches Ok(res) && res.db_view() == Some(
                    (crate::compressor::CompressedFontDatabaseV {
                        metadata: crate::compressor::FontDatabaseMetadataV {
                            compressed_size_bytes: database_data@.len() as usize,
                            ..dbv.metadata
                        },
                        ..dbv
                    }),
                )),
            crate::compressor::simple_db_ok(database_data@) ==> (r matches Ok(res)
                && res.db_view() is Some),
    {
        let mut resolver = match Self::new(config) {
            Ok(x) => x,
            Err(e) => {
                return Err(e);
            },
        };
        let compressor = FontCompressor::new(11, true);
        match compressor.decompress_font_database(database_data) {
            Ok(db) => {
                resolver.compressed_database = Some(db);
            },
            Err(_) => {
                match try_load_simple_database(database_data) {
                    Some(db) => {
                        resolver.compressed_database = Some(db);
                    },
                    None => {},
                }
            },
        }
        let matrix = match &resolver.compressed_database {
            Some(db) => match &db.similarity_matrix {
                Some(m) => {
                    let mut rows: Vec<(String, Vec<(String, u32)>)> = Vec::new();
                    let mut i: usize = 0;
                    #[verifier::loop_isolation(false)]
                    while i < m.len()
                        decreases m@.len() - i,
                    {
                        let row = &m[i];
                        let mut pairs: Vec<(String, u32)> = Vec::new();
                        let mut j: usize = 0;
                        while j < row.1.len()
                            decreases row.1@.len() - j,
                        {
                            pairs.push((row.1[j].0.clone(), row.1[j].1));
                            j += 1;
                        }
                        rows.push((row.0.clone(), pairs));
                        i += 1;
                    }
                    Some(rows)
                },
                None => None,
            },
            None => None,
        };
        resolver.similarity_engine = FontSimilarityEngine::new(matrix);
        Ok(resolver)
    }

    /// One compressed record as a full descriptor with a synthetic path.
    pub fn compressed_to_font(&self, compressed: &CompressedFontData) -> (r: FontDescriptor)
        ensures
            r@ == compressed_descriptor(compressed@),
    {
        FontDescriptor {
            family: compressed.family.clone(),
            subfamily: None,
            postscript_name: compressed.postscript_name.clone(),
            full_name: Some(compressed.family.clone()),
            path: "/compressed".to_owned(),
            format: crate::types::FontFormat::Ttf,
            weight: compressed.weight,
            italic: compressed.italic,
            monospaced: compressed.monospaced,
            variable: false,
            metrics: match &compressed.metrics {
                Some(m) => Some(
                    FontMetrics {
                        units_per_em: m.units_per_em,
                        ascender: m.ascender,
                        descender: m.descender,
                        x_height: m.x_height,
                        cap_height: m.cap_height,
                        average_width: m.average_width,
                        max_advance_width: 1000,
                    },
                ),
                None => None,
            },
            license: Some(
                LicenseInfo {
                    name: compressed.license.name.clone(),
                    url: Some(compressed.license.url.clone()),
                    allows_embedding: compressed.license.allows_embedding,
                    allows_modification: compressed.license.allows_modification,
                    requires_attribution: compressed.license.requires_attribution,
                    allows_commercial_use: compressed.license.allows_commercial_use,
                },
            ),
        }
    }

    /// Takes the faces the embedding program scanned from disk.
    pub fn provide_scanned_fonts(&mut self, fonts: Vec<FontDescriptor>)
        requires
            old(self).cache_healthy(),
        ensures
            final(self).cache_healthy(),
            final(self).config_view() == old(self).config_view(),
            final(self).checker_view() == old(self).checker_view(),
    {
        self.source_manager.provide_scanned_fonts(fonts);
    }

    /// Every face available to matching: the scanned and web faces, then
    /// the database records.
    #[verifier::loop_isolation(false)]
    pub fn get_all_available_fonts(&mut self) -> (r: FontResult<Vec<FontDescriptor>>)
        requires
            old(self).cache_healthy(),
        ensures
            final(self).cache_healthy(),
            final(self).config_view() == old(self).config_view(),
            final(self).checker_view() == old(self).checker_view(),
            final(self).sources_view() == old(self).sources_view(),
            final(self).db_view() == old(self).db_view(),
            final(self).cache_view() == old(self).cache_view(),
            final(self).engine_view() == old(self).engine_view(),
            r matches Ok(v) && v@.map_values(|f: FontDescriptor| f@) == available_spec(
                old(self).sources_view(),
                old(self).db_view(),
            ),
    {
        let ghost base = available_spec(self.sources_view(), self.db_view());
        let mut fonts = match self.source_manager.scan_sources() {
            Ok(v) => v,
            Err(_) => Vec::new(),
        };
        let ghost scanned_web = fonts@.map_values(|f: FontDescriptor| f@);
        if let Some(db) = &self.compressed_database {
            let ghost recs = db@.fonts.map_values(|c: CompressedFontDataV| compressed_descriptor(c));
            let mut i: usize = 0;
            while i < db.fonts.len()
                invariant
                    i <= db.fonts@.len(),
                    recs == db@.fonts.map_values(
                        |c: CompressedFontDataV| compressed_descriptor(c),
                    ),
                    fonts@.map_values(|f: FontDescriptor| f@) == scanned_web + recs.subrange(
                        0,
                        i as int,
                    ),
                decreases db.fonts@.len() - i,
            {
                let ghost f0 = fonts@.map_values(|f: FontDescriptor| f@);
                let f = self.compressed_to_font(&db.fonts[i]);
                fonts.push(f);
                proof {
                    assert(fonts@.map_values(|g: FontDescriptor| g@) =~= f0.push(
                        recs[i as int],
                    ));
                    assert(fonts@.map_values(|g: FontDescriptor| g@) =~= scanned_web
                        + recs.subrange(0, i + 1));
                }
                i += 1;
            }
            proof {
                assert(recs.subrange(0, recs.len() as int) =~= recs);
                assert(fonts@.map_values(|f: FontDescriptor| f@) =~= base);
            }
        } else {
            proof {
                assert(fonts@.map_values(|f: FontDescriptor| f@) =~= base);
            }
        }
        Ok(fonts)
    }

    /// Resolves through the cache and the sources.  A resident entry
    /// answers at once with the cached face and a cache warning.  On a
    /// miss the name is normalized; the face the sources (or, failing
    /// them, the web database) yield for the family is license-checked,
    /// written back to the cache — a failing write-back becomes a warning
    /// inside the result — and returned; otherwise the name is not found.
    pub fn resolve_with_sources(&mut self, font_name: &str) -> (r: FontResult<ResolutionResult>)
        requires
            old(self).cache_healthy(),
            checker_ok(*old(self)),
        ensures
            final(self).cache_healthy(),
            final(self).config_view() == old(self).config_view(),
            final(self).checker_view() == old(self).checker_view(),
            r matches Ok(res) ==> res@.original_name == font_name@ && !res@.substituted
                && res@.substitution_reason is None && res@.compatibility_score == 1000,
            ({
                let hit = cache_hit_spec(old(self).cache_view(), font_name@);
                let fam = norm_family(font_name@);
                let src = source_lookup(old(self).sources_view(), fam);
                let web = if old(self).config_view().web_fonts_enabled {
                    web_resolution(
                        old(self).sources_view(),
                        fam,
                        crate::normalize::norm_weight(font_name@),
                        crate::normalize::norm_style(font_name@)
                            != crate::types::FontStyle::Normal,
                    )
                } else {
                    None
                };
                &&& (hit matches Some(f) ==> (r matches Ok(res) && res@.font == f
                    && res@.warnings.len() >= 1 && res@.warnings[0] == "Loaded from cache"@
                    && res@.source == FontSource::System))
                &&& (hit is None && fam.len() == 0 ==> (r matches Err(e)
                    && e is InvalidFontName))
                &&& (hit is None && fam.len() > 0 ==> {
                    &&& (r is Ok <==> src is Some || web is Some)
                    &&& (r matches Ok(res) ==> res@.font == (if src is Some {
                        src->Some_0
                    } else {
                        web->Some_0
                    }) && res@.source == (if src is Some {
                        FontSource::System
                    } else {
                        FontSource::OpenRepository
                    }))
                    &&& (r matches Err(e) ==> e is NotFound)
                })
            }),
    {
        let ghost oldmgr = self.sources_view();
        let mut cache_hit: Option<FontDescriptor> = None;
        if let Some(cache) = &mut self.cache {
            let ghost oldcache = cache@;
            cache_hit = cache.get(font_name);
            proof {
                crate::cache::lemma_lookup_set_flag(oldcache.entries, font_name@, true, font_name@);
                match cache_hit {
                    Some(ref f) => {
                        assert(cache_hit_spec(old(self).cache_view(), font_name@) == Some(f@));
                    },
                    None => {
                        assert(cache_hit_spec(old(self).cache_view(), font_name@) is None);
                    },
                }
            }
        }
        if let Some(cached_font) = cache_hit {
            let mut warnings: Vec<String> = Vec::new();
            warnings.push("Loaded from cache".to_owned());
            if !matches!(self.config.license_warnings, crate::types::LicenseWarningLevel::Off) {
                let w = self.license_checker.check_font(&cached_font);
                if w.warning_level != crate::license::WarningLevel::Info {
                    warnings.push(w.message);
                }
            }
            return Ok(
                ResolutionResult {
                    original_name: font_name.to_owned(),
                    font: cached_font,
                    source: FontSource::System,
                    substituted: false,
                    substitution_reason: None,
                    compatibility_score: 1000,
                    warnings,
                },
            );
        }
        let request = match self.normalizer.normalize(font_name) {
            Ok(q) => q,
            Err(e) => {
                return Err(e);
            },
        };
        let mut found: Option<FontDescriptor> = None;
        let mut source_type = FontSource::System;
        match self.source_manager.find_font(request.family.as_str()) {
            Ok(Some(f)) => {
                found = Some(f);
            },
            _ => {},
        }
        if found.is_none() && self.config.web_fonts_enabled {
            if let Some(db) = self.source_manager.get_web_db() {
                if let Some(wf) = db.find_font(request.family.as_str()) {
                    let ghost wfv = wf@;
                    let mut chosen: Option<&crate::webdb::WebFontVariant> = None;
                    let mut v: usize = 0;
                    #[verifier::loop_isolation(false)]
                    while v < wf.variants.len()
                        invariant
                            v <= wf.variants@.len(),
                            wf@ == wfv,
                            match chosen {
                                Some(c) => {
                                    let f = crate::webdb::var_find(
                                        wfv.variants,
                                        request.weight,
                                        request.italic,
                                        0,
                                    );
                                    0 <= f < wfv.variants.len() && c@ == wfv.variants[f] && f < v
                                },
                                None => forall|x: int|
                                    0 <= x < v ==> !((#[trigger] wfv.variants[x]).weight
                                        == request.weight && wfv.variants[x].italic
                                        == request.italic),
                            },
                        decreases wf.variants@.len() - v,
                    {
                        if wf.variants[v].weight == request.weight && wf.variants[v].italic
                            == request.italic && chosen.is_none() {
                            proof {
                                crate::webdb::lemma_var_chain(
                                    wfv.variants,
                                    request.weight,
                                    request.italic,
                                    0,
                                    v as int,
                                );
                            }
                            chosen = Some(&wf.variants[v]);
                        }
                        v += 1;
                    }
                    match chosen {
                        Some(var) => {
                            found = Some(db.to_font_descriptor(wf, var));
                            source_type = FontSource::OpenRepository;
                        },
                        None => {
                            proof {
                                crate::webdb::lemma_var_chain(
                                    wfv.variants,
                                    request.weight,
                                    request.italic,
                                    0,
                                    wfv.variants.len() as int,
                                );
                            }
                            if wf.variants.len() > 0 {
                                found = Some(db.to_font_descriptor(wf, &wf.variants[0]));
                                source_type = FontSource::OpenRepository;
                            }
                        },
                    }
                    proof {
                        assert(found matches Some(f) ==> Some(f@) == crate::webdb::web_pick(
                            wfv,
                            request.weight,
                            request.italic,
                        ));
                    }
                }
            }
        }
        match found {
            Some(font) => {
                let mut warnings: Vec<String> = Vec::new();
                if !matches!(self.config.license_warnings, crate::types::LicenseWarningLevel::Off) {
                    let w = self.license_checker.check_font(&font);
                    if w.warning_level != crate::license::WarningLevel::Info {
                        warnings.push(w.message);
                    }
                }
                if let Some(cache) = &mut self.cache {
                    match cache.put(font_name, font.duplicate()) {
                        Ok(_) => {},
                        Err(_) => {
                            warnings.push("Failed to cache the resolved font".to_owned());
                        },
                    }
                }
                Ok(
                    ResolutionResult {
                        original_name: font_name.to_owned(),
                        font,
                        source: source_type,
                        substituted: false,
                        substitution_reason: None,
                        compatibility_score: 1000,
                        warnings,
                    },
                )
            },
            None => Err(FontError::NotFound(font_name.to_owned())),
        }
    }

    /// Gathers and ranks suggestions.  The internet results, if the
    /// caller performed a provider search, are merged by unique
    /// (family, weight, slant); with nothing good locally, offline
    /// substitutes are appended.  The final list is sorted by score and
    /// cut by the score thresholds.
    #[verifier::loop_isolation(false)]
    #[verifier::rlimit(100)]
    pub fn get_suggestions(&mut self, font_name: &str, internet_results: Option<
        &Vec<CompressedFontData>,
    >) -> (r: FontResult<Vec<SuggestionResult>>)
        requires
            old(self).cache_healthy(),
            checker_ok(*old(self)),
        ensures
            final(self).cache_healthy(),
            final(self).config_view() == old(self).config_view(),
            final(self).checker_view() == old(self).checker_view(),
            r matches Ok(v) ==> {
                &&& (forall|x: int, y: int|
                    0 <= x <= y < v@.len() ==> (#[trigger] v@[x]).score >= (#[trigger] v@[y]).score)
                &&& (v@.len() > 0 && v@[0].score > 980 ==> v@.len() <= 4)
                &&& (v@.len() > 0 && 900 < v@[0].score <= 980 ==> v@.len() <= 10 && (forall|x: int|
                    0 <= x < v@.len() ==> (#[trigger] v@[x]).score >= 750))
                &&& (v@.len() > 0 && v@[0].score <= 900 ==> v@.len() <= 20)
                &&& (forall|x: int| 0 <= x < v@.len() ==> suggestion_basic((#[trigger] v@[x])@))
                &&& (forall|x: int, y: int|
                    0 <= x < v@.len() && 0 <= y < v@.len() && x != y ==> suggestion_pair_ok(
                        (#[trigger] v@[x])@,
                        (#[trigger] v@[y])@,
                    ))
                &&& (available_spec(old(self).sources_view(), old(self).db_view()).len() > 0
                    ==> v@.len() > 0)
                &&& ((internet_results matches Some(w) && w@.len() > 0) ==> v@.len() > 0)
            },
            norm_family(font_name@).len() == 0 <==> r is Err,
    {
        let request = match self.normalizer.normalize(font_name) {
            Ok(q) => q,
            Err(e) => {
                return Err(e);
            },
        };
        let all_fonts = match self.get_all_available_fonts() {
            Ok(v) => v,
            Err(_) => Vec::new(),
        };
        let ghost fv = available_spec(old(self).sources_view(), old(self).db_view());
        let ghost mat = old(self).engine_view();
        proof {
            assert(crate::similarity::font_views(all_fonts@) == fv);
            assert(request@ == spec_request(font_name@));
            lemma_source_literals();
        }
        let local = self.similarity_engine.find_tiered_matches(&request, &all_fonts, 20);
        proof {
            crate::similarity::lemma_rank_partition(mat, request@, fv, 0);
            crate::similarity::lemma_count_rank_bounds_pub(mat, request@, fv, 0);
            crate::similarity::lemma_count_rank_bounds_pub(mat, request@, fv, 1);
            crate::similarity::lemma_count_rank_bounds_pub(mat, request@, fv, 2);
            if fv.len() > 0 {
                assert(local.matches@.len() > 0);
            }
        }
        let mut results: Vec<SuggestionResult> = Vec::new();
        let mut i: usize = 0;
        while i < local.matches.len()
            invariant
                i <= local.matches@.len(),
                results@.len() == i,
                forall|x: int|
                    0 <= x < results@.len() ==> suggestion_basic((#[trigger] results@[x])@)
                        && results@[x]@.source == "Local"@,
            decreases local.matches@.len() - i,
        {
            proof {
                lemma_source_literals();
            }
            let m = &local.matches[i];
            let crit = match &m.font.license {
                Some(l) => {
                    let lc = string_chars(&l.name);
                    let pat = str_chars("SIL Open Font License");
                    !(contains_vec(&lc, &pat) || l.allows_commercial_use)
                },
                None => true,
            };
            results.push(
                SuggestionResult {
                    family: m.font.family.clone(),
                    subfamily: match &m.font.subfamily {
                        Some(s) => s.clone(),
                        None => "Regular".to_owned(),
                    },
                    source: "Local".to_owned(),
                    score: m.score.overall,
                    weight: m.font.weight,
                    italic: m.font.italic,
                    is_critical_license_warning: crit,
                    license_name: match &m.font.license {
                        Some(l) => l.name.clone(),
                        None => "Unknown".to_owned(),
                    },
                    has_local_file: true,
                    download_url: None,
                    is_offline_fallback: false,
                },
            );
            i += 1;
        }
        let ghost local_count = results@.len();
        proof {
            assert(forall|x: int, y: int|
                0 <= x < results@.len() && 0 <= y < results@.len() && x != y
                    ==> suggestion_pair_ok((#[trigger] results@[x])@, (#[trigger] results@[y])@));
        }
        if let Some(web) = internet_results {
            let mut k: usize = 0;
            #[verifier::loop_isolation(false)]
            while k < web.len()
                invariant
                    results@.len() >= local_count,
                    local_count > 0 || web@.len() == 0 || k == 0 || results@.len() > 0,
                    forall|x: int|
                        0 <= x < results@.len() ==> suggestion_basic((#[trigger] results@[x])@),
                    forall|x: int, y: int|
                        0 <= x < results@.len() && 0 <= y < results@.len() && x != y
                            ==> suggestion_pair_ok(
                            (#[trigger] results@[x])@,
                            (#[trigger] results@[y])@,
                        ),
                    forall|x: int|
                        0 <= x < results@.len() ==> !(#[trigger] results@[x])@.is_offline_fallback,
                decreases web@.len() - k,
            {
                proof {
                    lemma_source_literals();
                }
                let wf = &web[k];
                let mut dup = false;
                let mut j: usize = 0;
                while j < results.len()
                    invariant
                        j <= results@.len(),
                        dup ==> (exists|x: int|
                            0 <= x < results@.len() && lower_seq(
                                (#[trigger] results@[x])@.family,
                            ) == lower_seq(wf@.family) && results@[x]@.weight == wf@.weight
                                && results@[x]@.italic == wf@.italic),
                        !dup ==> forall|x: int|
                            0 <= x < j ==> !(lower_seq((#[trigger] results@[x])@.family)
                                == lower_seq(wf@.family) && results@[x]@.weight == wf@.weight
                                && results@[x]@.italic == wf@.italic),
                    decreases results@.len() - j,
                {
                    let a = string_chars(&results[j].family);
                    let al = lower_vec(&a);
                    let b = string_chars(&wf.family);
                    let bl = lower_vec(&b);
                    if eq_vec(&al, &bl) && results[j].weight == wf.weight && results[j].italic
                        == wf.italic {
                        dup = true;
                    }
                    j += 1;
                }
                if !dup {
                    let nc = string_chars(&wf.license.name);
                    let p1 = str_chars("Personal");
                    let p2 = str_chars("OFL");
                    let p3 = str_chars("Apache");
                    let crit = contains_vec(&nc, &p1) || (!contains_vec(&nc, &p2)
                        && !contains_vec(&nc, &p3) && !wf.license.allows_commercial_use);
                    let url = if wf.download_urls.len() > 0 {
                        Some(wf.download_urls[0].1.clone())
                    } else {
                        None
                    };
                    let ghost r0 = results@;
                    results.push(
                        SuggestionResult {
                            family: wf.family.clone(),
                            subfamily: "Regular".to_owned(),
                            source: "Internet".to_owned(),
                            score: 850,
                            weight: wf.weight,
                            italic: wf.italic,
                            is_critical_license_warning: crit,
                            license_name: wf.license.name.clone(),
                            has_local_file: false,
                            download_url: url,
                            is_offline_fallback: false,
                        },
                    );
                    proof {
                        let nv = results@[r0.len() as int]@;
                        assert(nv.source == "Internet"@ && nv.score == 850
                            && !nv.is_offline_fallback);
                        assert(lower_seq(nv.family) == lower_seq(wf@.family));
                        assert forall|x: int, y: int|
                            0 <= x < results@.len() && 0 <= y < results@.len() && x != y
                                implies suggestion_pair_ok(
                            (#[trigger] results@[x])@,
                            (#[trigger] results@[y])@,
                        ) by {
                            if y == r0.len() {
                                assert(results@[x] == r0[x]);
                                assert(!same_triple(results@[x]@, nv));
                            } else if x == r0.len() {
                                assert(results@[y] == r0[y]);
                                if results@[y]@.source == "Internet"@ {
                                    assert(!same_triple(r0[y]@, nv));
                                    assert(!same_triple(nv, results@[y]@));
                                }
                            } else {
                                assert(results@[x] == r0[x] && results@[y] == r0[y]);
                            }
                        }
                    }
                }
                k += 1;
            }
        }
        let mut all_low = true;
        let mut j: usize = 0;
        #[verifier::loop_isolation(false)]
        while j < results.len()
            invariant
                j <= results@.len(),
                all_low == (forall|x: int| 0 <= x < j ==> (#[trigger] results@[x]).score < 600),
            decreases results@.len() - j,
        {
            if results[j].score >= 600 {
                all_low = false;
            }
            j += 1;
        }
        if results.len() == 0 || all_low {
            proof {
                lemma_source_literals();
                assert(forall|x: int|
                    0 <= x < results@.len() ==> (#[trigger] results@[x])@.score < 600);
                assert(forall|x: int|
                    0 <= x < results@.len() ==> !(#[trigger] results@[x])@.is_offline_fallback)
                    by {
                    assert forall|x: int|
                        0 <= x < results@.len() implies !(
                        #[trigger] results@[x])@.is_offline_fallback by {
                        assert(suggestion_basic(results@[x]@));
                        assert(results@[x]@.score < 600);
                    }
                }
            }
            let subs = self.similarity_engine.find_tiered_matches(&request, &all_fonts, 5);
            proof {
                if fv.len() > 0 {
                    assert(subs.matches@.len() > 0);
                }
            }
            let ghost pre_subs = results@.len() as int;
            let mut k: usize = 0;
            #[verifier::loop_isolation(false)]
            while k < subs.matches.len()
                invariant
                    results@.len() == pre_subs + k,
                    forall|x: int|
                        0 <= x < pre_subs ==> suggestion_basic((#[trigger] results@[x])@)
                            && results@[x]@.score < 600 && !results@[x]@.is_offline_fallback,
                    forall|x: int|
                        pre_subs <= x < results@.len() ==> suggestion_basic(
                            (#[trigger] results@[x])@,
                        ) && results@[x]@.is_offline_fallback,
                    forall|x: int, y: int|
                        0 <= x < results@.len() && 0 <= y < results@.len() && x != y
                            ==> suggestion_pair_ok(
                            (#[trigger] results@[x])@,
                            (#[trigger] results@[y])@,
                        ),
                decreases subs.matches@.len() - k,
            {
                proof {
                    lemma_source_literals();
                }
                let m = &subs.matches[k];
                let ghost r0 = results@;
                results.push(
                    SuggestionResult {
                        family: m.font.family.clone(),
                        subfamily: match &m.font.subfamily {
                            Some(s) => s.clone(),
                            None => "Regular".to_owned(),
                        },
                        source: "System (Substitution)".to_owned(),
                        score: m.score.overall,
                        weight: m.font.weight,
                        italic: m.font.italic,
                        is_critical_license_warning: false,
                        license_name: "Safe Substitute".to_owned(),
                        has_local_file: true,
                        download_url: None,
                        is_offline_fallback: true,
                    },
                );
                proof {
                    let nv = results@[r0.len() as int]@;
                    assert(nv.source == "System (Substitution)"@ && nv.is_offline_fallback);
                    assert forall|x: int, y: int|
                        0 <= x < results@.len() && 0 <= y < results@.len() && x != y
                            implies suggestion_pair_ok(
                        (#[trigger] results@[x])@,
                        (#[trigger] results@[y])@,
                    ) by {
                        if x < r0.len() && y < r0.len() {
                            assert(results@[x] == r0[x] && results@[y] == r0[y]);
                        } else {
                            if x < r0.len() {
                                assert(results@[x] == r0[x]);
                            }
                            if y < r0.len() {
                                assert(results@[y] == r0[y]);
                            }
                        }
                    }
                }
                k += 1;
            }
        }
        let ghost presort = results@;
        proof {
            assert(fv.len() > 0 ==> results@.len() > 0);
            if internet_results matches Some(w) && w@.len() > 0 {
                assert(results@.len() > 0);
            }
        }
        let mut sorted = sort_suggestions_desc(results);
        proof {
            lemma_suggestions_transfer(presort, sorted@);
        }
        if sorted.len() > 0 {
            let top = sorted[0].score;
            if top > 980 {
                sorted.truncate(4);
            } else if top > 900 {
                let mut kept: Vec<SuggestionResult> = Vec::new();
                let mut k: usize = 0;
                while k < sorted.len()
                    invariant
                        k <= sorted@.len(),
                        sorted@.len() > 0,
                        sorted@[0].score == top,
                        top > 900,
                        forall|x: int, y: int|
                            0 <= x <= y < sorted@.len() ==> (#[trigger] sorted@[x]).score
                                >= (#[trigger] sorted@[y]).score,
                        forall|x: int|
                            0 <= x < sorted@.len() ==> suggestion_basic((#[trigger] sorted@[x])@),
                        forall|x: int, y: int|
                            0 <= x < sorted@.len() && 0 <= y < sorted@.len() && x != y
                                ==> suggestion_pair_ok(
                                (#[trigger] sorted@[x])@,
                                (#[trigger] sorted@[y])@,
                            ),
                        forall|x: int|
                            0 <= x < kept@.len() ==> (#[trigger] kept@[x]).score >= 750,
                        forall|x: int, y: int|
                            0 <= x <= y < kept@.len() ==> (#[trigger] kept@[x]).score
                                >= (#[trigger] kept@[y]).score,
                        kept@.len() <= k,
                        k > 0 ==> kept@.len() > 0 && kept@[0]@ == sorted@[0]@ && kept@[0].score
                            == sorted@[0].score,
                        forall|x: int, y: int|
                            0 <= x < kept@.len() && k <= y < sorted@.len() ==> (
                            #[trigger] kept@[x]).score >= (#[trigger] sorted@[y]).score,
                        forall|x: int|
                            0 <= x < kept@.len() ==> exists|j: int|
                                0 <= j < k && (#[trigger] kept@[x])@ == sorted@[j]@,
                        forall|x: int|
                            0 <= x < kept@.len() ==> suggestion_basic((#[trigger] kept@[x])@),
                        forall|x: int, y: int|
                            0 <= x < kept@.len() && 0 <= y < kept@.len() && x != y
                                ==> suggestion_pair_ok(
                                (#[trigger] kept@[x])@,
                                (#[trigger] kept@[y])@,
                            ),
                    decreases sorted@.len() - k,
                {
                    if sorted[k].score >= 750 {
                        let s = &sorted[k];
                        let ghost k0 = kept@;
                        kept.push(
                            SuggestionResult {
                                family: s.family.clone(),
                                subfamily: s.subfamily.clone(),
                                source: s.source.clone(),
                                score: s.score,
                                weight: s.weight,
                                italic: s.italic,
                                is_critical_license_warning: s.is_critical_license_warning,
                                license_name: s.license_name.clone(),
                                has_local_file: s.has_local_file,
                                download_url: match &s.download_url {
                                    Some(u) => Some(u.clone()),
                                    None => None,
                                },
                                is_offline_fallback: s.is_offline_fallback,
                            },
                        );
                        proof {
                            assert(kept@[k0.len() as int]@ == sorted@[k as int]@);
                            assert forall|x: int, y: int|
                                0 <= x < kept@.len() && 0 <= y < kept@.len() && x != y
                                    implies suggestion_pair_ok(
                                (#[trigger] kept@[x])@,
                                (#[trigger] kept@[y])@,
                            ) by {
                                if y == k0.len() {
                                    assert(kept@[x] == k0[x]);
                                    let j = choose|j: int|
                                        0 <= j < k && (#[trigger] k0[x])@ == sorted@[j]@;
                                    assert(suggestion_pair_ok(sorted@[j]@, sorted@[k as int]@));
                                } else if x == k0.len() {
                                    assert(kept@[y] == k0[y]);
                                    let j = choose|j: int|
                                        0 <= j < k && (#[trigger] k0[y])@ == sorted@[j]@;
                                    assert(suggestion_pair_ok(sorted@[k as int]@, sorted@[j]@));
                                } else {
                                    assert(kept@[x] == k0[x] && kept@[y] == k0[y]);
                                }
                            }
                        }
                    }
                    k += 1;
                }
                sorted = kept;
                sorted.truncate(10);
            } else {
                sorted.truncate(20);
            }
        }
        Ok(sorted)
    }

    /// Whether an offered face needs a license warning before use.
    pub fn is_license_critical(&self, font: &FontDescriptor, is_internet: bool) -> (r: bool)
        ensures
            r == license_critical_spec(font@, is_internet),
    {
        if is_internet {
            return true;
        }
        match &font.license {
            Some(l) => {
                let lc = string_chars(&l.name);
                let pat = str_chars("SIL Open Font License");
                !(contains_vec(&lc, &pat) || l.allows_commercial_use)
            },
            None => true,
        }
    }

    /// Resolves into tiers over every available face: an Exact winner
    /// when any candidate reaches the Exact band, the Similar-band faces
    /// when that is the best band, and otherwise the advice to search the
    /// internet — unless the internet is allowed, in which case the
    /// bundled web database is consulted first.
    #[verifier::loop_isolation(false)]
    pub fn resolve_with_tiered_matching(&mut self, font_name: &str,
        enable_internet_search: bool) -> (r: FontResult<TieredResolutionResult>)
        requires
            old(self).cache_healthy(),
        ensures
            final(self).cache_healthy(),
            final(self).config_view() == old(self).config_view(),
            final(self).checker_view() == old(self).checker_view(),
            norm_family(font_name@).len() == 0 <==> r is Err,
            r matches Ok(t) ==> ({
                let fv = available_spec(old(self).sources_view(), old(self).db_view());
                let mat = old(self).engine_view();
                let req = spec_request(font_name@);
                let c0 = crate::similarity::count_rank(mat, req, fv, 0, 0);
                let c1 = crate::similarity::count_rank(mat, req, fv, 1, 0);
                let web_on = enable_internet_search && old(self).config_view().web_fonts_enabled;
                &&& !(t is NotFound)
                &&& (t matches TieredResolutionResult::Exact(f, s) ==> ((c0 > 0 && crate::similarity::tier_of(s) is Exact && exists|k: int|
                    0 <= k < fv.len() && (#[trigger] fv[k]) == f@
                        && crate::similarity::full_score(mat, true, req, f@).overall == s) || (c0
                    == 0 && c1 == 0 && web_on && s == 950)))
                &&& (t matches TieredResolutionResult::Similar(fs, sc) ==> ((c0 == 0 && c1 > 0 && fs@.len() > 0 && forall|
                    x: int,
                |
                    0 <= x < fs@.len() ==> crate::similarity::tier_of(
                        crate::similarity::full_score(mat, true, req, (#[trigger] fs@[x])@).overall,
                    ) is Similar && exists|k: int|
                        0 <= k < fv.len() && fv[k] == fs@[x]@) || (c0 == 0 && c1 == 0 && web_on
                    && sc == 850)))
                &&& (t is SuggestInternet ==> c0 == 0 && c1 == 0)
            }),
    {
        let request = match self.normalizer.normalize(font_name) {
            Ok(q) => q,
            Err(e) => {
                return Err(e);
            },
        };
        let all_fonts = match self.get_all_available_fonts() {
            Ok(v) => v,
            Err(_) => Vec::new(),
        };
        let ghost fv = available_spec(old(self).sources_view(), old(self).db_view());
        let ghost mat = old(self).engine_view();
        let ghost req = spec_request(font_name@);
        proof {
            assert(request@ == req);
            assert(all_fonts@.map_values(|f: FontDescriptor| f@) == fv);
            assert(crate::similarity::font_views(all_fonts@) == fv);
        }
        let tiered = self.similarity_engine.find_tiered_matches(&request, &all_fonts, 5);
        let ghost c0 = crate::similarity::count_rank(mat, req, fv, 0, 0);
        let ghost c1 = crate::similarity::count_rank(mat, req, fv, 1, 0);
        let ghost ne = crate::similarity::spec_min(5, c0);
        let ghost ns = crate::similarity::spec_min(5, c1);
        proof {
            crate::similarity::lemma_rank_partition(mat, req, fv, 0);
            crate::similarity::lemma_count_rank_bounds_pub(mat, req, fv, 0);
            crate::similarity::lemma_count_rank_bounds_pub(mat, req, fv, 1);
            crate::similarity::lemma_count_rank_bounds_pub(mat, req, fv, 2);
        }
        match tiered.best_tier {
            MatchTier::Exact(score) => {
                proof {
                    assert(tiered.matches@.len() > 0);
                    assert(tiered.matches@[0].tier == tiered.best_tier);
                    assert(crate::similarity::tier_rank(tiered.matches@[0].tier) == 0);
                    assert(ne > 0) by {
                        if ne == 0 {
                            if ns > 0 {
                                assert(crate::similarity::tier_rank(tiered.matches@[0].tier) == 1);
                            } else {
                                assert(crate::similarity::tier_rank(tiered.matches@[0].tier) == 2);
                            }
                        }
                    }
                    assert(c0 > 0);
                }
                if tiered.matches.len() > 0 {
                    let f = tiered.matches[0].font.duplicate();
                    proof {
                        assert(crate::similarity::match_ok(mat, req, fv, tiered.matches@[0]@));
                        assert(tiered.matches@[0]@.score.overall == score);
                    }
                    Ok(TieredResolutionResult::Exact(f, score))
                } else {
                    Ok(TieredResolutionResult::NotFound)
                }
            },
            MatchTier::Similar(score) => {
                proof {
                    assert(tiered.matches@.len() > 0);
                    assert(tiered.matches@[0].tier == tiered.best_tier);
                    assert(crate::similarity::tier_rank(tiered.matches@[0].tier) == 1);
                    assert(ne == 0) by {
                        if ne > 0 {
                            assert(crate::similarity::tier_rank(tiered.matches@[0].tier) == 0);
                        }
                    }
                    assert(crate::similarity::count_rank(mat, req, fv, 0, 0) == 0);
                    assert(crate::similarity::spec_min(
                        5,
                        crate::similarity::count_rank(mat, req, fv, 1, 0),
                    ) > 0);
                }
                let mut similar: Vec<FontDescriptor> = Vec::new();
                let mut i: usize = 0;
                while i < tiered.matches.len()
                    invariant
                        i <= tiered.matches@.len(),
                        forall|j: int|
                            0 <= j < tiered.matches@.len() ==> crate::similarity::match_ok(
                                mat,
                                req,
                                fv,
                                (#[trigger] tiered.matches@[j])@,
                            ),
                        forall|x: int|
                            0 <= x < similar@.len() ==> (crate::similarity::tier_of(
                                crate::similarity::full_score(
                                    mat,
                                    true,
                                    req,
                                    (#[trigger] similar@[x])@,
                                ).overall,
                            ) is Similar && exists|k: int|
                                0 <= k < fv.len() && fv[k] == similar@[x]@),
                        i > 0 && tiered.matches@[0].tier is Similar ==> similar@.len() > 0,
                    decreases tiered.matches@.len() - i,
                {
                    let m = &tiered.matches[i];
                    if matches!(m.tier, MatchTier::Similar(_)) {
                        proof {
                            assert(crate::similarity::match_ok(mat, req, fv, m@));
                            assert(m.tier == crate::similarity::tier_of(m.score.overall));
                        }
                        similar.push(m.font.duplicate());
                    }
                    i += 1;
                }
                if similar.len() > 0 {
                    Ok(TieredResolutionResult::Similar(similar, score))
                } else {
                    Ok(TieredResolutionResult::NotFound)
                }
            },
            MatchTier::Low(_) => {
                proof {
                    if tiered.matches@.len() > 0 {
                        assert(tiered.matches@[0].tier == tiered.best_tier);
                        assert(crate::similarity::tier_rank(tiered.matches@[0].tier) == 2);
                        assert(ne == 0) by {
                            if ne > 0 {
                                assert(crate::similarity::tier_rank(tiered.matches@[0].tier) == 0);
                            }
                        }
                        assert(ns == 0) by {
                            if ns > 0 {
                                assert(crate::similarity::tier_rank(
                                    tiered.matches@[ne as int].tier,
                                ) == 1);
                            }
                        }
                    } else {
                        assert(ne == 0 && ns == 0);
                    }
                    assert(crate::similarity::count_rank(mat, req, fv, 0, 0) == 0);
                    assert(crate::similarity::count_rank(mat, req, fv, 1, 0) == 0);
                }
                if enable_internet_search && self.config.web_fonts_enabled {
                    self.search_web_db_and_suggest(&request)
                } else {
                    Ok(TieredResolutionResult::SuggestInternet)
                }
            },
        }
    }

    /// The web-database fallback of tiered resolution: a direct family
    /// hit answers Exact at 0.95, containment matches answer Similar at
    /// 0.85, anything else stays advice to search the internet.
    #[verifier::loop_isolation(false)]
    fn search_web_db_and_suggest(&self, request: &FontRequest) -> (r: FontResult<
        TieredResolutionResult,
    >)
        ensures
            r is Ok,
            match r->Ok_0 {
                TieredResolutionResult::Exact(_, s) => s == 950,
                TieredResolutionResult::Similar(fs, sc) => sc == 850 && fs@.len() > 0,
                TieredResolutionResult::SuggestInternet => true,
                TieredResolutionResult::NotFound => false,
            },
    {
        if let Some(db) = self.source_manager.get_web_db() {
            if let Some(wf) = db.find_font(request.family.as_str()) {
                let mut chosen: Option<&crate::webdb::WebFontVariant> = None;
                let mut v: usize = 0;
                while v < wf.variants.len()
                    decreases wf.variants@.len() - v,
                {
                    if wf.variants[v].weight == request.weight && wf.variants[v].italic
                        == request.italic && chosen.is_none() {
                        chosen = Some(&wf.variants[v]);
                    }
                    v += 1;
                }
                match chosen {
                    Some(var) => {
                        return Ok(
                            TieredResolutionResult::Exact(db.to_font_descriptor(wf, var), 950),
                        );
                    },
                    None => {
                        if wf.variants.len() > 0 {
                            return Ok(
                                TieredResolutionResult::Exact(
                                    db.to_font_descriptor(wf, &wf.variants[0]),
                                    950,
                                ),
                            );
                        }
                    },
                }
            }
            let fc = string_chars(&request.family);
            let search = lower_vec(&fc);
            let families = db.get_fonts();
            let mut similar: Vec<FontDescriptor> = Vec::new();
            let mut i: usize = 0;
            while i < families.len()
                decreases families@.len() - i,
            {
                if similar.len() < 5 {
                    let key = string_chars(&families[i].0);
                    if contains_vec(&key, &search) || contains_vec(&search, &key) {
                        let wf = &families[i].1;
                        if wf.variants.len() > 0 {
                            similar.push(db.to_font_descriptor(wf, &wf.variants[0]));
                        }
                    }
                }
                i += 1;
            }
            if similar.len() > 0 {
                return Ok(TieredResolutionResult::Similar(similar, 850));
            }
        }
        Ok(TieredResolutionResult::SuggestInternet)
    }

    // ----- cache and database delegates -------------------------------------

    pub fn pin_font(&mut self, font_name: &str) -> (r: FontResult<()>)
        requires
            old(self).cache_healthy(),
        ensures
            final(self).cache_healthy(),
            old(self).cache_view() is Some <==> r is Ok,
            r is Ok ==> final(self).cache_view() == Some(
                crate::cache::pin_spec(old(self).cache_view()->Some_0, font_name@),
            ),
    {
        match &mut self.cache {
            Some(c) => {
                c.pin_font(font_name);
                Ok(())
            },
            None => Err(FontError::CacheError("Cache is disabled".to_owned())),
        }
    }

    pub fn unpin_font(&mut self, font_name: &str) -> (r: FontResult<()>)
        requires
            old(self).cache_healthy(),
        ensures
            final(self).cache_healthy(),
            old(self).cache_view() is Some <==> r is Ok,
            r is Ok ==> final(self).cache_view() == Some(
                crate::cache::unpin_spec(old(self).cache_view()->Some_0, font_name@),
            ),
    {
        match &mut self.cache {
            Some(c) => {
                c.unpin_font(font_name);
                Ok(())
            },
            None => Err(FontError::CacheError("Cache is disabled".to_owned())),
        }
    }

    pub fn list_pinned_fonts(&self) -> (r: Option<Vec<String>>)
        ensures
            match r {
                Some(v) => self.cache_view() is Some && crate::cache::names_view(v@)
                    == self.cache_view()->Some_0.pinned,
                None => self.cache_view() is None,
            },
    {
        match &self.cache {
            Some(c) => Some(c.list_pinned()),
            None => None,
        }
    }

    pub fn cleanup_cache(&mut self, aggressive: bool) -> (r: FontResult<usize>)
        requires
            old(self).cache_healthy(),
        ensures
            final(self).cache_healthy(),
            r is Ok,
            old(self).cache_view() is None ==> (r matches Ok(n) && n == 0),
            old(self).cache_view() is Some ==> ({
                &&& final(self).cache_view() is Some
                &&& final(self).cache_view()->Some_0.pinned == old(self).cache_view()->Some_0.pinned
                &&& final(self).cache_view()->Some_0.access_counts == old(
                    self,
                ).cache_view()->Some_0.access_counts
            }),
    {
        match &mut self.cache {
            Some(c) => c.cleanup(aggressive),
            None => Ok(0),
        }
    }

    pub fn remove_from_cache(&mut self, font_names: &Vec<String>) -> (r: FontResult<usize>)
        requires
            old(self).cache_healthy(),
        ensures
            final(self).cache_healthy(),
            r is Ok,
            old(self).cache_view() is None ==> (r matches Ok(n) && n == 0),
    {
        match &mut self.cache {
            Some(c) => c.remove_entries(font_names),
            None => Ok(0),
        }
    }

    pub fn get_cache_stats(&self) -> (r: Option<FontResult<crate::types::CacheStats>>)
        requires
            self.cache_healthy(),
        ensures
            r is Some <==> self.cache_view() is Some,
    {
        match &self.cache {
            Some(c) => Some(c.stats()),
            None => None,
        }
    }

    pub fn suggest_cleanup(&self) -> (r: Option<FontResult<Vec<String>>>)
        ensures
            r is Some <==> self.cache_view() is Some,
    {
        match &self.cache {
            Some(c) => Some(c.suggest_cleanup()),
            None => None,
        }
    }

    pub fn get_config(&self) -> (r: &EnhancedResolverConfig)
        ensures
            r@ == self.config_view(),
    {
        &self.config
    }

    pub fn resolve_font(&mut self, font_name: &str) -> (r: FontResult<ResolutionResult>)
        requires
            old(self).cache_healthy(),
            checker_ok(*old(self)),
        ensures
            final(self).cache_healthy(),
            r matches Ok(res) ==> res@.original_name == font_name@,
    {
        self.resolve_with_sources(font_name)
    }

    pub fn add_custom_source(&mut self, source: SourceType) -> (r: FontResult<()>)
        requires
            old(self).cache_healthy(),
        ensures
            final(self).cache_healthy(),
    {
        self.source_manager.add_custom_source(source)
    }

    pub fn list_sources(&self) -> (r: Vec<SourceInfo>)
    {
        self.source_manager.list_sources()
    }

    /// Grades the license of the face the sources hold for the name;
    /// not-found exactly when no source holds it.
    pub fn check_license(&mut self, font_name: &str) -> (r: FontResult<LicenseWarning>)
        requires
            old(self).cache_healthy(),
            checker_ok(*old(self)),
        ensures
            final(self).cache_healthy(),
            r is Ok <==> source_lookup(old(self).sources_view(), font_name@) is Some,
            r matches Ok(w) ==> ({
                let f = source_lookup(old(self).sources_view(), font_name@)->Some_0;
                &&& w.license_type == crate::license::license_type_spec(f)
                &&& w.warning_level == crate::license::warning_level_spec(w.license_type, f.family)
                &&& w.font_name@ == f.family
                &&& w@.message == crate::license::warning_message_spec(w.license_type, f.family)
            }),
            r matches Err(e) ==> e is NotFound,
    {
        match self.source_manager.find_font(font_name) {
            Ok(Some(f)) => {
                let w = self.license_checker.check_font(&f);
                proof {
                    assert(f@ == source_lookup(old(self).sources_view(), font_name@)->Some_0);
                }
                Ok(w)
            },
            _ => Err(FontError::NotFound(font_name.to_owned())),
        }
    }

    pub fn get_web_font_count(&self) -> (r: Option<usize>)
        ensures
            match r {
                Some(n) => (match self.source_view_web() {
                    Some(db) => n == db.fonts.len(),
                    None => false,
                }),
                None => self.source_view_web() is None,
            },
    {
        match self.source_manager.get_web_db() {
            Some(db) => Some(db.count()),
            None => None,
        }
    }

    pub closed spec fn source_view_web(&self) -> Option<crate::webdb::WebFontDatabaseV> {
        self.source_manager@.web_db
    }

    /// The loaded database's figures; the saving is reported in permille.
    pub fn get_database_stats(&self) -> (r: Option<DatabaseStats>)
        ensures
            match r {
                Some(s) => (match self.db_view() {
                    Some(d) => {
                        &&& s.font_count == d.metadata.font_count
                        &&& s.compressed_size_bytes == d.metadata.compressed_size_bytes
                        &&& s.original_size_bytes == d.metadata.original_size_bytes
                        &&& s.categories@ == d.metadata.categories
                    },
                    None => false,
                }),
                None => self.db_view() is None,
            },
    {
        match &self.compressed_database {
            Some(db) => {
                let compressor = FontCompressor::new(11, true);
                let saving = compressor.calculate_compression_ratio(
                    db.metadata.original_size_bytes,
                    db.metadata.compressed_size_bytes,
                );
                let mut cats: Vec<(crate::compressor::FontCategory, usize)> = Vec::new();
                let mut i: usize = 0;
                #[verifier::loop_isolation(false)]
                while i < db.metadata.categories.len()
                    invariant
                        i <= db.metadata.categories@.len(),
                        cats@ == db.metadata.categories@.subrange(0, i as int),
                    decreases db.metadata.categories@.len() - i,
                {
                    let p = &db.metadata.categories[i];
                    cats.push((p.0, p.1));
                    proof {
                        assert(cats@ =~= db.metadata.categories@.subrange(0, i + 1));
                    }
                    i += 1;
                }
                proof {
                    assert(db.metadata.categories@.subrange(
                        0,
                        db.metadata.categories@.len() as int,
                    ) =~= db.metadata.categories@);
                }
                Some(
                    DatabaseStats {
                        font_count: db.metadata.font_count,
                        compressed_size_bytes: db.metadata.compressed_size_bytes,
                        original_size_bytes: db.metadata.original_size_bytes,
                        compression_saving_permille: saving,
                        categories: cats,
                    },
                )
            },
            None => None,
        }
    }

    /// Replaces the in-memory database with a downloaded blob the
    /// embedding program fetched and checksummed.  Any payload the
    /// encoder produced is accepted and read back equal, with the size
    /// field set to the blob's length; a failure leaves the database
    /// untouched.
    pub fn apply_database_update(&mut self, data: &Vec<u8>) -> (r: FontResult<()>)
        requires
            old(self).cache_healthy(),
        ensures
            final(self).cache_healthy(),
            r is Ok ==> final(self).db_view() is Some,
            r is Err ==> final(self).db_view() == old(self).db_view(),
            forall|dbv: crate::compressor::CompressedFontDatabaseV, q: u32|
                q <= 11 && crate::compressor::db_bounded(dbv) && data@
                    == #[trigger] crate::outside::brotli_of(crate::compressor::enc_db(dbv), q)
                    ==> (r is Ok && final(self).db_view() == Some(
                    (crate::compressor::CompressedFontDatabaseV {
                        metadata: crate::compressor::FontDatabaseMetadataV {
                            compressed_size_bytes: data@.len() as usize,
                            ..dbv.metadata
                        },
                        ..dbv
                    }),
                )),
    {
        let compressor = FontCompressor::new(11, true);
        match compressor.decompress_font_database(data) {
            Ok(db) => {
                self.compressed_database = Some(db);
                Ok(())
            },
            Err(e) => Err(FontError::Parse(e)),
        }
    }

    /// The metrics of a face as a small JSON document, or not-found:
    /// the sources first, the database records second.
    #[verifier::loop_isolation(false)]
    pub fn export_metrics(&mut self, font_name: &str) -> (r: FontResult<String>)
        requires
            old(self).cache_healthy(),
        ensures
            final(self).cache_healthy(),
            ({
                let expected = export_metrics_spec(
                    old(self).sources_view(),
                    old(self).db_view(),
                    font_name@,
                );
                &&& (r is Ok <==> expected is Some)
                &&& (r matches Ok(json) ==> json@ == expected->Some_0)
                &&& (r matches Err(e) ==> e is NotFound)
            }),
    {
        let ghost mv = self.sources_view();
        let found = match self.source_manager.find_font(font_name) {
            Ok(o) => o,
            Err(_) => None,
        };
        if let Some(f) = found {
            proof {
                assert(f@ == source_lookup(mv, font_name@)->Some_0);
            }
            if let Some(m) = &f.metrics {
                return Ok(metrics_json(m));
            }
            return Err(FontError::NotFound(font_name.to_owned()));
        }
        if let Some(db) = &self.compressed_database {
            let ghost dfs = db@.fonts;
            let qc = str_chars(font_name);
            let ql = lower_vec(&qc);
            let mut i: usize = 0;
            while i < db.fonts.len()
                invariant
                    dfs == db@.fonts,
                    i <= dfs.len(),
                    source_lookup(mv, font_name@) is None,
                    forall|k: int|
                        0 <= k < i ==> lower_seq((#[trigger] dfs[k]).family) != lower_seq(
                            font_name@,
                        ),
                decreases db.fonts@.len() - i,
            {
                let fc = string_chars(&db.fonts[i].family);
                let fl = lower_vec(&fc);
                if eq_vec(&fl, &ql) {
                    proof {
                        lemma_db_fam_chain(dfs, lower_seq(font_name@), 0, i as int);
                    }
                    if let Some(m) = &db.fonts[i].metrics {
                        return Ok(
                            metrics_json(
                                &FontMetrics {
                                    units_per_em: m.units_per_em,
                                    ascender: m.ascender,
                                    descender: m.descender,
                                    x_height: m.x_height,
                                    cap_height: m.cap_height,
                                    average_width: m.average_width,
                                    max_advance_width: 1000,
                                },
                            ),
                        );
                    }
                    return Err(FontError::NotFound(font_name.to_owned()));
                }
                i += 1;
            }
            proof {
                lemma_db_fam_chain(dfs, lower_seq(font_name@), 0, dfs.len() as int);
            }
        }
        Err(FontError::NotFound(font_name.to_owned()))
    }
}

/// The JSON rendering of a face's metrics.
pub open spec fn metrics_json_spec(m: FontMetrics) -> Seq<char> {
    "{\n  \"units_per_em\": "@ + crate::text::dec_seq(m.units_per_em as nat)
        + ",\n  \"ascender\": "@ + int_seq(m.ascender as int) + ",\n  \"descender\": "@ + int_seq(
        m.descender as int,
    ) + ",\n  \"x_height\": "@ + int_seq(m.x_height as int) + ",\n  \"cap_height\": "@ + int_seq(
        m.cap_height as int,
    ) + ",\n  \"average_width\": "@ + int_seq(m.average_width as int)
        + ",\n  \"max_advance_width\": "@ + crate::text::dec_seq(m.max_advance_width as nat)
        + "\n}"@
}

pub open spec fn int_seq(n: int) -> Seq<char> {
    if n < 0 {
        seq!['-'] + crate::text::dec_seq((-n) as nat)
    } else {
        crate::text::dec_seq(n as nat)
    }
}

fn push_int(out: &mut Vec<char>, n: i16)
    ensures
        final(out)@ == old(out)@ + int_seq(n as int),
{
    if n < 0 {
        out.push('-');
        let mag: u64 = if n == i16::MIN {
            32768
        } else {
            (-n) as u64
        };
        let d = u64_dec(mag);
        append_chars(out, &d);
        proof {
            assert(final(out)@ =~= old(out)@ + int_seq(n as int));
        }
    } else {
        let d = u64_dec(n as u64);
        append_chars(out, &d);
    }
}

/// Renders metrics as pretty-printed JSON.
fn metrics_json(m: &FontMetrics) -> (r: String)
    ensures
        r@ == metrics_json_spec(*m),
{
    let mut out: Vec<char> = Vec::new();
    append_lit(&mut out, "{\n  \"units_per_em\": ");
    let d = u64_dec(m.units_per_em as u64);
    append_chars(&mut out, &d);
    append_lit(&mut out, ",\n  \"ascender\": ");
    push_int(&mut out, m.ascender);
    append_lit(&mut out, ",\n  \"descender\": ");
    push_int(&mut out, m.descender);
    append_lit(&mut out, ",\n  \"x_height\": ");
    push_int(&mut out, m.x_height);
    append_lit(&mut out, ",\n  \"cap_height\": ");
    push_int(&mut out, m.cap_height);
    append_lit(&mut out, ",\n  \"average_width\": ");
    push_int(&mut out, m.average_width);
    append_lit(&mut out, ",\n  \"max_advance_width\": ");
    let d2 = u64_dec(m.max_advance_width as u64);
    append_chars(&mut out, &d2);
    append_lit(&mut out, "\n}");
    proof {
        assert(out@ =~= metrics_json_spec(*m));
    }
    chars_string(&out)
}

/// Sorts suggestions by score, highest first; a permutation of the input.
#[verifier::loop_isolation(false)]
fn sort_suggestions_desc(v: Vec<SuggestionResult>) -> (r: Vec<SuggestionResult>)
    ensures
        r@.len() == v@.len(),
        r@.to_multiset() == v@.to_multiset(),
        forall|x: int, y: int|
            0 <= x <= y < r@.len() ==> (#[trigger] r@[x]).score >= (#[trigger] r@[y]).score,
{
    broadcast use vstd::seq_lib::group_to_multiset_ensures;

    let ghost orig = v@;
    let mut src = v;
    let mut out: Vec<SuggestionResult> = Vec::new();
    while src.len() > 0
        invariant
            out@.len() + src@.len() == orig.len(),
            out@.to_multiset().add(src@.to_multiset()) == orig.to_multiset(),
            forall|x: int, y: int|
                0 <= x <= y < out@.len() ==> (#[trigger] out@[x]).score >= (#[trigger] out@[y]).score,
            forall|x: int, y: int|
                0 <= x < out@.len() && 0 <= y < src@.len() ==> (#[trigger] out@[x]).score
                    >= (#[trigger] src@[y]).score,
        decreases src@.len(),
    {
        let mut mi: usize = 0;
        let mut k: usize = 1;
        while k < src.len()
            invariant
                mi < k <= src@.len(),
                forall|j: int| 0 <= j < k ==> (#[trigger] src@[j]).score <= src@[mi as int].score,
            decreases src@.len() - k,
        {
            if src[k].score > src[mi].score {
                mi = k;
            }
            k += 1;
        }
        let ghost src_before = src@;
        let m = src.remove(mi);
        let ghost out_before = out@;
        let ghost mval = m;
        out.push(m);
        proof {
            assert(out@.to_multiset() =~= out_before.to_multiset().insert(mval));
            assert(src@.to_multiset() =~= src_before.to_multiset().remove(mval));
            assert(src_before.to_multiset().count(mval) > 0) by {
                assert(src_before[mi as int] == mval);
                assert(src_before.contains(mval));
            }
            assert(out@.to_multiset().add(src@.to_multiset()) =~= out_before.to_multiset().add(
                src_before.to_multiset(),
            ));
            assert forall|y: int| 0 <= y < src@.len() implies out@.last().score
                >= (#[trigger] src@[y]).score by {
                assert(src@[y] == if y < mi {
                    src_before[y]
                } else {
                    src_before[y + 1]
                });
            }
        }
    }
    proof {
        assert(src@.to_multiset() =~= Seq::<SuggestionResult>::empty().to_multiset());
        assert(out@.to_multiset().add(src@.to_multiset()) =~= out@.to_multiset());
        assert(orig.to_multiset().len() == orig.len());
        assert(out@.to_multiset().len() == out@.len());
    }
    out
}

fn fallback_score_x(request: &FontRequest, f: &FontDescriptor) -> (r: u32)
    ensures
        r as int == fallback_score(request@, f@),
{
    let diff: u16 = if f.weight >= request.weight {
        f.weight - request.weight
    } else {
        request.weight - f.weight
    };
    let base: u32 = 1000 / ((diff as u32) + 1);
    let ital: u32 = if f.italic == request.italic {
        1000
    } else {
        0
    };
    let mono: u32 = if f.monospaced == request.monospaced {
        500
    } else {
        0
    };
    base + ital + mono
}

} // verus!
