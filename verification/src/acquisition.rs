//! Acquisition support: provider records, the distribution-safety rule,
//! and the merge of parallel provider results.  The network calls and the
//! per-provider timeout run in the embedding program; the results of all
//! providers are merged and ranked here.

use vstd::prelude::*;

use crate::compressor::{CompressedFontData, CompressedFontDataV};
use crate::text::{contains_sub, contains_vec, eq_vec, lower_seq, lower_vec, string_chars,
    str_chars};

verus! {

pub struct FontSourceV {
    pub name: Seq<char>,
    pub api_url: Seq<char>,
    pub api_key: Option<Seq<char>>,
    pub license_filter: LicenseFilterV,
    pub rate_limit: RateLimit,
}

#[derive(Debug, Clone)]
pub struct FontSource {
    pub name: String,
    pub api_url: String,
    pub api_key: Option<String>,
    pub license_filter: LicenseFilter,
    pub rate_limit: RateLimit,
}

impl View for FontSource {
    type V = FontSourceV;

    open spec fn view(&self) -> FontSourceV {
        FontSourceV {
            name: self.name@,
            api_url: self.api_url@,
            api_key: match self.api_key {
                Some(k) => Some(k@),
                None => None,
            },
            license_filter: self.license_filter@,
            rate_limit: self.rate_limit,
        }
    }
}

pub struct LicenseFilterV {
    pub allowed_licenses: Seq<Seq<char>>,
    pub require_open_source: bool,
    pub allow_commercial_use: bool,
    pub allow_modification: bool,
}

#[derive(Debug, Clone)]
pub struct LicenseFilter {
    pub allowed_licenses: Vec<String>,
    pub require_open_source: bool,
    pub allow_commercial_use: bool,
    pub allow_modification: bool,
}

impl View for LicenseFilter {
    type V = LicenseFilterV;

    open spec fn view(&self) -> LicenseFilterV {
        LicenseFilterV {
            allowed_licenses: self.allowed_licenses@.map_values(|s: String| s@),
            require_open_source: self.require_open_source,
            allow_commercial_use: self.allow_commercial_use,
            allow_modification: self.allow_modification,
        }
    }
}

#[derive(Debug, Clone, Copy, PartialEq, Eq, Structural)]
pub struct RateLimit {
    pub requests_per_minute: u32,
    pub requests_per_day: u32,
}

pub struct FontDownloadV {
    pub font_data: CompressedFontDataV,
    pub download_url: Seq<char>,
    pub format: crate::types::FontFormat,
    pub estimated_size_kb: u32,
}

#[derive(Debug, Clone)]
pub struct FontDownload {
    pub font_data: CompressedFontData,
    pub download_url: String,
    pub format: crate::types::FontFormat,
    pub estimated_size_kb: u32,
}

impl View for FontDownload {
    type V = FontDownloadV;

    open spec fn view(&self) -> FontDownloadV {
        FontDownloadV {
            font_data: self.font_data@,
            download_url: self.download_url@,
            format: self.format,
            estimated_size_kb: self.estimated_size_kb,
        }
    }
}

pub struct LicenseInfoV {
    pub name: Seq<char>,
    pub url: Seq<char>,
    pub allows_embedding: bool,
    pub allows_modification: bool,
    pub requires_attribution: bool,
    pub allows_commercial_use: bool,
}

/// A provider's statement of a face's license.
#[derive(Debug, Clone)]
pub struct LicenseInfo {
    pub name: String,
    pub url: String,
    pub allows_embedding: bool,
    pub allows_modification: bool,
    pub requires_attribution: bool,
    pub allows_commercial_use: bool,
}

impl View for LicenseInfo {
    type V = LicenseInfoV;

    open spec fn view(&self) -> LicenseInfoV {
        LicenseInfoV {
            name: self.name@,
            url: self.url@,
            allows_embedding: self.allows_embedding,
            allows_modification: self.allows_modification,
            requires_attribution: self.requires_attribution,
            allows_commercial_use: self.allows_commercial_use,
        }
    }
}

impl LicenseInfo {
    /// Safe for distribution: embedding allowed and no attribution owed.
    pub fn is_safe_for_distribution(&self) -> (r: bool)
        ensures
            r == (self.allows_embedding && !self.requires_attribution),
    {
        self.allows_embedding && !self.requires_attribution
    }
}

// ----- merging parallel provider results ------------------------------------

pub open spec fn fam_seen(fs: Seq<CompressedFontDataV>, fam: Seq<char>) -> bool {
    exists|k: int| 0 <= k < fs.len() && (#[trigger] fs[k]).family == fam
}

/// All provider results in provider order, first family occurrence kept.
pub open spec fn merged_unique(lists: Seq<Seq<CompressedFontDataV>>) -> Seq<CompressedFontDataV> {
    dedup_by_family(flatten_lists(lists, 0), 0)
}

pub open spec fn flatten_lists(lists: Seq<Seq<CompressedFontDataV>>, i: int) -> Seq<
    CompressedFontDataV,
>
    decreases lists.len() - i,
{
    if i < 0 || i >= lists.len() {
        Seq::empty()
    } else {
        lists[i] + flatten_lists(lists, i + 1)
    }
}

pub open spec fn dedup_by_family(fs: Seq<CompressedFontDataV>, i: int) -> Seq<CompressedFontDataV>
    decreases fs.len() - i,
{
    if i < 0 || i >= fs.len() {
        Seq::empty()
    } else if exists|j: int| 0 <= j < i && (#[trigger] fs[j]).family == fs[i].family {
        dedup_by_family(fs, i + 1)
    } else {
        seq![fs[i]] + dedup_by_family(fs, i + 1)
    }
}

/// Character-by-character lexicographic order on names.
pub open spec fn lex_leq(a: Seq<char>, b: Seq<char>) -> bool
    decreases a.len(),
{
    if a.len() == 0 {
        true
    } else if b.len() == 0 {
        false
    } else if a[0] != b[0] {
        a[0] < b[0]
    } else {
        lex_leq(a.drop_first(), b.drop_first())
    }
}

proof fn lemma_lex_refl(a: Seq<char>)
    ensures
        lex_leq(a, a),
    decreases a.len(),
{
    if a.len() > 0 {
        lemma_lex_refl(a.drop_first());
    }
}

proof fn lemma_lex_total(a: Seq<char>, b: Seq<char>)
    ensures
        lex_leq(a, b) || lex_leq(b, a),
    decreases a.len(),
{
    if a.len() > 0 && b.len() > 0 && a[0] == b[0] {
        lemma_lex_total(a.drop_first(), b.drop_first());
    }
}

proof fn lemma_lex_trans(a: Seq<char>, b: Seq<char>, c: Seq<char>)
    requires
        lex_leq(a, b),
        lex_leq(b, c),
    ensures
        lex_leq(a, c),
    decreases a.len(),
{
    if a.len() > 0 && b.len() > 0 && c.len() > 0 {
        if a[0] == b[0] && b[0] == c[0] {
            lemma_lex_trans(a.drop_first(), b.drop_first(), c.drop_first());
        }
    }
}

proof fn lemma_lex_skip(a: Seq<char>, b: Seq<char>, i: int)
    requires
        0 <= i <= a.len(),
        i <= b.len(),
        forall|k: int| 0 <= k < i ==> a[k] == b[k],
    ensures
        lex_leq(a, b) == lex_leq(a.skip(i), b.skip(i)),
    decreases i,
{
    if i > 0 && a.len() > 0 {
        assert(a.drop_first() =~= a.skip(1));
        assert(b.drop_first() =~= b.skip(1));
        assert(forall|k: int| 0 <= k < i - 1 ==> a.skip(1)[k] == b.skip(1)[k]);
        lemma_lex_skip(a.skip(1), b.skip(1), i - 1);
        assert(a.skip(1).skip(i - 1) =~= a.skip(i));
        assert(b.skip(1).skip(i - 1) =~= b.skip(i));
    } else {
        assert(a.skip(0) =~= a);
        assert(b.skip(0) =~= b);
    }
}

/// Lexicographic comparison of two character buffers.
#[verifier::loop_isolation(false)]
fn lex_leq_x(a: &Vec<char>, b: &Vec<char>) -> (r: bool)
    ensures
        r == lex_leq(a@, b@),
{
    let n = if a.len() <= b.len() {
        a.len()
    } else {
        b.len()
    };
    let mut i: usize = 0;
    while i < n
        invariant
            i <= n,
            n == if a@.len() <= b@.len() {
                a@.len() as int
            } else {
                b@.len() as int
            },
            forall|k: int| 0 <= k < i ==> a@[k] == b@[k],
        decreases n - i,
    {
        if a[i] != b[i] {
            proof {
                lemma_lex_skip(a@, b@, i as int);
                assert(a@.skip(i as int)[0] == a@[i as int]);
                assert(b@.skip(i as int)[0] == b@[i as int]);
            }
            return a[i] < b[i];
        }
        i += 1;
    }
    proof {
        lemma_lex_skip(a@, b@, n as int);
        if a@.len() <= b@.len() {
            assert(a@.skip(n as int) =~= Seq::<char>::empty());
        } else {
            assert(b@.skip(n as int) =~= Seq::<char>::empty());
            assert(a@.skip(n as int).len() > 0);
        }
    }
    a.len() <= b.len()
}

/// A permutation keeps every face's query-hit flag.
proof fn lemma_flag_transfer(a: Seq<CompressedFontData>, b: Seq<CompressedFontData>, q: Seq<char>,
    flag: bool)
    requires
        a.to_multiset() == b.to_multiset(),
        forall|i: int|
            0 <= i < a.len() ==> contains_sub(lower_seq((#[trigger] a[i])@.family), q) == flag,
    ensures
        forall|i: int|
            0 <= i < b.len() ==> contains_sub(lower_seq((#[trigger] b[i])@.family), q) == flag,
{
    broadcast use vstd::seq_lib::group_to_multiset_ensures;

    assert forall|i: int| 0 <= i < b.len() implies contains_sub(
        lower_seq((#[trigger] b[i])@.family),
        q,
    ) == flag by {
        assert(b.contains(b[i]));
        assert(a.to_multiset().count(b[i]) > 0);
        assert(a.contains(b[i]));
        let k = choose|k: int| 0 <= k < a.len() && a[k] == b[i];
    }
}

/// Sorts faces by family name, lexicographically ascending.
#[verifier::loop_isolation(false)]
fn sort_by_family_asc(v: Vec<CompressedFontData>) -> (r: Vec<CompressedFontData>)
    ensures
        r@.len() == v@.len(),
        r@.to_multiset() == v@.to_multiset(),
        forall|x: int, y: int|
            0 <= x <= y < r@.len() ==> lex_leq(
                (#[trigger] r@[x])@.family,
                (#[trigger] r@[y])@.family,
            ),
{
    broadcast use vstd::seq_lib::group_to_multiset_ensures;

    let ghost orig = v@;
    let mut src = v;
    let mut out: Vec<CompressedFontData> = Vec::new();
    while src.len() > 0
        invariant
            out@.len() + src@.len() == orig.len(),
            out@.to_multiset().add(src@.to_multiset()) == orig.to_multiset(),
            forall|x: int, y: int|
                0 <= x <= y < out@.len() ==> lex_leq(
                    (#[trigger] out@[x])@.family,
                    (#[trigger] out@[y])@.family,
                ),
            forall|x: int, y: int|
                0 <= x < out@.len() && 0 <= y < src@.len() ==> lex_leq(
                    (#[trigger] out@[x])@.family,
                    (#[trigger] src@[y])@.family,
                ),
        decreases src@.len(),
    {
        let mut mi: usize = 0;
        proof {
            lemma_lex_refl(src@[0]@.family);
        }
        let mut k: usize = 1;
        while k < src.len()
            invariant
                mi < k <= src@.len(),
                forall|j: int|
                    0 <= j < k ==> lex_leq(
                        src@[mi as int]@.family,
                        (#[trigger] src@[j])@.family,
                    ),
            decreases src@.len() - k,
        {
            let a = string_chars(&src[k].family);
            let b = string_chars(&src[mi].family);
            let smaller = lex_leq_x(&a, &b);
            proof {
                lemma_lex_total(src@[k as int]@.family, src@[mi as int]@.family);
                lemma_lex_refl(src@[k as int]@.family);
            }
            if smaller && {
                let c = string_chars(&src[mi].family);
                let d = string_chars(&src[k].family);
                !lex_leq_x(&c, &d)
            } {
                proof {
                    assert forall|j: int| 0 <= j < k implies lex_leq(
                        src@[k as int]@.family,
                        (#[trigger] src@[j])@.family,
                    ) by {
                        lemma_lex_trans(
                            src@[k as int]@.family,
                            src@[mi as int]@.family,
                            src@[j]@.family,
                        );
                    }
                }
                mi = k;
            } else {
                proof {
                    assert(lex_leq(src@[mi as int]@.family, src@[k as int]@.family));
                }
            }
            k += 1;
        }
        let ghost src_before = src@;
        let m = src.remove(mi);
        let ghost out_before = out@;
        let ghost mval = m;
        out.push(m);
        proof {
            assert(out@.to_multiset() =~= out_before.to_multiset().insert(mval));
            assert(src@.to_multiset() =~= src_before.to_multiset().remove(mval));
            assert(src_before.to_multiset().count(mval) > 0) by {
                assert(src_before[mi as int] == mval);
                assert(src_before.contains(mval));
            }
            assert(out@.to_multiset().add(src@.to_multiset()) =~= out_before.to_multiset().add(
                src_before.to_multiset(),
            ));
            assert forall|y: int| 0 <= y < src@.len() implies lex_leq(
                mval@.family,
                (#[trigger] src@[y])@.family,
            ) by {
                assert(src@[y] == if y < mi {
                    src_before[y]
                } else {
                    src_before[y + 1]
                });
            }
        }
    }
    proof {
        assert(src@.to_multiset() =~= Seq::<CompressedFontData>::empty().to_multiset());
        assert(out@.to_multiset().add(src@.to_multiset()) =~= out@.to_multiset());
        assert(orig.to_multiset().len() == orig.len());
        assert(out@.to_multiset().len() == out@.len());
    }
    out
}

/// Merges per-provider result lists: families deduplicated on first
/// observation, faces whose family contains the query placed before the
/// rest, and each side ordered by family name ascending.
#[verifier::loop_isolation(false)]
pub fn merge_provider_results(lists: &Vec<Vec<CompressedFontData>>, query: &String) -> (r: Vec<
    CompressedFontData,
>)
    ensures
        ({
            let lv = lists@.map_values(
                |l: Vec<CompressedFontData>| l@.map_values(|f: CompressedFontData| f@),
            );
            let merged = merged_unique(lv);
            &&& r@.len() == merged.len()
            &&& r@.map_values(|f: CompressedFontData| f@).to_multiset() == merged.to_multiset()
            &&& (forall|x: int, y: int|
                0 <= x <= y < r@.len() ==> (contains_sub(
                    lower_seq((#[trigger] r@[y])@.family),
                    lower_seq(query@),
                ) ==> contains_sub(lower_seq((#[trigger] r@[x])@.family), lower_seq(query@))))
            &&& (forall|x: int, y: int|
                0 <= x <= y < r@.len() && (contains_sub(
                    lower_seq((#[trigger] r@[x])@.family),
                    lower_seq(query@),
                ) <==> contains_sub(lower_seq((#[trigger] r@[y])@.family), lower_seq(query@)))
                    ==> lex_leq(r@[x]@.family, r@[y]@.family))
        }),
{
    broadcast use vstd::seq_lib::group_to_multiset_ensures;

    let ghost lv = lists@.map_values(
        |l: Vec<CompressedFontData>| l@.map_values(|f: CompressedFontData| f@),
    );
    let mut flat: Vec<CompressedFontData> = Vec::new();
    let mut i: usize = 0;
    proof {
        assert(flat@.map_values(|f: CompressedFontData| f@) + flatten_lists(lv, 0)
            =~= flatten_lists(lv, 0));
    }
    while i < lists.len()
        invariant
            i <= lv.len(),
            flatten_lists(lv, 0) == flat@.map_values(|f: CompressedFontData| f@) + flatten_lists(
                lv,
                i as int,
            ),
        decreases lv.len() - i,
    {
        let inner = &lists[i];
        let ghost f0 = flat@.map_values(|f: CompressedFontData| f@);
        let mut j: usize = 0;
        while j < inner.len()
            invariant
                i < lv.len(),
                j <= inner@.len(),
                lv[i as int] == inner@.map_values(|f: CompressedFontData| f@),
                flat@.map_values(|f: CompressedFontData| f@) == f0 + lv[i as int].subrange(
                    0,
                    j as int,
                ),
            decreases inner@.len() - j,
        {
            let ghost fj = flat@.map_values(|f: CompressedFontData| f@);
            flat.push(inner[j].duplicate());
            proof {
                assert(flat@.map_values(|f: CompressedFontData| f@) =~= fj.push(
                    lv[i as int][j as int],
                ));
                assert(flat@.map_values(|f: CompressedFontData| f@) =~= f0 + lv[
                    i as int].subrange(0, j + 1));
            }
            j += 1;
        }
        proof {
            assert(lv[i as int].subrange(0, lv[i as int].len() as int) =~= lv[i as int]);
            assert(flatten_lists(lv, i as int) =~= lv[i as int] + flatten_lists(lv, i + 1));
            assert(f0 + lv[i as int] + flatten_lists(lv, i + 1) =~= f0 + flatten_lists(
                lv,
                i as int,
            ));
        }
        i += 1;
    }
    proof {
        assert(flatten_lists(lv, lv.len() as int) =~= Seq::<CompressedFontDataV>::empty());
        assert(flat@.map_values(|f: CompressedFontData| f@) =~= flatten_lists(lv, 0));
    }
    // deduplicate, first family occurrence wins
    let ghost fl = flat@.map_values(|f: CompressedFontData| f@);
    let mut unique: Vec<CompressedFontData> = Vec::new();
    proof {
        assert(unique@.map_values(|f: CompressedFontData| f@) + dedup_by_family(fl, 0)
            =~= dedup_by_family(fl, 0));
    }
    let mut i: usize = 0;
    while i < flat.len()
        invariant
            i <= fl.len(),
            fl == flat@.map_values(|f: CompressedFontData| f@),
            dedup_by_family(fl, 0) == unique@.map_values(|f: CompressedFontData| f@)
                + dedup_by_family(fl, i as int),
        decreases fl.len() - i,
    {
        let mut seen = false;
        let mut j: usize = 0;
        while j < i
            invariant
                j <= i <= fl.len(),
                seen == (exists|k: int| 0 <= k < j && (#[trigger] fl[k]).family == fl[
                    i as int].family),
            decreases i - j,
        {
            let a = string_chars(&flat[j].family);
            let b = string_chars(&flat[i].family);
            if eq_vec(&a, &b) {
                proof {
                    assert(fl[j as int].family == fl[i as int].family);
                }
                seen = true;
            }
            j += 1;
        }
        if !seen {
            let ghost u0 = unique@.map_values(|f: CompressedFontData| f@);
            unique.push(flat[i].duplicate());
            proof {
                assert(unique@.map_values(|f: CompressedFontData| f@) =~= u0.push(fl[i as int]));
                assert(dedup_by_family(fl, i as int) =~= seq![fl[i as int]] + dedup_by_family(
                    fl,
                    i + 1,
                ));
                assert(unique@.map_values(|f: CompressedFontData| f@) + dedup_by_family(fl, i + 1)
                    =~= u0 + dedup_by_family(fl, i as int));
            }
        }
        i += 1;
    }
    proof {
        assert(dedup_by_family(fl, fl.len() as int) =~= Seq::<CompressedFontDataV>::empty());
        assert(unique@.map_values(|f: CompressedFontData| f@) =~= dedup_by_family(fl, 0));
    }
    // query matches first
    let qc = string_chars(query);
    let qlow = lower_vec(&qc);
    let mut hits: Vec<CompressedFontData> = Vec::new();
    let mut rest: Vec<CompressedFontData> = Vec::new();
    let ghost uv = unique@.map_values(|f: CompressedFontData| f@);
    let mut i: usize = 0;
    while i < unique.len()
        invariant
            i <= uv.len(),
            uv == unique@.map_values(|f: CompressedFontData| f@),
            forall|x: int|
                0 <= x < hits@.len() ==> contains_sub(
                    lower_seq((#[trigger] hits@[x])@.family),
                    lower_seq(query@),
                ),
            forall|x: int|
                0 <= x < rest@.len() ==> !contains_sub(
                    lower_seq((#[trigger] rest@[x])@.family),
                    lower_seq(query@),
                ),
            hits@.map_values(|f: CompressedFontData| f@).to_multiset().add(
                rest@.map_values(|f: CompressedFontData| f@).to_multiset(),
            ) == uv.subrange(0, i as int).to_multiset(),
        decreases uv.len() - i,
    {
        let fc = string_chars(&unique[i].family);
        let flow = lower_vec(&fc);
        let ghost h0 = hits@.map_values(|f: CompressedFontData| f@);
        let ghost r0 = rest@.map_values(|f: CompressedFontData| f@);
        if contains_vec(&flow, &qlow) {
            hits.push(unique[i].duplicate());
            proof {
                assert(hits@.map_values(|f: CompressedFontData| f@) =~= h0.push(uv[i as int]));
                assert(uv.subrange(0, i + 1) =~= uv.subrange(0, i as int).push(uv[i as int]));
                assert(hits@.map_values(|f: CompressedFontData| f@).to_multiset().add(
                    r0.to_multiset(),
                ) =~= uv.subrange(0, i + 1).to_multiset());
            }
        } else {
            rest.push(unique[i].duplicate());
            proof {
                assert(rest@.map_values(|f: CompressedFontData| f@) =~= r0.push(uv[i as int]));
                assert(uv.subrange(0, i + 1) =~= uv.subrange(0, i as int).push(uv[i as int]));
                assert(h0.to_multiset().add(
                    rest@.map_values(|f: CompressedFontData| f@).to_multiset(),
                ) =~= uv.subrange(0, i + 1).to_multiset());
            }
        }
        i += 1;
    }
    proof {
        assert(uv.subrange(0, uv.len() as int) =~= uv);
    }
    let ghost hits_pre = hits@;
    let ghost rest_pre = rest@;
    let hits = sort_by_family_asc(hits);
    let rest = sort_by_family_asc(rest);
    proof {
        lemma_flag_transfer(hits_pre, hits@, lower_seq(query@), true);
        lemma_flag_transfer(rest_pre, rest@, lower_seq(query@), false);
        broadcast use vstd::seq_lib::group_to_multiset_ensures;

        assert(hits@.map_values(|f: CompressedFontData| f@).to_multiset()
            == hits_pre.map_values(|f: CompressedFontData| f@).to_multiset()) by {
            lemma_views_multiset(hits_pre, hits@);
        }
        assert(rest@.map_values(|f: CompressedFontData| f@).to_multiset()
            == rest_pre.map_values(|f: CompressedFontData| f@).to_multiset()) by {
            lemma_views_multiset(rest_pre, rest@);
        }
    }
    let ghost hv = hits@.map_values(|f: CompressedFontData| f@);
    let ghost rv = rest@.map_values(|f: CompressedFontData| f@);
    let ghost hits_sorted = hits@;
    let ghost rest_sorted = rest@;
    let mut out = hits;
    let mut rest = rest;
    out.append(&mut rest);
    proof {
        assert(out@.map_values(|f: CompressedFontData| f@) =~= hv + rv);
        vstd::seq_lib::lemma_multiset_commutative(hv, rv);
        assert((hv + rv).to_multiset() == hv.to_multiset().add(rv.to_multiset()));
        assert(out@.map_values(|f: CompressedFontData| f@).to_multiset().len() == out@.len());
        assert(merged_unique(lv).to_multiset().len() == merged_unique(lv).len());
        assert forall|x: int, y: int|
            0 <= x <= y < out@.len() implies (contains_sub(
            lower_seq((#[trigger] out@[y])@.family),
            lower_seq(query@),
        ) ==> contains_sub(lower_seq((#[trigger] out@[x])@.family), lower_seq(query@))) by {
            if y >= hv.len() {
                assert(out@[y]@ == rv[y - hv.len()]);
            }
            if x < hv.len() {
                assert(out@[x]@ == hv[x]);
            } else {
                assert(out@[x]@ == rv[x - hv.len()]);
            }
        }
        assert forall|x: int, y: int|
            0 <= x <= y < out@.len() && (contains_sub(
            lower_seq((#[trigger] out@[x])@.family),
            lower_seq(query@),
        ) <==> contains_sub(lower_seq((#[trigger] out@[y])@.family), lower_seq(query@)))
            implies lex_leq(out@[x]@.family, out@[y]@.family) by {
            if x < hv.len() {
                assert(out@[x]@ == hv[x]);
                assert(out@[x] == hits_sorted[x]);
            } else {
                assert(out@[x]@ == rv[x - hv.len()]);
                assert(out@[x] == rest_sorted[x - hv.len()]);
            }
            if y < hv.len() {
                assert(out@[y]@ == hv[y]);
                assert(out@[y] == hits_sorted[y]);
            } else {
                assert(out@[y]@ == rv[y - hv.len()]);
                assert(out@[y] == rest_sorted[y - hv.len()]);
            }
        }
    }
    out
}

/// A value-level permutation is a view-level permutation.
proof fn lemma_views_multiset(a: Seq<CompressedFontData>, b: Seq<CompressedFontData>)
    requires
        a.to_multiset() == b.to_multiset(),
        a.len() == b.len(),
    ensures
        a.map_values(|f: CompressedFontData| f@).to_multiset() == b.map_values(
            |f: CompressedFontData| f@,
        ).to_multiset(),
    decreases a.len(),
{
    broadcast use vstd::seq_lib::group_to_multiset_ensures;

    if a.len() > 0 {
        let x = a.last();
        assert(a.contains(x)) by {
            assert(a[a.len() - 1] == x);
        }
        assert(b.to_multiset().count(x) > 0);
        assert(b.contains(x));
        let j = choose|j: int| 0 <= j < b.len() && b[j] == x;
        let a2 = a.drop_last();
        let b2 = b.remove(j);
        assert(a =~= a2.push(x));
        assert(a.to_multiset() =~= a2.to_multiset().insert(x));
        assert(b2.to_multiset() =~= b.to_multiset().remove(x));
        assert(a2.to_multiset() =~= b2.to_multiset()) by {
            assert(a2.to_multiset() =~= a.to_multiset().remove(x));
        }
        lemma_views_multiset(a2, b2);
        assert(a.map_values(|f: CompressedFontData| f@) =~= a2.map_values(
            |f: CompressedFontData| f@,
        ).push(x@));
        assert(b.map_values(|f: CompressedFontData| f@).remove(j) =~= b2.map_values(
            |f: CompressedFontData| f@,
        ));
        assert(b.map_values(|f: CompressedFontData| f@)[j] == x@);
        assert(b.map_values(|f: CompressedFontData| f@).remove(j).to_multiset() =~= b.map_values(
            |f: CompressedFontData| f@,
        ).to_multiset().remove(x@));
        assert(a.map_values(|f: CompressedFontData| f@).to_multiset() =~= a2.map_values(
            |f: CompressedFontData| f@,
        ).to_multiset().insert(x@));
        assert(b.map_values(|f: CompressedFontData| f@).to_multiset().count(x@) > 0) by {
            assert(b.map_values(|f: CompressedFontData| f@).contains(x@)) by {
                assert(b.map_values(|f: CompressedFontData| f@)[j] == x@);
            }
        }
        assert(a.map_values(|f: CompressedFontData| f@).to_multiset() =~= b.map_values(
            |f: CompressedFontData| f@,
        ).to_multiset());
    } else {
        assert(a.map_values(|f: CompressedFontData| f@) =~= Seq::<CompressedFontDataV>::empty());
        assert(b.map_values(|f: CompressedFontData| f@) =~= Seq::<CompressedFontDataV>::empty());
    }
}

} // verus!
