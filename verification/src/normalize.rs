//! Name normalization: parses an arbitrary font string into a structured
//! `FontRequest` (family in lowercase kebab form, weight, style, monospace).
//!
//! The pipeline, in order: subset-prefix strip, encoding-suffix strip,
//! weight/style extraction, family isolation, canonicalization, and
//! monospace detection.

use vstd::prelude::*;

use crate::text::{
    chars_string, contains_sub, contains_vec, copy_range, ends_with_seq, ends_with_vec, eq_vec,
    is_alnum, is_digit_char, is_lower, is_sub_at, is_upper, is_word_char, lower_char, lower_seq,
    is_trim_char, lower_vec, spec_lower_char, str_chars, trim_back, trim_front, trim_seq, trim_vec,
};
use crate::types::{FontRequest, FontStyle};
use crate::FontError;

verus! {

// ----- stage 1: subset prefix ---------------------------------------------

/// A PDF subset marker: six uppercase letters and a `+`.
pub open spec fn has_subset_prefix(s: Seq<char>) -> bool {
    s.len() >= 7 && s[6] == '+' && (forall|i: int| 0 <= i < 6 ==> is_upper(s[i]))
}

pub open spec fn strip_subset_spec(s: Seq<char>) -> Seq<char> {
    if has_subset_prefix(s) {
        s.skip(7)
    } else {
        s
    }
}

pub fn strip_subset_prefix(v: &Vec<char>) -> (r: Vec<char>)
    ensures
        r@ == strip_subset_spec(v@),
{
    if v.len() >= 7 && v[6] == '+' {
        let mut i: usize = 0;
        let mut all_upper = true;
        while i < 6
            invariant
                i <= 6,
                v@.len() >= 7,
                all_upper == (forall|j: int| 0 <= j < i ==> is_upper(v@[j])),
            decreases 6 - i,
        {
            if !('A' <= v[i] && v[i] <= 'Z') {
                all_upper = false;
            }
            i += 1;
        }
        if all_upper {
            let r = copy_range(v, 7, v.len());
            proof {
                assert(v@.subrange(7, v@.len() as int) =~= v@.skip(7));
            }
            return r;
        }
    }
    let r = copy_range(v, 0, v.len());
    proof {
        assert(v@.subrange(0, v@.len() as int) =~= v@);
    }
    r
}

// ----- stage 2a: encoding suffix group ------------------------------------

/// The fixed encoding-suffix alternatives, in match order.
pub open spec fn enc_alts() -> Seq<Seq<char>> {
    seq![
        "Identity"@,
        "WinAnsi"@,
        "MacRoman"@,
        "W1"@,
        "W2"@,
        "W3"@,
        "W4"@,
        "W5"@,
        "W6"@,
        "Com"@,
        "Expert"@,
        "Subset"@,
        "It"@,
        "Oblique"@,
    ]
}

/// Body ends in `-` followed by the alternative.
pub open spec fn alt_matches(body: Seq<char>, alt: Seq<char>) -> bool {
    ends_with_seq(body, seq!['-'] + alt)
}

/// Index of the first matching alternative from position `i` on, or -1.
pub open spec fn first_alt_from(body: Seq<char>, i: int) -> int
    decreases enc_alts().len() - i,
{
    if i < 0 || i >= enc_alts().len() {
        -1
    } else if alt_matches(body, enc_alts()[i]) {
        i
    } else {
        first_alt_from(body, i + 1)
    }
}

/// Start of the trailing uppercase run (scanning back from `i`).
pub open spec fn upper_run_start(s: Seq<char>, i: int) -> int
    decreases i,
{
    if i > 0 && i <= s.len() && is_upper(s[i - 1]) {
        upper_run_start(s, i - 1)
    } else {
        i
    }
}

/// Body ends in `-Uni` followed by one or more uppercase letters.
pub open spec fn has_uni_suffix(body: Seq<char>) -> bool {
    let r = upper_run_start(body, body.len() as int);
    r < body.len() && r >= 4 && body.subrange(r - 4, r) == seq!['-'] + "Uni"@
}

pub open spec fn enc_strip_spec(s: Seq<char>) -> Seq<char> {
    let with_h = ends_with_seq(s, seq!['-', 'H']);
    let body = if with_h {
        s.take(s.len() - 2)
    } else {
        s
    };
    let k = first_alt_from(body, 0);
    if k >= 0 {
        body.take(body.len() - enc_alts()[k].len() - 1)
    } else if has_uni_suffix(body) {
        body.take(upper_run_start(body, body.len() as int) - 4)
    } else {
        s
    }
}

fn build_enc_alts() -> (r: Vec<Vec<char>>)
    ensures
        r@.len() == enc_alts().len(),
        forall|i: int| 0 <= i < r@.len() ==> r@[i]@ == enc_alts()[i],
{
    let mut r: Vec<Vec<char>> = Vec::new();
    r.push(str_chars("Identity"));
    r.push(str_chars("WinAnsi"));
    r.push(str_chars("MacRoman"));
    r.push(str_chars("W1"));
    r.push(str_chars("W2"));
    r.push(str_chars("W3"));
    r.push(str_chars("W4"));
    r.push(str_chars("W5"));
    r.push(str_chars("W6"));
    r.push(str_chars("Com"));
    r.push(str_chars("Expert"));
    r.push(str_chars("Subset"));
    r.push(str_chars("It"));
    r.push(str_chars("Oblique"));
    r
}

fn alt_matches_x(body: &Vec<char>, alt: &Vec<char>) -> (r: bool)
    ensures
        r == alt_matches(body@, alt@),
{
    let mut pattern: Vec<char> = Vec::new();
    pattern.push('-');
    let mut i: usize = 0;
    while i < alt.len()
        invariant
            i <= alt@.len(),
            pattern@ == seq!['-'] + alt@.subrange(0, i as int),
        decreases alt@.len() - i,
    {
        pattern.push(alt[i]);
        proof {
            assert((seq!['-'] + alt@.subrange(0, i as int)).push(alt@[i as int]) =~= seq!['-']
                + alt@.subrange(0, i + 1));
        }
        i += 1;
    }
    proof {
        assert(alt@.subrange(0, alt@.len() as int) =~= alt@);
    }
    ends_with_vec(body, &pattern)
}

pub fn strip_encoding_suffix(v: &Vec<char>) -> (r: Vec<char>)
    ensures
        r@ == enc_strip_spec(v@),
{
    let hpat = str_chars("-H");
    proof {
        reveal_strlit("-H");
        assert("-H"@ =~= seq!['-', 'H']);
    }
    let with_h = ends_with_vec(v, &hpat);
    let body = if with_h {
        copy_range(v, 0, v.len() - 2)
    } else {
        copy_range(v, 0, v.len())
    };
    proof {
        assert(v@.subrange(0, v@.len() as int) =~= v@);
        if with_h {
            assert(v@.subrange(0, v@.len() - 2) =~= v@.take(v@.len() - 2));
        }
    }
    let alts = build_enc_alts();
    let mut i: usize = 0;
    while i < alts.len()
        invariant
            alts@.len() == enc_alts().len(),
            forall|j: int| 0 <= j < alts@.len() ==> alts@[j]@ == enc_alts()[j],
            i <= alts@.len(),
            forall|j: int| 0 <= j < i ==> !alt_matches(body@, enc_alts()[j]),
            body@ == if ends_with_seq(v@, seq!['-', 'H']) {
                v@.take(v@.len() - 2)
            } else {
                v@
            },
        decreases alts@.len() - i,
    {
        if alt_matches_x(&body, &alts[i]) {
            proof {
                lemma_first_alt_chain(body@, 0, i as int);
            }
            let alt_len = alts[i].len();
            proof {
                assert(alt_matches(body@, enc_alts()[i as int]));
                assert(enc_alts()[i as int].len() + 1 <= body@.len());
            }
            let r = copy_range(&body, 0, body.len() - alt_len - 1);
            proof {
                assert(body@.subrange(0, body@.len() - alt_len - 1) =~= body@.take(
                    body@.len() - enc_alts()[first_alt_from(body@, 0)].len() - 1,
                ));
            }
            return r;
        }
        i += 1;
    }
    proof {
        lemma_first_alt_none(body@, 0);
    }
    // no fixed alternative matched; try -Uni[A-Z]+
    let mut rr: usize = body.len();
    while rr > 0 && 'A' <= body[rr - 1] && body[rr - 1] <= 'Z'
        invariant
            rr <= body@.len(),
            upper_run_start(body@, body@.len() as int) == upper_run_start(body@, rr as int),
        decreases rr,
    {
        rr -= 1;
    }
    proof {
        assert(upper_run_start(body@, rr as int) == rr);
    }
    if rr < body.len() && rr >= 4 {
        let unipat = str_chars("Uni");
        proof {
            reveal_strlit("Uni");
            assert("Uni"@.len() == 3);
        }
        let mut pat: Vec<char> = Vec::new();
        pat.push('-');
        pat.push(unipat[0]);
        pat.push(unipat[1]);
        pat.push(unipat[2]);
        proof {
            assert(pat@ =~= seq!['-'] + "Uni"@);
        }
        let window = copy_range(&body, rr - 4, rr);
        if eq_vec(&window, &pat) {
            proof {
                assert(has_uni_suffix(body@));
            }
            let r = copy_range(&body, 0, rr - 4);
            proof {
                assert(body@.subrange(0, rr - 4) =~= body@.take(
                    upper_run_start(body@, body@.len() as int) - 4,
                ));
            }
            return r;
        }
    }
    proof {
        assert(!has_uni_suffix(body@));
    }
    copy_range(v, 0, v.len())
}

proof fn lemma_first_alt_chain(body: Seq<char>, j: int, i: int)
    requires
        0 <= j <= i < enc_alts().len(),
        forall|k: int| j <= k < i ==> !alt_matches(body, enc_alts()[k]),
        alt_matches(body, enc_alts()[i]),
    ensures
        first_alt_from(body, j) == i,
    decreases i - j,
{
    if j < i {
        lemma_first_alt_chain(body, j + 1, i);
    }
}

proof fn lemma_first_alt_none(body: Seq<char>, j: int)
    requires
        0 <= j,
        forall|k: int| j <= k < enc_alts().len() ==> !alt_matches(body, enc_alts()[k]),
    ensures
        first_alt_from(body, j) == -1,
    decreases enc_alts().len() - j,
{
    if j < enc_alts().len() {
        lemma_first_alt_none(body, j + 1);
    }
}

// ----- stage 2b: trailing stand-alone words -------------------------------

/// Trailing words stripped when preceded by `-` or an uppercase letter.
pub open spec fn tail_words() -> Seq<Seq<char>> {
    seq!["MT"@, "PS"@, "PSMT"@, "Std"@, "Pro"@, "Regular"@, "Bold"@, "Italic"@]
}

pub open spec fn tail_word_hits(s: Seq<char>, w: Seq<char>) -> bool {
    ends_with_seq(s, w) && s.len() > w.len() && (s[s.len() - w.len() - 1] == '-' || is_upper(
        s[s.len() - w.len() - 1],
    ))
}

pub open spec fn first_tail_word_from(s: Seq<char>, i: int) -> int
    decreases tail_words().len() - i,
{
    if i < 0 || i >= tail_words().len() {
        -1
    } else if tail_word_hits(s, tail_words()[i]) {
        i
    } else {
        first_tail_word_from(s, i + 1)
    }
}

pub open spec fn strip_tail_word_spec(s: Seq<char>) -> Seq<char> {
    let k = first_tail_word_from(s, 0);
    if k >= 0 {
        s.take(s.len() - tail_words()[k].len())
    } else {
        s
    }
}

proof fn lemma_tail_word_chain(s: Seq<char>, j: int, i: int)
    requires
        0 <= j <= i < tail_words().len(),
        forall|k: int| j <= k < i ==> !tail_word_hits(s, tail_words()[k]),
        tail_word_hits(s, tail_words()[i]),
    ensures
        first_tail_word_from(s, j) == i,
    decreases i - j,
{
    if j < i {
        lemma_tail_word_chain(s, j + 1, i);
    }
}

proof fn lemma_tail_word_none(s: Seq<char>, j: int)
    requires
        0 <= j,
        forall|k: int| j <= k < tail_words().len() ==> !tail_word_hits(s, tail_words()[k]),
    ensures
        first_tail_word_from(s, j) == -1,
    decreases tail_words().len() - j,
{
    if j < tail_words().len() {
        lemma_tail_word_none(s, j + 1);
    }
}

pub fn strip_tail_word(v: &Vec<char>) -> (r: Vec<char>)
    ensures
        r@ == strip_tail_word_spec(v@),
{
    let mut words: Vec<Vec<char>> = Vec::new();
    words.push(str_chars("MT"));
    words.push(str_chars("PS"));
    words.push(str_chars("PSMT"));
    words.push(str_chars("Std"));
    words.push(str_chars("Pro"));
    words.push(str_chars("Regular"));
    words.push(str_chars("Bold"));
    words.push(str_chars("Italic"));
    let mut i: usize = 0;
    while i < words.len()
        invariant
            words@.len() == tail_words().len(),
            forall|j: int| 0 <= j < words@.len() ==> words@[j]@ == tail_words()[j],
            i <= words@.len(),
            forall|j: int| 0 <= j < i ==> !tail_word_hits(v@, tail_words()[j]),
        decreases words@.len() - i,
    {
        let w = &words[i];
        if ends_with_vec(v, w) && v.len() > w.len() {
            let p = v[v.len() - w.len() - 1];
            if p == '-' || ('A' <= p && p <= 'Z') {
                proof {
                    assert(tail_word_hits(v@, tail_words()[i as int]));
                    lemma_tail_word_chain(v@, 0, i as int);
                }
                let r = copy_range(v, 0, v.len() - w.len());
                proof {
                    assert(v@.subrange(0, v@.len() - tail_words()[i as int].len()) =~= v@.take(
                        v@.len() - tail_words()[first_tail_word_from(v@, 0)].len(),
                    ));
                }
                return r;
            }
        }
        proof {
            assert(!tail_word_hits(v@, tail_words()[i as int]));
        }
        i += 1;
    }
    proof {
        lemma_tail_word_none(v@, 0);
    }
    let r = copy_range(v, 0, v.len());
    proof {
        assert(v@.subrange(0, v@.len() as int) =~= v@);
    }
    r
}

// ----- stage 3: weight and style ------------------------------------------

/// Weight from the first keyword hit, in the fixed priority order.
/// `low` is the lowercased name after the encoding-suffix strip.
pub open spec fn weight_of(low: Seq<char>) -> u16 {
    if contains_sub(low, "thin"@) || contains_sub(low, "hairline"@) {
        100
    } else if contains_sub(low, "extralight"@) || contains_sub(low, "ultralight"@) {
        200
    } else if contains_sub(low, "light"@) {
        300
    } else if contains_sub(low, "normal"@) || contains_sub(low, "regular"@) || contains_sub(
        low,
        "book"@,
    ) {
        400
    } else if contains_sub(low, "medium"@) {
        500
    } else if contains_sub(low, "semibold"@) || contains_sub(low, "demibold"@) {
        600
    } else if contains_sub(low, "bold"@) {
        700
    } else if contains_sub(low, "extrabold"@) || contains_sub(low, "ultrabold"@) {
        800
    } else if contains_sub(low, "black"@) || contains_sub(low, "heavy"@) {
        900
    } else {
        400
    }
}

pub open spec fn style_of(low: Seq<char>) -> FontStyle {
    if contains_sub(low, "italic"@) {
        FontStyle::Italic
    } else if contains_sub(low, "oblique"@) {
        FontStyle::Oblique
    } else {
        FontStyle::Normal
    }
}

/// Does the lowercased haystack contain the literal keyword?
fn has_kw(low: &Vec<char>, kw: &str) -> (r: bool)
    ensures
        r == contains_sub(low@, kw@),
{
    let k = str_chars(kw);
    contains_vec(low, &k)
}

pub fn extract_weight(low: &Vec<char>) -> (r: u16)
    ensures
        r == weight_of(low@),
{
    if has_kw(low, "thin") || has_kw(low, "hairline") {
        100
    } else if has_kw(low, "extralight") || has_kw(low, "ultralight") {
        200
    } else if has_kw(low, "light") {
        300
    } else if has_kw(low, "normal") || has_kw(low, "regular") || has_kw(low, "book") {
        400
    } else if has_kw(low, "medium") {
        500
    } else if has_kw(low, "semibold") || has_kw(low, "demibold") {
        600
    } else if has_kw(low, "bold") {
        700
    } else if has_kw(low, "extrabold") || has_kw(low, "ultrabold") {
        800
    } else if has_kw(low, "black") || has_kw(low, "heavy") {
        900
    } else {
        400
    }
}

pub fn extract_style(low: &Vec<char>) -> (r: FontStyle)
    ensures
        r == style_of(low@),
{
    if has_kw(low, "italic") {
        FontStyle::Italic
    } else if has_kw(low, "oblique") {
        FontStyle::Oblique
    } else {
        FontStyle::Normal
    }
}

// ----- stage 4: family isolation ------------------------------------------

pub open spec fn is_alpha(c: char) -> bool {
    is_upper(c) || is_lower(c)
}

/// A camel-case or digit boundary between positions `i - 1` and `i`.
pub open spec fn split_point(s: Seq<char>, i: int) -> bool {
    1 <= i < s.len() && ((is_lower(s[i - 1]) && is_upper(s[i])) || (is_digit_char(s[i - 1])
        && is_alpha(s[i])) || (is_alpha(s[i - 1]) && is_digit_char(s[i])))
}

pub open spec fn count_splits(s: Seq<char>, i: int) -> int
    decreases s.len() - i,
{
    if i >= s.len() {
        0
    } else {
        (if split_point(s, i) {
            1int
        } else {
            0int
        }) + count_splits(s, i + 1)
    }
}

pub open spec fn cam_rest(s: Seq<char>, i: int) -> Seq<char>
    decreases s.len() - i,
{
    if i < 0 || i >= s.len() {
        Seq::empty()
    } else {
        (if split_point(s, i) {
            seq!['-']
        } else {
            Seq::empty()
        }) + seq![s[i]] + cam_rest(s, i + 1)
    }
}

/// Camel-case split: a hyphen at every boundary, applied only when the
/// name has at least two such boundaries.  A single boundary is kept as
/// a compound brand name.
pub open spec fn camel_spec(s: Seq<char>) -> Seq<char> {
    if count_splits(s, 0) >= 2 {
        cam_rest(s, 0)
    } else {
        s
    }
}

proof fn lemma_count_splits_bound(s: Seq<char>, i: int)
    requires
        0 <= i <= s.len(),
    ensures
        0 <= count_splits(s, i) <= s.len() - i,
    decreases s.len() - i,
{
    if i < s.len() {
        lemma_count_splits_bound(s, i + 1);
    }
}

pub fn camel_split(v: &Vec<char>) -> (r: Vec<char>)
    ensures
        r@ == camel_spec(v@),
{
    let n = v.len();
    let mut cnt: usize = 0;
    let mut i: usize = 0;
    proof {
        lemma_count_splits_bound(v@, 0);
    }
    while i < n
        invariant
            n == v@.len(),
            i <= n,
            cnt <= i,
            cnt + count_splits(v@, i as int) == count_splits(v@, 0),
        decreases n - i,
    {
        proof {
            lemma_count_splits_bound(v@, i + 1);
        }
        let sp = split_point_x(v, i);
        if sp {
            cnt += 1;
        }
        i += 1;
    }
    if cnt < 2 {
        let r = copy_range(v, 0, v.len());
        proof {
            assert(v@.subrange(0, v@.len() as int) =~= v@);
        }
        return r;
    }
    let mut out: Vec<char> = Vec::new();
    let mut i: usize = 0;
    while i < n
        invariant
            n == v@.len(),
            i <= n,
            cam_rest(v@, 0) == out@ + cam_rest(v@, i as int),
        decreases n - i,
    {
        let sp = split_point_x(v, i);
        if sp {
            out.push('-');
        }
        out.push(v[i]);
        proof {
            if split_point(v@, i as int) {
                assert(cam_rest(v@, i as int) =~= seq!['-'] + seq![v@[i as int]] + cam_rest(
                    v@,
                    i + 1,
                ));
            } else {
                assert(cam_rest(v@, i as int) =~= seq![v@[i as int]] + cam_rest(v@, i + 1));
            }
            assert(cam_rest(v@, 0) =~= out@ + cam_rest(v@, i + 1));
        }
        i += 1;
    }
    proof {
        assert(out@ =~= cam_rest(v@, 0));
    }
    out
}

fn split_point_x(v: &Vec<char>, i: usize) -> (r: bool)
    requires
        i < v@.len(),
    ensures
        r == split_point(v@, i as int),
{
    if i == 0 {
        return false;
    }
    let p = v[i - 1];
    let c = v[i];
    let p_lower = 'a' <= p && p <= 'z';
    let p_upper = 'A' <= p && p <= 'Z';
    let p_digit = '0' <= p && p <= '9';
    let c_lower = 'a' <= c && c <= 'z';
    let c_upper = 'A' <= c && c <= 'Z';
    let c_digit = '0' <= c && c <= '9';
    (p_lower && c_upper) || (p_digit && (c_lower || c_upper)) || ((p_lower || p_upper) && c_digit)
}

/// Weight, style and width keywords removed from family names.
pub open spec fn family_kws() -> Seq<Seq<char>> {
    seq![
        "thin"@,
        "extralight"@,
        "ultralight"@,
        "light"@,
        "normal"@,
        "regular"@,
        "medium"@,
        "semibold"@,
        "demibold"@,
        "bold"@,
        "extrabold"@,
        "ultrabold"@,
        "black"@,
        "heavy"@,
        "italic"@,
        "oblique"@,
        "book"@,
        "hairline"@,
        "condensed"@,
        "expanded"@,
        "narrow"@,
        "wide"@,
        "mono"@,
        "typewriter"@,
        "console"@,
    ]
}

/// Case-insensitive occurrence of `kw` at `i`, bounded by word boundaries.
pub open spec fn word_match_at(s: Seq<char>, kw: Seq<char>, i: int) -> bool {
    &&& 0 <= i
    &&& i + kw.len() <= s.len()
    &&& lower_seq(s).subrange(i, i + kw.len() as int) == kw
    &&& (i == 0 || !is_word_char(s[i - 1]))
    &&& (i + kw.len() == s.len() || !is_word_char(s[i + kw.len()]))
}

/// Left-to-right, non-overlapping removal of a keyword.
pub open spec fn remove_word_scan(s: Seq<char>, kw: Seq<char>, i: int) -> Seq<char>
    decreases s.len() - i,
{
    if i < 0 || i >= s.len() {
        Seq::empty()
    } else if kw.len() > 0 && word_match_at(s, kw, i) {
        remove_word_scan(s, kw, i + kw.len() as int)
    } else {
        seq![s[i]] + remove_word_scan(s, kw, i + 1)
    }
}

pub open spec fn remove_kws_from(s: Seq<char>, j: int) -> Seq<char>
    decreases family_kws().len() - j,
{
    if j < 0 || j >= family_kws().len() {
        s
    } else {
        remove_kws_from(remove_word_scan(s, family_kws()[j], 0), j + 1)
    }
}

fn word_match_x(v: &Vec<char>, kw: &Vec<char>, i: usize) -> (r: bool)
    ensures
        r == word_match_at(v@, kw@, i as int),
{
    if i > v.len() || kw.len() > v.len() - i {
        return false;
    }
    if i > 0 {
        let p = v[i - 1];
        if ('a' <= p && p <= 'z') || ('A' <= p && p <= 'Z') || ('0' <= p && p <= '9') || p == '_' {
            return false;
        }
    }
    if i + kw.len() < v.len() {
        let q = v[i + kw.len()];
        if ('a' <= q && q <= 'z') || ('A' <= q && q <= 'Z') || ('0' <= q && q <= '9') || q == '_' {
            return false;
        }
    }
    let n = v.len();
    let mut j: usize = 0;
    while j < kw.len()
        invariant
            n == v@.len(),
            i + kw@.len() <= v@.len(),
            j <= kw@.len(),
            forall|k: int| 0 <= k < j ==> spec_lower_char(v@[i + k]) == kw@[k],
        decreases kw@.len() - j,
    {
        proof {
            assert(i + j < n);
        }
        if lower_char(v[i + j]) != kw[j] {
            proof {
                assert(lower_seq(v@).subrange(i as int, i + kw@.len() as int)[j as int] != kw@[
                    j as int]);
            }
            return false;
        }
        j += 1;
    }
    proof {
        assert(lower_seq(v@).subrange(i as int, i + kw@.len() as int) =~= kw@);
    }
    true
}

fn remove_keyword(v: &Vec<char>, kw: &Vec<char>) -> (r: Vec<char>)
    requires
        kw@.len() > 0,
    ensures
        r@ == remove_word_scan(v@, kw@, 0),
{
    let mut out: Vec<char> = Vec::new();
    let mut i: usize = 0;
    while i < v.len()
        invariant
            kw@.len() > 0,
            i <= v@.len(),
            remove_word_scan(v@, kw@, 0) == out@ + remove_word_scan(v@, kw@, i as int),
        decreases v@.len() - i,
    {
        if word_match_x(v, kw, i) {
            proof {
                assert(remove_word_scan(v@, kw@, i as int) == remove_word_scan(
                    v@,
                    kw@,
                    i + kw@.len() as int,
                ));
            }
            i += kw.len();
        } else {
            out.push(v[i]);
            proof {
                assert(remove_word_scan(v@, kw@, i as int) =~= seq![v@[i as int]]
                    + remove_word_scan(v@, kw@, i + 1));
                assert(remove_word_scan(v@, kw@, 0) =~= out@ + remove_word_scan(v@, kw@, i + 1));
            }
            i += 1;
        }
    }
    proof {
        assert(out@ =~= remove_word_scan(v@, kw@, 0));
    }
    out
}

fn remove_keywords(v: Vec<char>) -> (r: Vec<char>)
    ensures
        r@ == remove_kws_from(v@, 0),
{
    let mut kws: Vec<Vec<char>> = Vec::new();
    kws.push(str_chars("thin"));
    kws.push(str_chars("extralight"));
    kws.push(str_chars("ultralight"));
    kws.push(str_chars("light"));
    kws.push(str_chars("normal"));
    kws.push(str_chars("regular"));
    kws.push(str_chars("medium"));
    kws.push(str_chars("semibold"));
    kws.push(str_chars("demibold"));
    kws.push(str_chars("bold"));
    kws.push(str_chars("extrabold"));
    kws.push(str_chars("ultrabold"));
    kws.push(str_chars("black"));
    kws.push(str_chars("heavy"));
    kws.push(str_chars("italic"));
    kws.push(str_chars("oblique"));
    kws.push(str_chars("book"));
    kws.push(str_chars("hairline"));
    kws.push(str_chars("condensed"));
    kws.push(str_chars("expanded"));
    kws.push(str_chars("narrow"));
    kws.push(str_chars("wide"));
    kws.push(str_chars("mono"));
    kws.push(str_chars("typewriter"));
    kws.push(str_chars("console"));
    proof {
        reveal_strlit("thin");
        reveal_strlit("extralight");
        reveal_strlit("ultralight");
        reveal_strlit("light");
        reveal_strlit("normal");
        reveal_strlit("regular");
        reveal_strlit("medium");
        reveal_strlit("semibold");
        reveal_strlit("demibold");
        reveal_strlit("bold");
        reveal_strlit("extrabold");
        reveal_strlit("ultrabold");
        reveal_strlit("black");
        reveal_strlit("heavy");
        reveal_strlit("italic");
        reveal_strlit("oblique");
        reveal_strlit("book");
        reveal_strlit("hairline");
        reveal_strlit("condensed");
        reveal_strlit("expanded");
        reveal_strlit("narrow");
        reveal_strlit("wide");
        reveal_strlit("mono");
        reveal_strlit("typewriter");
        reveal_strlit("console");
    }
    let ghost orig = v@;
    let mut cur = v;
    let mut j: usize = 0;
    while j < kws.len()
        invariant
            kws@.len() == family_kws().len(),
            forall|k: int| 0 <= k < kws@.len() ==> kws@[k]@ == family_kws()[k],
            forall|k: int| 0 <= k < kws@.len() ==> family_kws()[k].len() > 0,
            j <= kws@.len(),
            remove_kws_from(orig, 0) == remove_kws_from(cur@, j as int),
        decreases kws@.len() - j,
    {
        cur = remove_keyword(&cur, &kws[j]);
        j += 1;
    }
    cur
}

/// Format suffixes stripped from the end of a family name when preceded
/// by a non-alphanumeric character or a lowercase letter.
pub open spec fn foundry_words() -> Seq<Seq<char>> {
    seq!["MT"@, "PS"@, "PSMT"@, "Std"@, "Pro"@, "TT"@, "OT"@, "WOFF"@, "WOFF2"@]
}

pub open spec fn foundry_hits(s: Seq<char>, w: Seq<char>) -> bool {
    ends_with_seq(s, w) && s.len() > w.len() && (!is_alnum(s[s.len() - w.len() - 1]) || is_lower(
        s[s.len() - w.len() - 1],
    ))
}

pub open spec fn first_foundry_from(s: Seq<char>, i: int) -> int
    decreases foundry_words().len() - i,
{
    if i < 0 || i >= foundry_words().len() {
        -1
    } else if foundry_hits(s, foundry_words()[i]) {
        i
    } else {
        first_foundry_from(s, i + 1)
    }
}

pub open spec fn strip_foundry_spec(s: Seq<char>) -> Seq<char> {
    let k = first_foundry_from(s, 0);
    if k >= 0 {
        trim_seq(s.take(s.len() - foundry_words()[k].len()))
    } else {
        trim_seq(s)
    }
}

proof fn lemma_foundry_chain(s: Seq<char>, j: int, i: int)
    requires
        0 <= j <= i < foundry_words().len(),
        forall|k: int| j <= k < i ==> !foundry_hits(s, foundry_words()[k]),
        foundry_hits(s, foundry_words()[i]),
    ensures
        first_foundry_from(s, j) == i,
    decreases i - j,
{
    if j < i {
        lemma_foundry_chain(s, j + 1, i);
    }
}

proof fn lemma_foundry_none(s: Seq<char>, j: int)
    requires
        0 <= j,
        forall|k: int| j <= k < foundry_words().len() ==> !foundry_hits(s, foundry_words()[k]),
    ensures
        first_foundry_from(s, j) == -1,
    decreases foundry_words().len() - j,
{
    if j < foundry_words().len() {
        lemma_foundry_none(s, j + 1);
    }
}

fn strip_foundry(v: &Vec<char>) -> (r: Vec<char>)
    ensures
        r@ == strip_foundry_spec(v@),
{
    let mut words: Vec<Vec<char>> = Vec::new();
    words.push(str_chars("MT"));
    words.push(str_chars("PS"));
    words.push(str_chars("PSMT"));
    words.push(str_chars("Std"));
    words.push(str_chars("Pro"));
    words.push(str_chars("TT"));
    words.push(str_chars("OT"));
    words.push(str_chars("WOFF"));
    words.push(str_chars("WOFF2"));
    let mut i: usize = 0;
    while i < words.len()
        invariant
            words@.len() == foundry_words().len(),
            forall|j: int| 0 <= j < words@.len() ==> words@[j]@ == foundry_words()[j],
            i <= words@.len(),
            forall|j: int| 0 <= j < i ==> !foundry_hits(v@, foundry_words()[j]),
        decreases words@.len() - i,
    {
        let w = &words[i];
        if ends_with_vec(v, w) && v.len() > w.len() {
            let p = v[v.len() - w.len() - 1];
            let p_alnum = ('a' <= p && p <= 'z') || ('A' <= p && p <= 'Z') || ('0' <= p && p
                <= '9');
            let p_lower = 'a' <= p && p <= 'z';
            if !p_alnum || p_lower {
                proof {
                    assert(foundry_hits(v@, foundry_words()[i as int]));
                    lemma_foundry_chain(v@, 0, i as int);
                }
                let cut = copy_range(v, 0, v.len() - w.len());
                proof {
                    assert(v@.subrange(0, v@.len() - foundry_words()[i as int].len()) =~= v@.take(
                        v@.len() - foundry_words()[first_foundry_from(v@, 0)].len(),
                    ));
                }
                return trim_vec(&cut);
            }
        }
        proof {
            assert(!foundry_hits(v@, foundry_words()[i as int]));
        }
        i += 1;
    }
    proof {
        lemma_foundry_none(v@, 0);
    }
    trim_vec(v)
}

/// Family isolation applied to the name after suffix stripping.
pub open spec fn family_pre_spec(s: Seq<char>) -> Seq<char> {
    strip_foundry_spec(trim_seq(remove_kws_from(camel_spec(s), 0)))
}

pub fn extract_family(v: &Vec<char>) -> (r: Vec<char>)
    ensures
        r@ == family_pre_spec(v@),
{
    let cam = camel_split(v);
    let removed = remove_keywords(cam);
    let trimmed = trim_vec(&removed);
    strip_foundry(&trimmed)
}

// ----- stage 5: canonicalization ------------------------------------------

/// Lowercase, keep `[a-z0-9]`, map space and underscore to `-`, drop the
/// rest.
pub open spec fn canon_char(c: char) -> Option<char> {
    if is_upper(c) {
        Some(spec_lower_char(c))
    } else if is_lower(c) || is_digit_char(c) {
        Some(c)
    } else if c == ' ' || c == '_' || c == '-' {
        Some('-')
    } else {
        None
    }
}

pub open spec fn map_canon(s: Seq<char>, i: int) -> Seq<char>
    decreases s.len() - i,
{
    if i < 0 || i >= s.len() {
        Seq::empty()
    } else {
        match canon_char(s[i]) {
            Some(c) => seq![c] + map_canon(s, i + 1),
            None => map_canon(s, i + 1),
        }
    }
}

/// Collapses runs of `-` to a single `-`.
pub open spec fn collapse_scan(s: Seq<char>, i: int, prev_dash: bool) -> Seq<char>
    decreases s.len() - i,
{
    if i < 0 || i >= s.len() {
        Seq::empty()
    } else if s[i] == '-' && prev_dash {
        collapse_scan(s, i + 1, true)
    } else {
        seq![s[i]] + collapse_scan(s, i + 1, s[i] == '-')
    }
}

pub open spec fn canonical_spec(s: Seq<char>) -> Seq<char> {
    trim_seq(collapse_scan(map_canon(s, 0), 0, false))
}

pub fn canonicalize(v: &Vec<char>) -> (r: Vec<char>)
    ensures
        r@ == canonical_spec(v@),
{
    let mut mapped: Vec<char> = Vec::new();
    let mut i: usize = 0;
    while i < v.len()
        invariant
            i <= v@.len(),
            map_canon(v@, 0) == mapped@ + map_canon(v@, i as int),
        decreases v@.len() - i,
    {
        let c = v[i];
        if 'A' <= c && c <= 'Z' {
            mapped.push(lower_char(c));
        } else if ('a' <= c && c <= 'z') || ('0' <= c && c <= '9') {
            mapped.push(c);
        } else if c == ' ' || c == '_' || c == '-' {
            mapped.push('-');
        }
        proof {
            match canon_char(v@[i as int]) {
                Some(cc) => {
                    assert(map_canon(v@, i as int) =~= seq![cc] + map_canon(v@, i + 1));
                },
                None => {},
            }
            assert(map_canon(v@, 0) =~= mapped@ + map_canon(v@, i + 1));
        }
        i += 1;
    }
    proof {
        assert(mapped@ =~= map_canon(v@, 0));
    }
    let mut collapsed: Vec<char> = Vec::new();
    let mut prev_dash = false;
    let mut i: usize = 0;
    while i < mapped.len()
        invariant
            i <= mapped@.len(),
            collapse_scan(mapped@, 0, false) == collapsed@ + collapse_scan(
                mapped@,
                i as int,
                prev_dash,
            ),
        decreases mapped@.len() - i,
    {
        let c = mapped[i];
        if c == '-' && prev_dash {
        } else {
            collapsed.push(c);
            prev_dash = c == '-';
        }
        proof {
            assert(collapse_scan(mapped@, 0, false) =~= collapsed@ + collapse_scan(
                mapped@,
                i + 1,
                prev_dash,
            ));
        }
        i += 1;
    }
    proof {
        assert(collapsed@ =~= collapse_scan(mapped@, 0, false));
    }
    trim_vec(&collapsed)
}

// ----- stage 6: monospace detection ---------------------------------------

pub open spec fn mono_name(s: Seq<char>) -> bool {
    ||| contains_sub(lower_seq(s), "mono"@)
    ||| contains_sub(lower_seq(s), "console"@)
    ||| contains_sub(lower_seq(s), "typewriter"@)
    ||| contains_sub(lower_seq(s), "courier"@)
    ||| contains_sub(lower_seq(s), "fixedsys"@)
    ||| contains_sub(lower_seq(s), "terminal"@)
}

pub fn is_mono_name(v: &Vec<char>) -> (r: bool)
    ensures
        r == mono_name(v@),
{
    let low = lower_vec(v);
    has_kw(&low, "mono") || has_kw(&low, "console") || has_kw(&low, "typewriter") || has_kw(
        &low,
        "courier",
    ) || has_kw(&low, "fixedsys") || has_kw(&low, "terminal")
}

// ----- the full pipeline ---------------------------------------------------

/// Name after the subset-prefix and encoding-suffix strips.
pub open spec fn norm_base(name: Seq<char>) -> Seq<char> {
    enc_strip_spec(strip_subset_spec(name))
}

pub open spec fn norm_weight(name: Seq<char>) -> u16 {
    weight_of(lower_seq(norm_base(name)))
}

pub open spec fn norm_style(name: Seq<char>) -> FontStyle {
    style_of(lower_seq(norm_base(name)))
}

/// The isolated family before canonicalization.
pub open spec fn norm_family_pre(name: Seq<char>) -> Seq<char> {
    family_pre_spec(strip_tail_word_spec(norm_base(name)))
}

/// The final normalized family: lowercase kebab form.
pub open spec fn norm_family(name: Seq<char>) -> Seq<char> {
    canonical_spec(norm_family_pre(name))
}

pub open spec fn norm_mono(name: Seq<char>) -> bool {
    mono_name(name) || mono_name(norm_family_pre(name))
}

// ----- laws ----------------------------------------------------------------

/// A character admissible in a normalized family name.
pub open spec fn is_canon_char(c: char) -> bool {
    is_lower(c) || is_digit_char(c) || c == '-'
}

proof fn lemma_map_canon_chars(s: Seq<char>, i: int)
    ensures
        forall|j: int|
            0 <= j < map_canon(s, i).len() ==> is_canon_char(#[trigger] map_canon(s, i)[j]),
    decreases s.len() - i,
{
    if 0 <= i < s.len() {
        lemma_map_canon_chars(s, i + 1);
        let rest = map_canon(s, i + 1);
        match canon_char(s[i]) {
            Some(c) => {
                assert(is_canon_char(c));
                assert(map_canon(s, i) == seq![c] + rest);
                assert forall|j: int|
                    0 <= j < map_canon(s, i).len() implies is_canon_char(
                    #[trigger] map_canon(s, i)[j],
                ) by {
                    if j > 0 {
                        assert(map_canon(s, i)[j] == rest[j - 1]);
                    }
                }
            },
            None => {},
        }
    }
}

proof fn lemma_collapse_props(s: Seq<char>, i: int, prev_dash: bool)
    requires
        forall|k: int| i <= k < s.len() ==> is_canon_char(#[trigger] s[k]),
    ensures
        forall|j: int|
            0 <= j < collapse_scan(s, i, prev_dash).len() ==> is_canon_char(
                #[trigger] collapse_scan(s, i, prev_dash)[j],
            ),
        forall|j: int|
            0 <= j && j + 1 < collapse_scan(s, i, prev_dash).len() ==> !(#[trigger] collapse_scan(
                s,
                i,
                prev_dash,
            )[j] == '-' && collapse_scan(s, i, prev_dash)[j + 1] == '-'),
        prev_dash && collapse_scan(s, i, prev_dash).len() > 0 ==> collapse_scan(
            s,
            i,
            prev_dash,
        )[0] != '-',
    decreases s.len() - i,
{
    if 0 <= i < s.len() {
        if s[i] == '-' && prev_dash {
            lemma_collapse_props(s, i + 1, true);
        } else {
            lemma_collapse_props(s, i + 1, s[i] == '-');
            let rest = collapse_scan(s, i + 1, s[i] == '-');
            let whole = collapse_scan(s, i, prev_dash);
            assert(whole == seq![s[i]] + rest);
            assert forall|j: int| 0 <= j < whole.len() implies is_canon_char(
                #[trigger] whole[j],
            ) by {
                if j > 0 {
                    assert(whole[j] == rest[j - 1]);
                }
            }
            assert forall|j: int|
                0 <= j && j + 1 < whole.len() implies !(#[trigger] whole[j] == '-' && whole[j + 1]
                == '-') by {
                if j == 0 {
                    if whole[0] == '-' {
                        assert(s[i] == '-');
                        assert(whole[1] == rest[0]);
                        assert(rest.len() > 0 ==> rest[0] != '-');
                    }
                } else {
                    assert(whole[j] == rest[j - 1] && whole[j + 1] == rest[j]);
                }
            }
        }
    }
}

proof fn lemma_trim_front_suffix(s: Seq<char>)
    ensures
        trim_front(s).len() <= s.len(),
        trim_front(s) == s.subrange(s.len() - trim_front(s).len(), s.len() as int),
        trim_front(s).len() > 0 ==> !is_trim_char(trim_front(s)[0]),
    decreases s.len(),
{
    if s.len() > 0 && is_trim_char(s[0]) {
        let d = s.drop_first();
        lemma_trim_front_suffix(d);
        assert(d.subrange(d.len() - trim_front(d).len(), d.len() as int) =~= s.subrange(
            s.len() - trim_front(s).len(),
            s.len() as int,
        ));
    } else {
        assert(s.subrange(0, s.len() as int) =~= s);
    }
}

proof fn lemma_trim_back_prefix(s: Seq<char>)
    ensures
        trim_back(s).len() <= s.len(),
        trim_back(s) == s.subrange(0, trim_back(s).len() as int),
        trim_back(s).len() > 0 ==> !is_trim_char(trim_back(s).last()),
    decreases s.len(),
{
    if s.len() > 0 && is_trim_char(s.last()) {
        let d = s.drop_last();
        lemma_trim_back_prefix(d);
        assert(d.subrange(0, trim_back(d).len() as int) =~= s.subrange(
            0,
            trim_back(s).len() as int,
        ));
    } else {
        assert(s.subrange(0, s.len() as int) =~= s);
    }
}

/// The normalized family contains only `[a-z0-9-]`, never starts or ends
/// with `-`, and has no run of two or more `-`.
pub proof fn lemma_normalized_family_shape(name: Seq<char>)
    ensures
        forall|j: int|
            0 <= j < norm_family(name).len() ==> is_canon_char(#[trigger] norm_family(name)[j]),
        norm_family(name).len() > 0 ==> norm_family(name)[0] != '-',
        norm_family(name).len() > 0 ==> norm_family(name).last() != '-',
        forall|j: int|
            0 <= j && j + 1 < norm_family(name).len() ==> !(#[trigger] norm_family(name)[j] == '-'
                && norm_family(name)[j + 1] == '-'),
{
    let pre = norm_family_pre(name);
    let m = map_canon(pre, 0);
    lemma_map_canon_chars(pre, 0);
    let c = collapse_scan(m, 0, false);
    lemma_collapse_props(m, 0, false);
    let f = trim_front(c);
    lemma_trim_front_suffix(c);
    let ghost off = c.len() - f.len();
    assert(forall|j: int| 0 <= j < f.len() ==> f[j] == c[off + j]);
    let t = trim_back(f);
    lemma_trim_back_prefix(f);
    assert(forall|j: int| 0 <= j < t.len() ==> t[j] == f[j]);
    assert(norm_family(name) == t);
    assert forall|j: int| 0 <= j < t.len() implies is_canon_char(#[trigger] t[j]) by {
        assert(t[j] == c[off + j]);
    }
    assert forall|j: int|
        0 <= j && j + 1 < t.len() implies !(#[trigger] t[j] == '-' && t[j + 1] == '-') by {
        assert(t[j] == c[off + j] && t[j + 1] == c[off + j + 1]);
    }
    if t.len() > 0 {
        assert(t[0] == f[0]);
        assert(!is_trim_char(f[0]));
        assert(!is_trim_char(t.last()));
    }
}

/// Stripping the subset prefix is idempotent as long as its result does
/// not itself start with another subset marker (as in a doubly prefixed
/// name, which loses one marker per pass).
pub proof fn lemma_subset_strip_idempotent(name: Seq<char>)
    requires
        !has_subset_prefix(strip_subset_spec(name)),
    ensures
        strip_subset_spec(strip_subset_spec(name)) == strip_subset_spec(name),
{
}

pub struct FontNormalizer;

impl FontNormalizer {
    /// Parses an arbitrary font string into a structured request.
    /// Fails with `InvalidFontName` exactly when nothing is left of the
    /// family after stripping and canonicalization.
    pub fn normalize(&self, font_name: &str) -> (r: Result<FontRequest, FontError>)
        ensures
            r is Ok <==> norm_family(font_name@).len() > 0,
            r matches Ok(req) ==> {
                &&& req.original_name@ == font_name@
                &&& req.normalized_name@ == norm_family(font_name@)
                &&& req.family@ == norm_family(font_name@)
                &&& req.weight == norm_weight(font_name@)
                &&& req.style == norm_style(font_name@)
                &&& req.italic == (norm_style(font_name@) != FontStyle::Normal)
                &&& req.monospaced == norm_mono(font_name@)
            },
            r matches Err(e) ==> (e matches FontError::InvalidFontName(n) && n@ == font_name@),
    {
        let chars = str_chars(font_name);
        let s1 = strip_subset_prefix(&chars);
        let s2a = strip_encoding_suffix(&s1);
        let low = lower_vec(&s2a);
        let weight = extract_weight(&low);
        let style = extract_style(&low);
        let italic = match style {
            FontStyle::Normal => false,
            _ => true,
        };
        let s2b = strip_tail_word(&s2a);
        let fam_pre = extract_family(&s2b);
        let family = canonicalize(&fam_pre);
        if family.len() == 0 {
            return Err(FontError::InvalidFontName(font_name.to_owned()));
        }
        let monospaced = is_mono_name(&chars) || is_mono_name(&fam_pre);
        let family_str = chars_string(&family);
        let normalized = chars_string(&family);
        Ok(
            FontRequest {
                original_name: font_name.to_owned(),
                normalized_name: normalized,
                family: family_str,
                weight,
                style,
                italic,
                monospaced,
            },
        )
    }

    /// Common aliases from requested families to their usual stand-ins.
    pub fn get_common_mappings(&self) -> (r: Vec<(&'static str, &'static str)>)
        ensures
            r@.len() == 11,
            r@[0].0@ == "helvetica"@ && r@[0].1@ == "arial"@,
            r@[1].0@ == "helvetica-neue"@ && r@[1].1@ == "arial"@,
            r@[2].0@ == "times"@ && r@[2].1@ == "times-new-roman"@,
            r@[3].0@ == "times-roman"@ && r@[3].1@ == "times-new-roman"@,
            r@[4].0@ == "courier"@ && r@[4].1@ == "courier-new"@,
            r@[5].0@ == "zapfdingbats"@ && r@[5].1@ == "zapf-dingbats"@,
            r@[6].0@ == "symbol"@ && r@[6].1@ == "symbola"@,
            r@[7].0@ == "wingdings"@ && r@[7].1@ == "wingdings"@,
            r@[8].0@ == "calibri"@ && r@[8].1@ == "calibri"@,
            r@[9].0@ == "cambria"@ && r@[9].1@ == "cambria"@,
            r@[10].0@ == "consolas"@ && r@[10].1@ == "consolas"@,
    {
        let mut r: Vec<(&'static str, &'static str)> = Vec::new();
        r.push(("helvetica", "arial"));
        r.push(("helvetica-neue", "arial"));
        r.push(("times", "times-new-roman"));
        r.push(("times-roman", "times-new-roman"));
        r.push(("courier", "courier-new"));
        r.push(("zapfdingbats", "zapf-dingbats"));
        r.push(("symbol", "symbola"));
        r.push(("wingdings", "wingdings"));
        r.push(("calibri", "calibri"));
        r.push(("cambria", "cambria"));
        r.push(("consolas", "consolas"));
        r
    }
}

} // verus!

