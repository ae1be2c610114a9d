//! Character and string utilities shared by the normalizer and the
//! similarity engine.  All reasoning is done over `Seq<char>` views;
//! executable code works on `Vec<char>` buffers.

use vstd::prelude::*;

verus! {

pub open spec fn is_upper(c: char) -> bool {
    'A' <= c && c <= 'Z'
}

pub open spec fn is_lower(c: char) -> bool {
    'a' <= c && c <= 'z'
}

pub open spec fn is_digit_char(c: char) -> bool {
    '0' <= c && c <= '9'
}

pub open spec fn is_alnum(c: char) -> bool {
    is_upper(c) || is_lower(c) || is_digit_char(c)
}

/// Word characters in the sense of word-boundary keyword stripping.
pub open spec fn is_word_char(c: char) -> bool {
    is_alnum(c) || c == '_'
}

pub open spec fn spec_lower_char(c: char) -> char {
    if 'A' <= c && c <= 'Z' {
        (((c as u32) + 32) as char)
    } else {
        c
    }
}

pub open spec fn lower_seq(s: Seq<char>) -> Seq<char> {
    Seq::new(s.len(), |i: int| spec_lower_char(s[i]))
}

/// `t` occurs in `s` starting at position `i`.
pub open spec fn is_sub_at(s: Seq<char>, t: Seq<char>, i: int) -> bool {
    0 <= i && i + t.len() <= s.len() && s.subrange(i, i + t.len() as int) == t
}

pub open spec fn contains_sub(s: Seq<char>, t: Seq<char>) -> bool {
    exists|i: int| is_sub_at(s, t, i)
}

pub open spec fn starts_with_seq(s: Seq<char>, t: Seq<char>) -> bool {
    is_sub_at(s, t, 0)
}

pub open spec fn ends_with_seq(s: Seq<char>, t: Seq<char>) -> bool {
    is_sub_at(s, t, s.len() - t.len())
}

pub fn lower_char(c: char) -> (r: char)
    ensures
        r == spec_lower_char(c),
{
    if 'A' <= c && c <= 'Z' {
        ((c as u8) + 32) as char
    } else {
        c
    }
}

/// Collects the characters of a string slice into a vector.
pub fn str_chars(s: &str) -> (r: Vec<char>)
    ensures
        r@ == s@,
{
    let n = s.unicode_len();
    let mut r: Vec<char> = Vec::new();
    let mut i: usize = 0;
    while i < n
        invariant
            n == s@.len(),
            i <= n,
            r@ == s@.subrange(0, i as int),
        decreases n - i,
    {
        r.push(s.get_char(i));
        i += 1;
    }
    proof {
        assert(r@ =~= s@);
    }
    r
}

pub fn string_chars(s: &String) -> (r: Vec<char>)
    ensures
        r@ == s@,
{
    str_chars(s.as_str())
}

/// Relies on `String::push`: appends the given character to the string.
#[verifier::external_body]
fn push_char(s: &mut String, c: char)
    ensures
        final(s)@ == old(s)@.push(c),
{
    s.push(c);
}

/// Builds a string from a vector of characters.
pub fn chars_string(v: &Vec<char>) -> (r: String)
    ensures
        r@ == v@,
{
    let mut r = String::new();
    let mut i: usize = 0;
    while i < v.len()
        invariant
            i <= v@.len(),
            r@ == v@.subrange(0, i as int),
        decreases v@.len() - i,
    {
        push_char(&mut r, v[i]);
        proof {
            assert(v@.subrange(0, i as int).push(v@[i as int]) =~= v@.subrange(0, i + 1));
        }
        i += 1;
    }
    proof {
        assert(r@ =~= v@);
    }
    r
}

pub fn lower_vec(v: &Vec<char>) -> (r: Vec<char>)
    ensures
        r@ == lower_seq(v@),
{
    let mut r: Vec<char> = Vec::new();
    let mut i: usize = 0;
    while i < v.len()
        invariant
            i <= v@.len(),
            r@.len() == i,
            forall|j: int| 0 <= j < i ==> r@[j] == spec_lower_char(v@[j]),
        decreases v@.len() - i,
    {
        r.push(lower_char(v[i]));
        i += 1;
    }
    proof {
        assert(r@ =~= lower_seq(v@));
    }
    r
}

/// Compares two character vectors for sequence equality.
pub fn eq_vec(a: &Vec<char>, b: &Vec<char>) -> (r: bool)
    ensures
        r == (a@ == b@),
{
    if a.len() != b.len() {
        proof {
            assert(a@ != b@);
        }
        return false;
    }
    let mut i: usize = 0;
    while i < a.len()
        invariant
            a@.len() == b@.len(),
            i <= a@.len(),
            forall|j: int| 0 <= j < i ==> a@[j] == b@[j],
        decreases a@.len() - i,
    {
        if a[i] != b[i] {
            proof {
                assert(a@ != b@);
            }
            return false;
        }
        i += 1;
    }
    proof {
        assert(a@ =~= b@);
    }
    true
}

/// Tests whether `t` occurs in `s` at position `i`.
pub fn sub_at(s: &Vec<char>, t: &Vec<char>, i: usize) -> (r: bool)
    ensures
        r == is_sub_at(s@, t@, i as int),
{
    if i > s.len() || t.len() > s.len() - i {
        proof {
            assert(!is_sub_at(s@, t@, i as int));
        }
        return false;
    }
    let n = s.len();
    let mut j: usize = 0;
    while j < t.len()
        invariant
            n == s@.len(),
            i + t@.len() <= s@.len(),
            j <= t@.len(),
            forall|k: int| 0 <= k < j ==> s@[i + k] == t@[k],
        decreases t@.len() - j,
    {
        proof {
            assert(i + j < n);
        }
        if s[i + j] != t[j] {
            proof {
                assert(s@.subrange(i as int, i + t@.len() as int)[j as int] != t@[j as int]);
            }
            return false;
        }
        j += 1;
    }
    proof {
        assert(s@.subrange(i as int, i + t@.len() as int) =~= t@);
    }
    true
}

pub fn contains_vec(s: &Vec<char>, t: &Vec<char>) -> (r: bool)
    ensures
        r == contains_sub(s@, t@),
{
    if t.len() > s.len() {
        proof {
            assert forall|i: int| !is_sub_at(s@, t@, i) by {}
        }
        return false;
    }
    if t.len() == 0 {
        proof {
            assert(s@.subrange(0, 0) =~= t@);
            assert(is_sub_at(s@, t@, 0));
        }
        return true;
    }
    let limit = s.len() - t.len();
    let ghost slen: usize = s.len();
    let mut i: usize = 0;
    while i <= limit
        invariant
            0 < t@.len() <= s@.len(),
            slen == s@.len(),
            limit == s@.len() - t@.len(),
            i <= limit + 1,
            forall|k: int| 0 <= k < i ==> !is_sub_at(s@, t@, k),
        decreases limit + 1 - i,
    {
        if sub_at(s, t, i) {
            return true;
        }
        i += 1;
    }
    proof {
        assert forall|k: int| !is_sub_at(s@, t@, k) by {
            if 0 <= k <= limit {
            }
        }
    }
    false
}

pub fn starts_with_vec(s: &Vec<char>, t: &Vec<char>) -> (r: bool)
    ensures
        r == starts_with_seq(s@, t@),
{
    sub_at(s, t, 0)
}

pub fn ends_with_vec(s: &Vec<char>, t: &Vec<char>) -> (r: bool)
    ensures
        r == ends_with_seq(s@, t@),
{
    if t.len() > s.len() {
        proof {
            assert(!ends_with_seq(s@, t@));
        }
        return false;
    }
    sub_at(s, t, s.len() - t.len())
}

/// Case-insensitive containment: does `lower_seq(s)` contain `t`?
/// `t` is expected to be lowercase already.
pub fn contains_lower(s: &Vec<char>, t: &Vec<char>) -> (r: bool)
    ensures
        r == contains_sub(lower_seq(s@), t@),
{
    let l = lower_vec(s);
    contains_vec(&l, t)
}

pub open spec fn is_trim_char(c: char) -> bool {
    c == '-' || c == ' ' || c == '_'
}

pub open spec fn trim_front(s: Seq<char>) -> Seq<char>
    decreases s.len(),
{
    if s.len() > 0 && is_trim_char(s[0]) {
        trim_front(s.drop_first())
    } else {
        s
    }
}

pub open spec fn trim_back(s: Seq<char>) -> Seq<char>
    decreases s.len(),
{
    if s.len() > 0 && is_trim_char(s.last()) {
        trim_back(s.drop_last())
    } else {
        s
    }
}

/// Removes `-`, space and `_` from both ends.
pub open spec fn trim_seq(s: Seq<char>) -> Seq<char> {
    trim_back(trim_front(s))
}

proof fn lemma_trim_front_subrange(s: Seq<char>, i: int)
    requires
        0 <= i <= s.len(),
        forall|j: int| 0 <= j < i ==> is_trim_char(s[j]),
        i == s.len() || !is_trim_char(s[i]),
    ensures
        trim_front(s) == s.subrange(i, s.len() as int),
    decreases i,
{
    if i == 0 {
        assert(s.subrange(0, s.len() as int) =~= s);
    } else {
        let d = s.drop_first();
        assert(forall|j: int| 0 <= j < i - 1 ==> is_trim_char(#[trigger] d[j]));
        lemma_trim_front_subrange(d, i - 1);
        assert(d.subrange(i - 1, d.len() as int) =~= s.subrange(i, s.len() as int));
    }
}

proof fn lemma_trim_back_subrange(s: Seq<char>, i: int)
    requires
        0 <= i <= s.len(),
        forall|j: int| i <= j < s.len() ==> is_trim_char(s[j]),
        i == 0 || !is_trim_char(s[i - 1]),
    ensures
        trim_back(s) == s.subrange(0, i),
    decreases s.len() - i,
{
    if i == s.len() {
        if s.len() > 0 && is_trim_char(s.last()) {
            let d = s.drop_last();
            lemma_trim_back_subrange(d, i - 1);
            assert(d.subrange(0, i - 1) =~= s.subrange(0, i - 1));
        } else {
            assert(s.subrange(0, s.len() as int) =~= s);
        }
    } else {
        let d = s.drop_last();
        lemma_trim_back_subrange(d, i);
        assert(d.subrange(0, i) =~= s.subrange(0, i));
    }
}

pub fn trim_vec(s: &Vec<char>) -> (r: Vec<char>)
    ensures
        r@ == trim_seq(s@),
{
    let mut a: usize = 0;
    while a < s.len() && (s[a] == '-' || s[a] == ' ' || s[a] == '_')
        invariant
            a <= s@.len(),
            forall|j: int| 0 <= j < a ==> is_trim_char(s@[j]),
        decreases s@.len() - a,
    {
        a += 1;
    }
    proof {
        lemma_trim_front_subrange(s@, a as int);
    }
    let ghost mid: Seq<char> = s@.subrange(a as int, s@.len() as int);
    let mut b: usize = s.len();
    while b > a && (s[b - 1] == '-' || s[b - 1] == ' ' || s[b - 1] == '_')
        invariant
            a <= b <= s@.len(),
            forall|j: int| b <= j < s@.len() ==> is_trim_char(s@[j]),
        decreases b,
    {
        b -= 1;
    }
    proof {
        assert(forall|j: int| b - a <= j < mid.len() ==> is_trim_char(#[trigger] mid[j]));
        lemma_trim_back_subrange(mid, b - a);
    }
    let mut r: Vec<char> = Vec::new();
    let mut i: usize = a;
    while i < b
        invariant
            a <= i <= b <= s@.len(),
            r@ == s@.subrange(a as int, i as int),
        decreases b - i,
    {
        r.push(s[i]);
        proof {
            assert(s@.subrange(a as int, i as int).push(s@[i as int]) =~= s@.subrange(
                a as int,
                i + 1,
            ));
        }
        i += 1;
    }
    proof {
        assert(mid.subrange(0, b - a) =~= s@.subrange(a as int, b as int));
    }
    r
}

/// Copies `v[a..b]` into a fresh vector.
pub fn copy_range(v: &Vec<char>, a: usize, b: usize) -> (r: Vec<char>)
    requires
        a <= b <= v@.len(),
    ensures
        r@ == v@.subrange(a as int, b as int),
{
    let mut r: Vec<char> = Vec::new();
    let mut i: usize = a;
    while i < b
        invariant
            a <= i <= b <= v@.len(),
            r@ == v@.subrange(a as int, i as int),
        decreases b - i,
    {
        r.push(v[i]);
        proof {
            assert(v@.subrange(a as int, i as int).push(v@[i as int]) =~= v@.subrange(
                a as int,
                i + 1,
            ));
        }
        i += 1;
    }
    r
}

/// Appends all characters of `v` to `out`.
pub fn append_chars(out: &mut Vec<char>, v: &Vec<char>)
    ensures
        final(out)@ == old(out)@ + v@,
{
    let mut i: usize = 0;
    while i < v.len()
        invariant
            i <= v@.len(),
            out@ == old(out)@ + v@.subrange(0, i as int),
        decreases v@.len() - i,
    {
        out.push(v[i]);
        proof {
            assert(old(out)@ + v@.subrange(0, i + 1) =~= (old(out)@ + v@.subrange(
                0,
                i as int,
            )).push(v@[i as int]));
        }
        i += 1;
    }
    proof {
        assert(old(out)@ + v@.subrange(0, v@.len() as int) =~= old(out)@ + v@);
    }
}

/// Appends a string literal's characters to `out`.
pub fn append_lit(out: &mut Vec<char>, s: &str)
    ensures
        final(out)@ == old(out)@ + s@,
{
    let v = str_chars(s);
    append_chars(out, &v);
}

/// Decimal digits of `n`, most significant first.
pub open spec fn dec_seq(n: nat) -> Seq<char>
    decreases n,
{
    if n < 10 {
        seq![digit_char(n)]
    } else {
        dec_seq(n / 10).push(digit_char(n % 10))
    }
}

pub open spec fn digit_char(d: nat) -> char {
    ((0x30 + (d % 10)) as u32) as char
}

/// Renders an unsigned number in decimal.
pub fn u64_dec(n: u64) -> (r: Vec<char>)
    ensures
        r@ == dec_seq(n as nat),
{
    let mut digits: Vec<char> = Vec::new();
    let mut m: u64 = n;
    while m >= 10
        invariant
            dec_seq(n as nat) == dec_seq(m as nat) + digits@.reverse(),
        decreases m,
    {
        let d: u64 = m % 10;
        let ghost prev = digits@;
        digits.push(((0x30 + d as u8)) as char);
        proof {
            assert(digits@.last() == digit_char((m % 10) as nat));
            assert(dec_seq((m / 10) as nat).push(digit_char((m % 10) as nat)) == dec_seq(
                m as nat,
            ));
            assert(digits@.reverse() =~= seq![digit_char((m % 10) as nat)] + prev.reverse());
            assert(dec_seq((m / 10) as nat) + digits@.reverse() =~= dec_seq(m as nat)
                + prev.reverse());
        }
        m = m / 10;
    }
    let mut r: Vec<char> = Vec::new();
    r.push(((0x30 + m as u8)) as char);
    proof {
        assert(r@ =~= dec_seq(m as nat));
    }
    let mut i: usize = digits.len();
    while i > 0
        invariant
            i <= digits@.len(),
            r@ == dec_seq(m as nat) + digits@.reverse().subrange(
                0,
                digits@.len() - i,
            ),
        decreases i,
    {
        i -= 1;
        r.push(digits[i]);
        proof {
            assert(digits@.reverse()[digits@.len() - i - 1] == digits@[i as int]);
            assert(r@ =~= dec_seq(m as nat) + digits@.reverse().subrange(
                0,
                digits@.len() - i,
            ));
        }
    }
    proof {
        assert(digits@.reverse().subrange(0, digits@.len() as int) =~= digits@.reverse());
        assert(r@ =~= dec_seq(n as nat));
    }
    r
}

/// Renders an unsigned number in decimal as a `String`.
pub fn u64_dec_string(n: u64) -> (r: String)
    ensures
        r@ == dec_seq(n as nat),
{
    let v = u64_dec(n);
    chars_string(&v)
}

} // verus!
