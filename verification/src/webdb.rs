//! The bundled web-font database: families with their variants, keyed by
//! lowercase kebab name, with aliases for common requests.

use vstd::prelude::*;

use crate::text::{contains_sub, contains_vec, eq_vec, lower_seq, lower_vec, str_chars,
    string_chars, append_chars, append_lit, chars_string};
use crate::types::{FontDescriptor, FontDescriptorV, FontFormat, FontMetrics, LicenseInfo};

verus! {

#[derive(Debug, Clone, Copy, PartialEq, Eq, Structural)]
pub enum FontCategory {
    Serif,
    SansSerif,
    Monospace,
    Display,
    Handwriting,
    Other,
}

pub struct WebFontVariantV {
    pub weight: u16,
    pub italic: bool,
    pub style: Seq<char>,
    pub file_url: Seq<char>,
    pub file_format: FontFormat,
    pub file_size_kb: u32,
}

#[derive(Debug, Clone)]
pub struct WebFontVariant {
    pub weight: u16,
    pub italic: bool,
    pub style: String,
    pub file_url: String,
    pub file_format: FontFormat,
    pub file_size_kb: u32,
}

impl View for WebFontVariant {
    type V = WebFontVariantV;

    open spec fn view(&self) -> WebFontVariantV {
        WebFontVariantV {
            weight: self.weight,
            italic: self.italic,
            style: self.style@,
            file_url: self.file_url@,
            file_format: self.file_format,
            file_size_kb: self.file_size_kb,
        }
    }
}

pub struct WebFontLicenseV {
    pub name: Seq<char>,
    pub url: Seq<char>,
    pub allows_commercial_use: bool,
    pub allows_modification: bool,
    pub requires_attribution: bool,
}

#[derive(Debug, Clone)]
pub struct WebFontLicense {
    pub name: String,
    pub url: String,
    pub allows_commercial_use: bool,
    pub allows_modification: bool,
    pub requires_attribution: bool,
}

impl View for WebFontLicense {
    type V = WebFontLicenseV;

    open spec fn view(&self) -> WebFontLicenseV {
        WebFontLicenseV {
            name: self.name@,
            url: self.url@,
            allows_commercial_use: self.allows_commercial_use,
            allows_modification: self.allows_modification,
            requires_attribution: self.requires_attribution,
        }
    }
}

pub struct WebFontV {
    pub family: Seq<char>,
    pub variants: Seq<WebFontVariantV>,
    pub category: FontCategory,
    pub popularity: u8,
    pub last_updated: Seq<char>,
    pub license: WebFontLicenseV,
    pub similar_fonts: Seq<Seq<char>>,
}

#[derive(Debug, Clone)]
pub struct WebFont {
    pub family: String,
    pub variants: Vec<WebFontVariant>,
    pub category: FontCategory,
    pub popularity: u8,
    pub last_updated: String,
    pub license: WebFontLicense,
    pub similar_fonts: Vec<String>,
}

impl View for WebFont {
    type V = WebFontV;

    open spec fn view(&self) -> WebFontV {
        WebFontV {
            family: self.family@,
            variants: self.variants@.map_values(|v: WebFontVariant| v@),
            category: self.category,
            popularity: self.popularity,
            last_updated: self.last_updated@,
            license: self.license@,
            similar_fonts: self.similar_fonts@.map_values(|s: String| s@),
        }
    }
}

pub struct WebFontDatabaseV {
    pub fonts: Seq<(Seq<char>, WebFontV)>,
    pub family_aliases: Seq<(Seq<char>, Seq<char>)>,
    pub version: Seq<char>,
}

/// The database: families keyed by lowercase kebab names, plus aliases.
#[derive(Debug, Clone)]
pub struct WebFontDatabase {
    fonts: Vec<(String, WebFont)>,
    family_aliases: Vec<(String, String)>,
    version: String,
}

impl View for WebFontDatabase {
    type V = WebFontDatabaseV;

    closed spec fn view(&self) -> WebFontDatabaseV {
        WebFontDatabaseV {
            fonts: self.fonts@.map_values(|p: (String, WebFont)| (p.0@, p.1@)),
            family_aliases: self.family_aliases@.map_values(
                |p: (String, String)| (p.0@, p.1@),
            ),
            version: self.version@,
        }
    }
}

/// A request name in lookup form: lowercase, spaces as hyphens.
pub open spec fn web_key(s: Seq<char>) -> Seq<char> {
    crate::compressor::sp2dash_lower(s)
}

pub open spec fn wdb_find_key(fs: Seq<(Seq<char>, WebFontV)>, key: Seq<char>, i: int) -> int
    decreases fs.len() - i,
{
    if i < 0 || i >= fs.len() {
        -1
    } else if fs[i].0 == key {
        i
    } else {
        wdb_find_key(fs, key, i + 1)
    }
}

pub open spec fn alias_find(al: Seq<(Seq<char>, Seq<char>)>, key: Seq<char>, i: int) -> int
    decreases al.len() - i,
{
    if i < 0 || i >= al.len() {
        -1
    } else if al[i].0 == key {
        i
    } else {
        alias_find(al, key, i + 1)
    }
}

pub open spec fn wdb_find_partial(fs: Seq<(Seq<char>, WebFontV)>, key: Seq<char>, i: int) -> int
    decreases fs.len() - i,
{
    if i < 0 || i >= fs.len() {
        -1
    } else if contains_sub(fs[i].0, key) || contains_sub(key, fs[i].0) {
        i
    } else {
        wdb_find_partial(fs, key, i + 1)
    }
}

/// The face `find_font` returns for a family name: direct key, then
/// alias, then first partial match.
pub open spec fn wdb_lookup(d: WebFontDatabaseV, family: Seq<char>) -> Option<WebFontV> {
    let key = web_key(family);
    let k = wdb_find_key(d.fonts, key, 0);
    if k >= 0 {
        Some(d.fonts[k].1)
    } else {
        let a = alias_find(d.family_aliases, key, 0);
        if a >= 0 {
            let k2 = wdb_find_key(d.fonts, d.family_aliases[a].1, 0);
            if k2 >= 0 {
                Some(d.fonts[k2].1)
            } else {
                let p = wdb_find_partial(d.fonts, key, 0);
                if p >= 0 {
                    Some(d.fonts[p].1)
                } else {
                    None
                }
            }
        } else {
            let p = wdb_find_partial(d.fonts, key, 0);
            if p >= 0 {
                Some(d.fonts[p].1)
            } else {
                None
            }
        }
    }
}

/// The category guessed for a family the database lacks, from its name.
pub open spec fn guessed_category(family: Seq<char>) -> FontCategory {
    let low = lower_seq(family);
    if contains_sub(low, "mono"@) || contains_sub(low, "console"@) {
        FontCategory::Monospace
    } else if contains_sub(low, "serif"@) {
        FontCategory::Serif
    } else if contains_sub(low, "script"@) || contains_sub(low, "hand"@) {
        FontCategory::Handwriting
    } else {
        FontCategory::SansSerif
    }
}

/// `f` may stand in for `b` in database `d`: either `b` lists a name that
/// resolves to `f`, or `f` is another family of `b`'s category.
pub open spec fn similar_ok(d: WebFontDatabaseV, b: WebFontV, f: WebFontV) -> bool {
    ||| (exists|j: int|
        0 <= j < b.similar_fonts.len() && wdb_lookup(d, #[trigger] b.similar_fonts[j]) == Some(f))
    ||| (f.category == b.category && f.family != b.family)
}

proof fn lemma_find_key_range(fs: Seq<(Seq<char>, WebFontV)>, key: Seq<char>, i: int)
    requires
        0 <= i <= fs.len(),
    ensures
        ({
            let k = wdb_find_key(fs, key, i);
            k == -1 || (i <= k < fs.len())
        }),
    decreases fs.len() - i,
{
    if i < fs.len() && fs[i].0 != key {
        lemma_find_key_range(fs, key, i + 1);
    }
}

proof fn lemma_find_partial_range(fs: Seq<(Seq<char>, WebFontV)>, key: Seq<char>, i: int)
    requires
        0 <= i <= fs.len(),
    ensures
        ({
            let p = wdb_find_partial(fs, key, i);
            p == -1 || (i <= p < fs.len())
        }),
    decreases fs.len() - i,
{
    if i < fs.len() && !(contains_sub(fs[i].0, key) || contains_sub(key, fs[i].0)) {
        lemma_find_partial_range(fs, key, i + 1);
    }
}

/// Whatever `wdb_lookup` returns is a face held by the database.
pub proof fn lemma_lookup_member(d: WebFontDatabaseV, fam: Seq<char>, f: WebFontV)
    requires
        wdb_lookup(d, fam) == Some(f),
    ensures
        exists|k: int| 0 <= k < d.fonts.len() && (#[trigger] d.fonts[k]).1 == f,
{
    let key = web_key(fam);
    lemma_find_key_range(d.fonts, key, 0);
    let k = wdb_find_key(d.fonts, key, 0);
    if k >= 0 {
        assert(d.fonts[k].1 == f);
    } else {
        let a = alias_find(d.family_aliases, key, 0);
        if a >= 0 {
            lemma_find_key_range(d.fonts, d.family_aliases[a].1, 0);
            let k2 = wdb_find_key(d.fonts, d.family_aliases[a].1, 0);
            if k2 >= 0 {
                assert(d.fonts[k2].1 == f);
            } else {
                lemma_find_partial_range(d.fonts, key, 0);
                let p = wdb_find_partial(d.fonts, key, 0);
                assert(d.fonts[p].1 == f);
            }
        } else {
            lemma_find_partial_range(d.fonts, key, 0);
            let p = wdb_find_partial(d.fonts, key, 0);
            assert(d.fonts[p].1 == f);
        }
    }
}

proof fn lemma_key_chain(fs: Seq<(Seq<char>, WebFontV)>, key: Seq<char>, j: int, i: int)
    requires
        0 <= j <= i <= fs.len(),
        forall|k: int| j <= k < i ==> (#[trigger] fs[k]).0 != key,
        i < fs.len() ==> fs[i].0 == key,
    ensures
        i < fs.len() ==> wdb_find_key(fs, key, j) == i,
        i == fs.len() ==> wdb_find_key(fs, key, j) == -1,
    decreases i - j,
{
    if j < i {
        lemma_key_chain(fs, key, j + 1, i);
    } else if i == fs.len() {
        lemma_key_none(fs, key, j);
    }
}

proof fn lemma_key_none(fs: Seq<(Seq<char>, WebFontV)>, key: Seq<char>, j: int)
    requires
        0 <= j,
        forall|k: int| j <= k < fs.len() ==> (#[trigger] fs[k]).0 != key,
    ensures
        wdb_find_key(fs, key, j) == -1,
    decreases fs.len() - j,
{
    if j < fs.len() {
        lemma_key_none(fs, key, j + 1);
    }
}

proof fn lemma_alias_chain(al: Seq<(Seq<char>, Seq<char>)>, key: Seq<char>, j: int, i: int)
    requires
        0 <= j <= i <= al.len(),
        forall|k: int| j <= k < i ==> (#[trigger] al[k]).0 != key,
        i < al.len() ==> al[i].0 == key,
    ensures
        i < al.len() ==> alias_find(al, key, j) == i,
        i == al.len() ==> alias_find(al, key, j) == -1,
    decreases i - j,
{
    if j < i {
        lemma_alias_chain(al, key, j + 1, i);
    } else if i == al.len() {
        lemma_alias_none(al, key, j);
    }
}

proof fn lemma_alias_none(al: Seq<(Seq<char>, Seq<char>)>, key: Seq<char>, j: int)
    requires
        0 <= j,
        forall|k: int| j <= k < al.len() ==> (#[trigger] al[k]).0 != key,
    ensures
        alias_find(al, key, j) == -1,
    decreases al.len() - j,
{
    if j < al.len() {
        lemma_alias_none(al, key, j + 1);
    }
}

proof fn lemma_partial_chain(fs: Seq<(Seq<char>, WebFontV)>, key: Seq<char>, j: int, i: int)
    requires
        0 <= j <= i <= fs.len(),
        forall|k: int|
            j <= k < i ==> !(contains_sub((#[trigger] fs[k]).0, key) || contains_sub(
                key,
                fs[k].0,
            )),
        i < fs.len() ==> (contains_sub(fs[i].0, key) || contains_sub(key, fs[i].0)),
    ensures
        i < fs.len() ==> wdb_find_partial(fs, key, j) == i,
        i == fs.len() ==> wdb_find_partial(fs, key, j) == -1,
    decreases i - j,
{
    if j < i {
        lemma_partial_chain(fs, key, j + 1, i);
    } else if i == fs.len() {
        lemma_partial_none(fs, key, j);
    }
}

proof fn lemma_partial_none(fs: Seq<(Seq<char>, WebFontV)>, key: Seq<char>, j: int)
    requires
        0 <= j,
        forall|k: int|
            j <= k < fs.len() ==> !(contains_sub((#[trigger] fs[k]).0, key) || contains_sub(
                key,
                fs[k].0,
            )),
    ensures
        wdb_find_partial(fs, key, j) == -1,
    decreases fs.len() - j,
{
    if j < fs.len() {
        lemma_partial_none(fs, key, j + 1);
    }
}

impl WebFontDatabase {
    /// The minimal built-in database: Roboto with two variants, and
    /// aliases from the common commercial names.
    pub fn create_minimal_database() -> (r: WebFontDatabase)
        ensures
            r@.fonts.len() == 1,
            r@.fonts[0].0 == "roboto"@,
            r@.fonts[0].1.family == "Roboto"@,
            r@.fonts[0].1.variants.len() == 2,
            r@.family_aliases.len() == 3,
            r@.version == "0.1.0-minimal"@,
    {
        let mut variants: Vec<WebFontVariant> = Vec::new();
        variants.push(
            WebFontVariant {
                weight: 400,
                italic: false,
                style: "Regular".to_owned(),
                file_url: String::new(),
                file_format: FontFormat::Ttf,
                file_size_kb: 150,
            },
        );
        variants.push(
            WebFontVariant {
                weight: 700,
                italic: false,
                style: "Bold".to_owned(),
                file_url: String::new(),
                file_format: FontFormat::Ttf,
                file_size_kb: 160,
            },
        );
        let mut similar: Vec<String> = Vec::new();
        similar.push("open-sans".to_owned());
        similar.push("lato".to_owned());
        let roboto = WebFont {
            family: "Roboto".to_owned(),
            variants,
            category: FontCategory::SansSerif,
            popularity: 95,
            last_updated: "2024-01-01".to_owned(),
            license: WebFontLicense {
                name: "Apache License 2.0".to_owned(),
                url: "http://www.apache.org/licenses/LICENSE-2.0".to_owned(),
                allows_commercial_use: true,
                allows_modification: true,
                requires_attribution: false,
            },
            similar_fonts: similar,
        };
        let mut fonts: Vec<(String, WebFont)> = Vec::new();
        fonts.push(("roboto".to_owned(), roboto));
        let mut aliases: Vec<(String, String)> = Vec::new();
        aliases.push(("arial".to_owned(), "roboto".to_owned()));
        aliases.push(("helvetica".to_owned(), "roboto".to_owned()));
        aliases.push(("sans-serif".to_owned(), "roboto".to_owned()));
        WebFontDatabase { fonts, family_aliases: aliases, version: "0.1.0-minimal".to_owned() }
    }

    /// The built-in database; richer data arrives through the embedding
    /// program's own channels.
    pub fn load_embedded() -> (r: WebFontDatabase)
        ensures
            r@.fonts.len() == 1,
    {
        Self::create_minimal_database()
    }

    pub fn get_fonts(&self) -> (r: &Vec<(String, WebFont)>)
        ensures
            r@.map_values(|p: (String, WebFont)| (p.0@, p.1@)) == self@.fonts,
    {
        &self.fonts
    }

    pub fn is_loaded(&self) -> (r: bool)
        ensures
            r == (self@.fonts.len() > 0),
    {
        self.fonts.len() > 0
    }

    pub fn count(&self) -> (r: usize)
        ensures
            r == self@.fonts.len(),
    {
        self.fonts.len()
    }

    pub fn version(&self) -> (r: &String)
        ensures
            r@ == self@.version,
    {
        &self.version
    }

    /// Two kilobytes per family, as a rough resident-size figure.
    pub fn memory_usage_kb(&self) -> (r: usize)
        ensures
            r as int == spec_min_usage(self@.fonts.len() as int),
    {
        if self.fonts.len() > usize::MAX / 2 {
            usize::MAX
        } else {
            self.fonts.len() * 2
        }
    }

    /// Finds a family: exact key, then alias, then partial match.
    #[verifier::loop_isolation(false)]
    pub fn find_font(&self, family: &str) -> (r: Option<&WebFont>)
        ensures
            match r {
                Some(f) => wdb_lookup(self@, family@) == Some(f@),
                None => wdb_lookup(self@, family@) is None,
            },
    {
        let fc = str_chars(family);
        let keyv = normalize_key(&fc);
        let key = chars_string(&keyv);
        let ghost fs = self@.fonts;
        let ghost kv = web_key(family@);
        let mut i: usize = 0;
        while i < self.fonts.len()
            invariant
                i <= fs.len(),
                key@ == kv,
                forall|k: int| 0 <= k < i ==> (#[trigger] fs[k]).0 != kv,
            decreases fs.len() - i,
        {
            if eq_str(&self.fonts[i].0, &key) {
                proof {
                    lemma_key_chain(fs, kv, 0, i as int);
                }
                return Some(&self.fonts[i].1);
            }
            i += 1;
        }
        proof {
            lemma_key_chain(fs, kv, 0, fs.len() as int);
        }
        let ghost al = self@.family_aliases;
        let mut i: usize = 0;
        while i < self.family_aliases.len()
            invariant
                i <= al.len(),
                key@ == kv,
                forall|k: int| 0 <= k < i ==> (#[trigger] al[k]).0 != kv,
            decreases al.len() - i,
        {
            if eq_str(&self.family_aliases[i].0, &key) {
                proof {
                    lemma_alias_chain(al, kv, 0, i as int);
                }
                let target = &self.family_aliases[i].1;
                let ghost tv = al[i as int].1;
                let mut j: usize = 0;
                while j < self.fonts.len()
                    invariant
                        j <= fs.len(),
                        tv == al[i as int].1,
                        i < al.len(),
                        alias_find(al, kv, 0) == i as int,
                        forall|k: int| 0 <= k < j ==> (#[trigger] fs[k]).0 != tv,
                    decreases fs.len() - j,
                {
                    if eq_str(&self.fonts[j].0, target) {
                        proof {
                            lemma_key_chain(fs, tv, 0, j as int);
                        }
                        return Some(&self.fonts[j].1);
                    }
                    j += 1;
                }
                proof {
                    lemma_key_chain(fs, tv, 0, fs.len() as int);
                }
                return self.find_partial(&keyv);
            }
            i += 1;
        }
        proof {
            lemma_alias_chain(al, kv, 0, al.len() as int);
        }
        self.find_partial(&keyv)
    }

    #[verifier::loop_isolation(false)]
    fn find_partial(&self, keyv: &Vec<char>) -> (r: Option<&WebFont>)
        ensures
            ({
                let p = wdb_find_partial(self@.fonts, keyv@, 0);
                match r {
                    Some(f) => p >= 0 && f@ == self@.fonts[p].1,
                    None => p == -1,
                }
            }),
    {
        let ghost fs = self@.fonts;
        let mut i: usize = 0;
        while i < self.fonts.len()
            invariant
                i <= fs.len(),
                forall|k: int|
                    0 <= k < i ==> !(contains_sub((#[trigger] fs[k]).0, keyv@) || contains_sub(
                        keyv@,
                        fs[k].0,
                    )),
            decreases fs.len() - i,
        {
            let kc = string_chars(&self.fonts[i].0);
            if contains_vec(&kc, keyv) || contains_vec(keyv, &kc) {
                proof {
                    lemma_partial_chain(fs, keyv@, 0, i as int);
                }
                return Some(&self.fonts[i].1);
            }
            i += 1;
        }
        proof {
            lemma_partial_chain(fs, keyv@, 0, fs.len() as int);
        }
        None
    }

    /// Families that can stand in: first the faces the base lists as
    /// similar, then other families of the base's category; when the base
    /// is unknown, families of the category its name suggests. No family
    /// appears twice and everything returned lives in the database.
    #[verifier::loop_isolation(false)]
    pub fn find_similar_fonts(&self, family: &str, limit: usize) -> (r: Vec<WebFont>)
        ensures
            r@.len() <= limit,
            forall|i: int|
                0 <= i < r@.len() ==> exists|k: int|
                    0 <= k < self@.fonts.len() && (#[trigger] r@[i])@ == self@.fonts[k].1,
            forall|x: int, y: int|
                0 <= x < y < r@.len() ==> (#[trigger] r@[x])@.family != (#[trigger] r@[y])@.family,
            match wdb_lookup(self@, family@) {
                Some(b) => forall|i: int|
                    0 <= i < r@.len() ==> similar_ok(self@, b, (#[trigger] r@[i])@),
                None => forall|i: int|
                    0 <= i < r@.len() ==> (#[trigger] r@[i])@.category == guessed_category(
                        family@,
                    ),
            },
    {
        let mut results: Vec<WebFont> = Vec::new();
        if limit == 0 {
            return results;
        }
        match self.find_font(family) {
            Some(f) => {
                let ghost bv = f@;
                let mut j: usize = 0;
                while j < f.similar_fonts.len()
                    invariant
                        results@.len() <= limit,
                        j <= f.similar_fonts@.len(),
                        bv == f@,
                        wdb_lookup(self@, family@) == Some(bv),
                        forall|x: int|
                            0 <= x < results@.len() ==> exists|k: int|
                                0 <= k < self@.fonts.len() && (#[trigger] results@[x])@
                                    == self@.fonts[k].1,
                        forall|x: int, y: int|
                            0 <= x < y < results@.len() ==> (#[trigger] results@[x])@.family
                                != (#[trigger] results@[y])@.family,
                        forall|x: int|
                            0 <= x < results@.len() ==> similar_ok(
                                self@,
                                bv,
                                (#[trigger] results@[x])@,
                            ),
                    decreases f.similar_fonts@.len() - j,
                {
                    if results.len() >= limit {
                        break ;
                    }
                    if let Some(s) = self.find_font(f.similar_fonts[j].as_str()) {
                        if !family_used(&results, &s.family) {
                            let ghost r0 = results@;
                            let dup = duplicate_webfont(s);
                            results.push(dup);
                            proof {
                                assert(results@[r0.len() as int]@ == s@);
                                lemma_lookup_member(self@, f.similar_fonts@[j as int]@, s@);
                                assert(bv.similar_fonts[j as int] == f.similar_fonts@[
                                    j as int]@);
                                assert(similar_ok(self@, bv, s@));
                            }
                        }
                    }
                    j += 1;
                }
                let mut i: usize = 0;
                while i < self.fonts.len()
                    invariant
                        results@.len() <= limit,
                        i <= self@.fonts.len(),
                        bv == f@,
                        forall|x: int|
                            0 <= x < results@.len() ==> exists|k: int|
                                0 <= k < self@.fonts.len() && (#[trigger] results@[x])@
                                    == self@.fonts[k].1,
                        forall|x: int, y: int|
                            0 <= x < y < results@.len() ==> (#[trigger] results@[x])@.family
                                != (#[trigger] results@[y])@.family,
                        forall|x: int|
                            0 <= x < results@.len() ==> similar_ok(
                                self@,
                                bv,
                                (#[trigger] results@[x])@,
                            ),
                    decreases self@.fonts.len() - i,
                {
                    if results.len() >= limit {
                        break ;
                    }
                    let p = &self.fonts[i];
                    if p.1.category == f.category && !eq_str(&p.1.family, &f.family)
                        && !family_used(&results, &p.1.family) {
                        let ghost r0 = results@;
                        let dup = duplicate_webfont(&p.1);
                        results.push(dup);
                        proof {
                            assert(results@[r0.len() as int]@ == self@.fonts[i as int].1);
                            assert(similar_ok(self@, bv, results@[r0.len() as int]@));
                        }
                    }
                    i += 1;
                }
            },
            None => {
                let fc = str_chars(family);
                let low = lower_vec(&fc);
                let cat = if has2(&low, "mono") || has2(&low, "console") {
                    FontCategory::Monospace
                } else if has2(&low, "serif") {
                    FontCategory::Serif
                } else if has2(&low, "script") || has2(&low, "hand") {
                    FontCategory::Handwriting
                } else {
                    FontCategory::SansSerif
                };
                proof {
                    assert(cat == guessed_category(family@));
                }
                let mut i: usize = 0;
                while i < self.fonts.len()
                    invariant
                        results@.len() <= limit,
                        i <= self@.fonts.len(),
                        cat == guessed_category(family@),
                        forall|x: int|
                            0 <= x < results@.len() ==> exists|k: int|
                                0 <= k < self@.fonts.len() && (#[trigger] results@[x])@
                                    == self@.fonts[k].1,
                        forall|x: int, y: int|
                            0 <= x < y < results@.len() ==> (#[trigger] results@[x])@.family
                                != (#[trigger] results@[y])@.family,
                        forall|x: int|
                            0 <= x < results@.len() ==> (#[trigger] results@[x])@.category == cat,
                    decreases self@.fonts.len() - i,
                {
                    if results.len() >= limit {
                        break ;
                    }
                    let p = &self.fonts[i];
                    if p.1.category == cat && !family_used(&results, &p.1.family) {
                        let ghost r0 = results@;
                        let dup = duplicate_webfont(&p.1);
                        results.push(dup);
                        proof {
                            assert(results@[r0.len() as int]@ == self@.fonts[i as int].1);
                        }
                    }
                    i += 1;
                }
            },
        }
        results
    }

    /// A full descriptor for a chosen variant; web faces carry default
    /// metrics on a 1000-unit grid.
    pub fn to_font_descriptor(&self, web_font: &WebFont, variant: &WebFontVariant) -> (r:
        FontDescriptor)
        ensures
            r@ == web_descriptor(web_font@, variant@),
    {
        let mut ps: Vec<char> = Vec::new();
        let famc = string_chars(&web_font.family);
        append_chars(&mut ps, &famc);
        append_lit(&mut ps, "-");
        let stylec = string_chars(&variant.style);
        append_chars(&mut ps, &stylec);
        let mut full: Vec<char> = Vec::new();
        append_chars(&mut full, &famc);
        append_lit(&mut full, " ");
        append_chars(&mut full, &stylec);
        FontDescriptor {
            family: web_font.family.clone(),
            subfamily: Some(variant.style.clone()),
            postscript_name: chars_string(&ps),
            full_name: Some(chars_string(&full)),
            path: variant.file_url.clone(),
            format: variant.file_format,
            weight: variant.weight,
            italic: variant.italic,
            monospaced: web_font.category == FontCategory::Monospace,
            variable: false,
            metrics: Some(
                FontMetrics {
                    units_per_em: 1000,
                    ascender: 800,
                    descender: -200,
                    x_height: 500,
                    cap_height: 700,
                    average_width: 500,
                    max_advance_width: 1200,
                },
            ),
            license: Some(
                LicenseInfo {
                    name: web_font.license.name.clone(),
                    url: Some(web_font.license.url.clone()),
                    allows_embedding: true,
                    allows_modification: web_font.license.allows_modification,
                    requires_attribution: web_font.license.requires_attribution,
                    allows_commercial_use: web_font.license.allows_commercial_use,
                },
            ),
        }
    }
}

/// The descriptor a web face yields for one of its variants.
pub open spec fn web_descriptor(wf: WebFontV, v: WebFontVariantV) -> FontDescriptorV {
    FontDescriptorV {
        family: wf.family,
        subfamily: Some(v.style),
        postscript_name: wf.family + "-"@ + v.style,
        full_name: Some(wf.family + " "@ + v.style),
        path: v.file_url,
        format: v.file_format,
        weight: v.weight,
        italic: v.italic,
        monospaced: wf.category == FontCategory::Monospace,
        variable: false,
        metrics: Some(default_web_metrics()),
        license: Some(
            (crate::types::LicenseInfoV {
                name: wf.license.name,
                url: Some(wf.license.url),
                allows_embedding: true,
                allows_modification: wf.license.allows_modification,
                requires_attribution: wf.license.requires_attribution,
                allows_commercial_use: wf.license.allows_commercial_use,
            }),
        ),
    }
}

/// The first variant with the wanted weight and slant, or -1.
pub open spec fn var_find(vs: Seq<WebFontVariantV>, weight: u16, italic: bool, i: int) -> int
    decreases vs.len() - i,
{
    if i < 0 || i >= vs.len() {
        -1
    } else if vs[i].weight == weight && vs[i].italic == italic {
        i
    } else {
        var_find(vs, weight, italic, i + 1)
    }
}

pub proof fn lemma_var_chain(vs: Seq<WebFontVariantV>, weight: u16, italic: bool, j: int, i: int)
    requires
        0 <= j <= i <= vs.len(),
        forall|k: int|
            j <= k < i ==> !((#[trigger] vs[k]).weight == weight && vs[k].italic == italic),
        i < vs.len() ==> vs[i].weight == weight && vs[i].italic == italic,
    ensures
        i < vs.len() ==> var_find(vs, weight, italic, j) == i,
        i == vs.len() ==> var_find(vs, weight, italic, j) == -1,
    decreases i - j,
{
    if j < i {
        lemma_var_chain(vs, weight, italic, j + 1, i);
    }
}

/// The face a web family contributes when asked for a weight and slant:
/// the first matching variant, else the first variant, else nothing.
pub open spec fn web_pick(wf: WebFontV, weight: u16, italic: bool) -> Option<FontDescriptorV> {
    let k = var_find(wf.variants, weight, italic, 0);
    if k >= 0 {
        Some(web_descriptor(wf, wf.variants[k]))
    } else if wf.variants.len() > 0 {
        Some(web_descriptor(wf, wf.variants[0]))
    } else {
        None
    }
}

/// One face per web family, preferring the regular 400 upright variant.
pub open spec fn web_faces(fs: Seq<(Seq<char>, WebFontV)>, i: int) -> Seq<FontDescriptorV>
    decreases fs.len() - i,
{
    if i < 0 || i >= fs.len() {
        Seq::empty()
    } else {
        match web_pick(fs[i].1, 400, false) {
            Some(d) => seq![d] + web_faces(fs, i + 1),
            None => web_faces(fs, i + 1),
        }
    }
}

pub open spec fn default_web_metrics() -> FontMetrics {
    FontMetrics {
        units_per_em: 1000,
        ascender: 800,
        descender: -200i16,
        x_height: 500,
        cap_height: 700,
        average_width: 500,
        max_advance_width: 1200,
    }
}

pub open spec fn spec_min_usage(n: int) -> int {
    if n * 2 > usize::MAX {
        usize::MAX as int
    } else {
        n * 2
    }
}

fn normalize_key(fc: &Vec<char>) -> (r: Vec<char>)
    ensures
        r@ == web_key(fc@),
{
    let mut out: Vec<char> = Vec::new();
    let mut i: usize = 0;
    #[verifier::loop_isolation(false)]
    while i < fc.len()
        invariant
            i <= fc@.len(),
            out@.len() == i,
            forall|j: int| 0 <= j < i ==> out@[j] == web_key(fc@)[j],
        decreases fc@.len() - i,
    {
        let c = fc[i];
        if c == ' ' {
            out.push('-');
        } else {
            out.push(crate::text::lower_char(c));
        }
        i += 1;
    }
    proof {
        assert(out@ =~= web_key(fc@));
    }
    out
}

fn eq_str(a: &String, b: &String) -> (r: bool)
    ensures
        r == (a@ == b@),
{
    let av = string_chars(a);
    let bv = string_chars(b);
    eq_vec(&av, &bv)
}

fn family_used(results: &Vec<WebFont>, fam: &String) -> (r: bool)
    ensures
        r == exists|k: int| 0 <= k < results@.len() && (#[trigger] results@[k])@.family == fam@,
{
    let mut i: usize = 0;
    while i < results.len()
        invariant
            i <= results@.len(),
            forall|k: int| 0 <= k < i ==> (#[trigger] results@[k])@.family != fam@,
        decreases results@.len() - i,
    {
        if eq_str(&results[i].family, fam) {
            return true;
        }
        i += 1;
    }
    false
}

fn has2(low: &Vec<char>, kw: &str) -> (r: bool)
    ensures
        r == contains_sub(low@, kw@),
{
    let k = str_chars(kw);
    contains_vec(low, &k)
}

fn duplicate_webfont(f: &WebFont) -> (r: WebFont)
    ensures
        r@ == f@,
{
    let mut variants: Vec<WebFontVariant> = Vec::new();
    let mut i: usize = 0;
    #[verifier::loop_isolation(false)]
    while i < f.variants.len()
        invariant
            i <= f.variants@.len(),
            variants@.len() == i,
            forall|j: int| 0 <= j < i ==> (#[trigger] variants@[j])@ == f.variants@[j]@,
        decreases f.variants@.len() - i,
    {
        let v = &f.variants[i];
        variants.push(
            WebFontVariant {
                weight: v.weight,
                italic: v.italic,
                style: v.style.clone(),
                file_url: v.file_url.clone(),
                file_format: v.file_format,
                file_size_kb: v.file_size_kb,
            },
        );
        i += 1;
    }
    let mut similar: Vec<String> = Vec::new();
    let mut i: usize = 0;
    #[verifier::loop_isolation(false)]
    while i < f.similar_fonts.len()
        invariant
            i <= f.similar_fonts@.len(),
            similar@.len() == i,
            forall|j: int| 0 <= j < i ==> #[trigger] similar@[j]@ == f.similar_fonts@[j]@,
        decreases f.similar_fonts@.len() - i,
    {
        similar.push(f.similar_fonts[i].clone());
        i += 1;
    }
    let r = WebFont {
        family: f.family.clone(),
        variants,
        category: f.category,
        popularity: f.popularity,
        last_updated: f.last_updated.clone(),
        license: WebFontLicense {
            name: f.license.name.clone(),
            url: f.license.url.clone(),
            allows_commercial_use: f.license.allows_commercial_use,
            allows_modification: f.license.allows_modification,
            requires_attribution: f.license.requires_attribution,
        },
        similar_fonts: similar,
    };
    proof {
        assert(r@.variants =~= f@.variants);
        assert(r@.similar_fonts =~= f@.similar_fonts);
    }
    r
}

} // verus!
