//! Source management: which places supply faces, in what order, and a
//! name-keyed cache over the faces the embedding program has scanned.
//! The directory walking itself is plain file I/O and stays with the
//! embedding program; scanned faces are handed in as values.

use vstd::prelude::*;

use crate::text::{contains_sub, eq_vec, lower_seq, lower_vec, str_chars, string_chars};
use crate::types::{FontDescriptor, FontDescriptorV, FontSourcePriority, FontSourcePriorityV};
use crate::webdb::WebFontDatabase;
use crate::FontError;
use crate::FontResult;

verus! {

pub enum SourceTypeV {
    System,
    Web,
    File(Seq<char>),
    Directory(Seq<char>),
    Url(Seq<char>),
    Api { endpoint: Seq<char>, api_key: Option<Seq<char>>, cache_ttl_seconds: u64 },
}

#[derive(Debug, Clone)]
pub enum SourceType {
    System,
    Web,
    File(String),
    Directory(String),
    Url(String),
    Api { endpoint: String, api_key: Option<String>, cache_ttl_seconds: u64 },
}

impl View for SourceType {
    type V = SourceTypeV;

    open spec fn view(&self) -> SourceTypeV {
        match self {
            SourceType::System => SourceTypeV::System,
            SourceType::Web => SourceTypeV::Web,
            SourceType::File(p) => SourceTypeV::File(p@),
            SourceType::Directory(p) => SourceTypeV::Directory(p@),
            SourceType::Url(u) => SourceTypeV::Url(u@),
            SourceType::Api { endpoint, api_key, cache_ttl_seconds } => SourceTypeV::Api {
                endpoint: endpoint@,
                api_key: match api_key {
                    Some(k) => Some(k@),
                    None => None,
                },
                cache_ttl_seconds: *cache_ttl_seconds,
            },
        }
    }
}

#[derive(Debug, Clone, Copy, PartialEq, Eq, Structural)]
pub enum SourceStatus {
    Enabled,
    Disabled,
}

/// The row that `list_sources` shows for the custom source at position `i`.
pub open spec fn custom_source_info(s: SourceTypeV, i: usize) -> SourceInfoV {
    match s {
        SourceTypeV::File(p) => SourceInfoV {
            source_type: "File"@,
            description: "File: "@ + p,
            status: SourceStatus::Enabled,
            index: Some(i),
        },
        SourceTypeV::Directory(p) => SourceInfoV {
            source_type: "Directory"@,
            description: "Directory: "@ + p,
            status: SourceStatus::Enabled,
            index: Some(i),
        },
        SourceTypeV::Url(u) => SourceInfoV {
            source_type: "URL"@,
            description: "URL: "@ + u,
            status: SourceStatus::Enabled,
            index: Some(i),
        },
        SourceTypeV::Api { endpoint, .. } => SourceInfoV {
            source_type: "API"@,
            description: "API: "@ + endpoint,
            status: SourceStatus::Enabled,
            index: Some(i),
        },
        _ => SourceInfoV {
            source_type: "Unknown"@,
            description: "Unknown source"@,
            status: SourceStatus::Enabled,
            index: Some(i),
        },
    }
}

pub struct SourceInfoV {
    pub source_type: Seq<char>,
    pub description: Seq<char>,
    pub status: SourceStatus,
    pub index: Option<usize>,
}

#[derive(Debug, Clone)]
pub struct SourceInfo {
    pub source_type: String,
    pub description: String,
    pub status: SourceStatus,
    pub index: Option<usize>,
}

impl View for SourceInfo {
    type V = SourceInfoV;

    open spec fn view(&self) -> SourceInfoV {
        SourceInfoV {
            source_type: self.source_type@,
            description: self.description@,
            status: self.status,
            index: self.index,
        }
    }
}

pub struct FontSourceManagerV {
    pub system_count: int,
    pub web_count: int,
    pub custom_sources: Seq<SourceTypeV>,
    pub priority: FontSourcePriorityV,
    pub web_db: Option<crate::webdb::WebFontDatabaseV>,
    pub font_cache: Seq<(Seq<char>, FontDescriptorV)>,
    pub scanned: Seq<FontDescriptorV>,
}

/// Owns the source list, the priority, the optional web database, and
/// the faces the embedding program has scanned so far.
pub struct FontSourceManager {
    system_sources: Vec<SourceType>,
    web_sources: Vec<SourceType>,
    custom_sources: Vec<SourceType>,
    priority: FontSourcePriority,
    web_db: Option<WebFontDatabase>,
    font_cache: Vec<(String, FontDescriptor)>,
    scanned: Vec<FontDescriptor>,
}

impl View for FontSourceManager {
    type V = FontSourceManagerV;

    closed spec fn view(&self) -> FontSourceManagerV {
        FontSourceManagerV {
            system_count: self.system_sources@.len() as int,
            web_count: self.web_sources@.len() as int,
            custom_sources: self.custom_sources@.map_values(|s: SourceType| s@),
            priority: self.priority@,
            web_db: match self.web_db {
                Some(d) => Some(d@),
                None => None,
            },
            font_cache: self.font_cache@.map_values(
                |p: (String, FontDescriptor)| (p.0@, p.1@),
            ),
            scanned: self.scanned@.map_values(|f: FontDescriptor| f@),
        }
    }
}

pub open spec fn starts_http(u: Seq<char>) -> bool {
    crate::text::starts_with_seq(u, "http://"@) || crate::text::starts_with_seq(u, "https://"@)
}

pub open spec fn cache_find(fc: Seq<(Seq<char>, FontDescriptorV)>, name: Seq<char>, i: int) -> int
    decreases fc.len() - i,
{
    if i < 0 || i >= fc.len() {
        -1
    } else if fc[i].0 == name {
        i
    } else {
        cache_find(fc, name, i + 1)
    }
}

pub open spec fn scanned_find(fs: Seq<FontDescriptorV>, fam_low: Seq<char>, i: int) -> int
    decreases fs.len() - i,
{
    if i < 0 || i >= fs.len() {
        -1
    } else if lower_seq(fs[i].family) == fam_low {
        i
    } else {
        scanned_find(fs, fam_low, i + 1)
    }
}

proof fn lemma_cache_chain(fc: Seq<(Seq<char>, FontDescriptorV)>, name: Seq<char>, j: int, i: int)
    requires
        0 <= j <= i <= fc.len(),
        forall|k: int| j <= k < i ==> (#[trigger] fc[k]).0 != name,
        i < fc.len() ==> fc[i].0 == name,
    ensures
        i < fc.len() ==> cache_find(fc, name, j) == i,
        i == fc.len() ==> cache_find(fc, name, j) == -1,
    decreases i - j,
{
    if j < i {
        lemma_cache_chain(fc, name, j + 1, i);
    }
}

proof fn lemma_scanned_chain(fs: Seq<FontDescriptorV>, fam: Seq<char>, j: int, i: int)
    requires
        0 <= j <= i <= fs.len(),
        forall|k: int| j <= k < i ==> lower_seq((#[trigger] fs[k]).family) != fam,
        i < fs.len() ==> lower_seq(fs[i].family) == fam,
    ensures
        i < fs.len() ==> scanned_find(fs, fam, j) == i,
        i == fs.len() ==> scanned_find(fs, fam, j) == -1,
    decreases i - j,
{
    if j < i {
        lemma_scanned_chain(fs, fam, j + 1, i);
    }
}

impl FontSourceManager {
    /// A manager that starts with the system source alone.
    pub fn new() -> (r: FontSourceManager)
        ensures
            r@.system_count == 1,
            r@.web_count == 0,
            r@.custom_sources.len() == 0,
            r@.priority == FontSourcePriorityV::SystemOnly,
            r@.web_db is None,
            r@.font_cache.len() == 0,
            r@.scanned.len() == 0,
    {
        let mut system: Vec<SourceType> = Vec::new();
        system.push(SourceType::System);
        let r = FontSourceManager {
            system_sources: system,
            web_sources: Vec::new(),
            custom_sources: Vec::new(),
            priority: FontSourcePriority::SystemOnly,
            web_db: None,
            font_cache: Vec::new(),
            scanned: Vec::new(),
        };
        proof {
            assert(r@.custom_sources =~= Seq::<SourceTypeV>::empty());
            assert(r@.font_cache =~= Seq::<(Seq<char>, FontDescriptorV)>::empty());
            assert(r@.scanned =~= Seq::<FontDescriptorV>::empty());
        }
        r
    }

    /// Turns the bundled web database on or off.
    pub fn enable_web_fonts(&mut self, enable: bool) -> (r: FontResult<()>)
        ensures
            r is Ok,
            enable ==> final(self)@.web_db is Some && final(self)@.web_count == 1,
            !enable ==> final(self)@.web_db is None && final(self)@.web_count == 0,
            final(self)@.custom_sources == old(self)@.custom_sources,
            final(self)@.font_cache == old(self)@.font_cache,
            final(self)@.scanned == old(self)@.scanned,
            final(self)@.priority == old(self)@.priority,
    {
        if enable {
            if self.web_db.is_none() {
                let db = WebFontDatabase::load_embedded();
                self.web_db = Some(db);
                let mut web: Vec<SourceType> = Vec::new();
                web.push(SourceType::Web);
                self.web_sources = web;
            } else {
                if self.web_sources.len() != 1 {
                    let mut web: Vec<SourceType> = Vec::new();
                    web.push(SourceType::Web);
                    self.web_sources = web;
                }
            }
        } else {
            self.web_db = None;
            self.web_sources = Vec::new();
        }
        Ok(())
    }

    /// Accepts a custom source.  A URL or API endpoint must be HTTP(S);
    /// files and directories are taken as given (the embedding program
    /// checks that they exist before calling).
    pub fn add_custom_source(&mut self, source: SourceType) -> (r: FontResult<()>)
        ensures
            match source@ {
                SourceTypeV::Url(u) => {
                    &&& (starts_http(u) <==> r is Ok)
                    &&& (r is Ok ==> final(self)@.custom_sources == old(
                        self,
                    )@.custom_sources.push(source@))
                    &&& (r is Err ==> final(self)@ == old(self)@)
                },
                SourceTypeV::Api { endpoint, .. } => {
                    &&& (starts_http(endpoint) <==> r is Ok)
                    &&& (r is Ok ==> final(self)@.custom_sources == old(
                        self,
                    )@.custom_sources.push(source@))
                    &&& (r is Err ==> final(self)@ == old(self)@)
                },
                SourceTypeV::File(_) => r is Ok && final(self)@.custom_sources == old(
                    self,
                )@.custom_sources.push(source@),
                SourceTypeV::Directory(_) => r is Ok && final(self)@.custom_sources == old(
                    self,
                )@.custom_sources.push(source@),
                _ => r is Err && final(self)@ == old(self)@,
            },
    {
        let ok = match &source {
            SourceType::File(_) => true,
            SourceType::Directory(_) => true,
            SourceType::Url(u) => {
                let uc = string_chars(u);
                let h1 = str_chars("http://");
                let h2 = str_chars("https://");
                crate::text::starts_with_vec(&uc, &h1) || crate::text::starts_with_vec(&uc, &h2)
            },
            SourceType::Api { endpoint, .. } => {
                let uc = string_chars(endpoint);
                let h1 = str_chars("http://");
                let h2 = str_chars("https://");
                crate::text::starts_with_vec(&uc, &h1) || crate::text::starts_with_vec(&uc, &h2)
            },
            _ => false,
        };
        if ok {
            let ghost pre = self@.custom_sources;
            let ghost sv = source@;
            self.custom_sources.push(source);
            proof {
                assert(self@.custom_sources =~= pre.push(sv));
            }
            Ok(())
        } else {
            match source {
                SourceType::Url(u) => Err(FontError::Parse(u)),
                SourceType::Api { endpoint, .. } => Err(FontError::Parse(endpoint)),
                _ => Err(FontError::Parse("Invalid source type".to_owned())),
            }
        }
    }

    /// Drops a custom source by position.
    pub fn remove_custom_source(&mut self, index: usize) -> (r: FontResult<()>)
        ensures
            index < old(self)@.custom_sources.len() ==> r is Ok && final(self)@.custom_sources
                == old(self)@.custom_sources.remove(index as int),
            index >= old(self)@.custom_sources.len() ==> r is Err && final(self)@ == old(self)@,
    {
        if index < self.custom_sources.len() {
            let ghost pre = self@.custom_sources;
            let _ = self.custom_sources.remove(index);
            proof {
                assert(self@.custom_sources =~= pre.remove(index as int));
            }
            Ok(())
        } else {
            Err(FontError::Parse("Invalid source index".to_owned()))
        }
    }

    pub fn set_priority(&mut self, priority: FontSourcePriority)
        ensures
            final(self)@.priority == priority@,
            final(self)@.custom_sources == old(self)@.custom_sources,
            final(self)@.scanned == old(self)@.scanned,
            final(self)@.font_cache == old(self)@.font_cache,
    {
        self.priority = priority;
    }

    pub fn get_priority(&self) -> (r: &FontSourcePriority)
        ensures
            r@ == self@.priority,
    {
        &self.priority
    }

    pub fn get_web_db(&self) -> (r: Option<&WebFontDatabase>)
        ensures
            match r {
                Some(d) => self@.web_db == Some(d@),
                None => self@.web_db is None,
            },
    {
        self.web_db.as_ref()
    }

    pub fn clear_cache(&mut self)
        ensures
            final(self)@.font_cache.len() == 0,
            final(self)@.scanned == old(self)@.scanned,
            final(self)@.custom_sources == old(self)@.custom_sources,
            final(self)@.priority == old(self)@.priority,
    {
        self.font_cache = Vec::new();
        proof {
            assert(self@.font_cache =~= Seq::<(Seq<char>, FontDescriptorV)>::empty());
        }
    }

    /// Takes the faces the embedding program scanned from disk; they
    /// become this manager's source material.
    pub fn provide_scanned_fonts(&mut self, fonts: Vec<FontDescriptor>)
        ensures
            final(self)@.scanned == fonts@.map_values(|f: FontDescriptor| f@),
            final(self)@.custom_sources == old(self)@.custom_sources,
            final(self)@.font_cache == old(self)@.font_cache,
            final(self)@.priority == old(self)@.priority,
    {
        self.scanned = fonts;
    }

    /// All faces this manager can offer: the scanned ones, then one
    /// descriptor per web family (preferring the regular 400 upright
    /// variant) when the web source is on.
    #[verifier::loop_isolation(false)]
    pub fn scan_sources(&mut self) -> (r: FontResult<Vec<FontDescriptor>>)
        ensures
            final(self)@ == old(self)@,
            r matches Ok(v) && v@.map_values(|f: FontDescriptor| f@) == old(self)@.scanned + (
            match old(self)@.web_db {
                Some(d) => crate::webdb::web_faces(d.fonts, 0),
                None => Seq::<FontDescriptorV>::empty(),
            }),
    {
        let mut out: Vec<FontDescriptor> = Vec::new();
        let mut i: usize = 0;
        while i < self.scanned.len()
            invariant
                i <= self@.scanned.len(),
                out@.len() == i,
                forall|j: int| 0 <= j < i ==> (#[trigger] out@[j])@ == self@.scanned[j],
            decreases self@.scanned.len() - i,
        {
            out.push(self.scanned[i].duplicate());
            i += 1;
        }
        proof {
            assert(out@.map_values(|f: FontDescriptor| f@) =~= self@.scanned);
        }
        let ghost base = self@.scanned;
        if let Some(db) = &self.web_db {
            let ghost dbv = db@;
            let families = db.get_fonts();
            let ghost fsv = dbv.fonts;
            let mut k: usize = 0;
            while k < families.len()
                invariant
                    families@.map_values(|p: (String, crate::webdb::WebFont)| (p.0@, p.1@)) == fsv,
                    k <= fsv.len(),
                    out@.map_values(|f: FontDescriptor| f@) == base + crate::webdb::web_faces(
                        fsv,
                        0,
                    ).subrange(
                        0,
                        crate::webdb::web_faces(fsv, 0).len() - crate::webdb::web_faces(
                            fsv,
                            k as int,
                        ).len(),
                    ),
                    crate::webdb::web_faces(fsv, k as int).len() <= crate::webdb::web_faces(
                        fsv,
                        0,
                    ).len(),
                    base + crate::webdb::web_faces(fsv, 0) == (out@.map_values(
                        |f: FontDescriptor| f@,
                    )) + crate::webdb::web_faces(fsv, k as int),
                decreases fsv.len() - k,
            {
                let wf = &families[k].1;
                let ghost wfv = fsv[k as int].1;
                proof {
                    assert(wf@ == wfv);
                }
                let mut chosen: Option<&crate::webdb::WebFontVariant> = None;
                let mut v: usize = 0;
                while v < wf.variants.len()
                    invariant
                        v <= wf.variants@.len(),
                        wf@ == wfv,
                        match chosen {
                            Some(c) => {
                                let f = crate::webdb::var_find(wfv.variants, 400, false, 0);
                                0 <= f < wfv.variants.len() && c@ == wfv.variants[f]
                                    && f < v
                            },
                            None => forall|x: int|
                                0 <= x < v ==> !((#[trigger] wfv.variants[x]).weight == 400
                                    && !wfv.variants[x].italic),
                        },
                    decreases wf.variants@.len() - v,
                {
                    if wf.variants[v].weight == 400 && !wf.variants[v].italic && chosen.is_none() {
                        proof {
                            crate::webdb::lemma_var_chain(wfv.variants, 400, false, 0, v as int);
                        }
                        chosen = Some(&wf.variants[v]);
                    }
                    v += 1;
                }
                let ghost o0 = out@.map_values(|f: FontDescriptor| f@);
                match chosen {
                    Some(var) => {
                        out.push(db.to_font_descriptor(wf, var));
                        proof {
                            assert(out@.map_values(|f: FontDescriptor| f@) =~= o0.push(
                                crate::webdb::web_pick(wfv, 400, false)->Some_0,
                            ));
                        }
                    },
                    None => {
                        proof {
                            crate::webdb::lemma_var_chain(
                                wfv.variants,
                                400,
                                false,
                                0,
                                wfv.variants.len() as int,
                            );
                        }
                        if wf.variants.len() > 0 {
                            out.push(db.to_font_descriptor(wf, &wf.variants[0]));
                            proof {
                                assert(out@.map_values(|f: FontDescriptor| f@) =~= o0.push(
                                    crate::webdb::web_pick(wfv, 400, false)->Some_0,
                                ));
                            }
                        }
                    },
                }
                proof {
                    match crate::webdb::web_pick(wfv, 400, false) {
                        Some(d) => {
                            assert(crate::webdb::web_faces(fsv, k as int) =~= seq![d]
                                + crate::webdb::web_faces(fsv, k + 1));
                            assert(base + crate::webdb::web_faces(fsv, 0) =~= out@.map_values(
                                |f: FontDescriptor| f@,
                            ) + crate::webdb::web_faces(fsv, k + 1));
                        },
                        None => {
                            assert(crate::webdb::web_faces(fsv, k as int) =~= crate::webdb::web_faces(
                                fsv,
                                k + 1,
                            ));
                        },
                    }
                    assert(out@.map_values(|f: FontDescriptor| f@) =~= (base
                        + crate::webdb::web_faces(fsv, 0)).subrange(
                        0,
                        base.len() + crate::webdb::web_faces(fsv, 0).len()
                            - crate::webdb::web_faces(fsv, k + 1).len(),
                    ));
                    assert(out@.map_values(|f: FontDescriptor| f@) =~= base
                        + crate::webdb::web_faces(fsv, 0).subrange(
                        0,
                        crate::webdb::web_faces(fsv, 0).len() - crate::webdb::web_faces(
                            fsv,
                            k + 1,
                        ).len(),
                    ));
                }
                k += 1;
            }
            proof {
                assert(crate::webdb::web_faces(fsv, fsv.len() as int) =~= Seq::<
                    FontDescriptorV,
                >::empty());
                assert(out@.map_values(|f: FontDescriptor| f@) =~= base + crate::webdb::web_faces(
                    fsv,
                    0,
                ));
            }
        } else {
            proof {
                assert(out@.map_values(|f: FontDescriptor| f@) =~= base + Seq::<
                    FontDescriptorV,
                >::empty());
            }
        }
        Ok(out)
    }

    /// Finds a face by family: the name-keyed cache first, then a
    /// case-insensitive scan of the provided faces.  Only the name-keyed
    /// cache may grow.
    #[verifier::loop_isolation(false)]
    pub fn find_font(&mut self, family: &str) -> (r: FontResult<Option<FontDescriptor>>)
        ensures
            final(self)@.scanned == old(self)@.scanned,
            final(self)@.web_db == old(self)@.web_db,
            final(self)@.custom_sources == old(self)@.custom_sources,
            final(self)@.priority == old(self)@.priority,
            final(self)@.system_count == old(self)@.system_count,
            final(self)@.web_count == old(self)@.web_count,
            r matches Ok(o) ==> match o {
                Some(f) => ({
                    let c = cache_find(old(self)@.font_cache, family@, 0);
                    let s = scanned_find(old(self)@.scanned, lower_seq(family@), 0);
                    (c >= 0 && f@ == old(self)@.font_cache[c].1) || (c == -1 && s >= 0 && f@ == old(
                        self,
                    )@.scanned[s])
                }),
                None => cache_find(old(self)@.font_cache, family@, 0) == -1 && scanned_find(
                    old(self)@.scanned,
                    lower_seq(family@),
                    0,
                ) == -1,
            },
            r is Ok,
    {
        let ghost fc = self@.font_cache;
        let famc = str_chars(family);
        let mut i: usize = 0;
        while i < self.font_cache.len()
            invariant
                i <= fc.len(),
                self@ == old(self)@,
                fc == self@.font_cache,
                forall|k: int| 0 <= k < i ==> (#[trigger] fc[k]).0 != family@,
            decreases fc.len() - i,
        {
            let kc = string_chars(&self.font_cache[i].0);
            if eq_vec(&kc, &famc) {
                proof {
                    lemma_cache_chain(fc, family@, 0, i as int);
                }
                return Ok(Some(self.font_cache[i].1.duplicate()));
            }
            i += 1;
        }
        proof {
            lemma_cache_chain(fc, family@, 0, fc.len() as int);
        }
        let low = lower_vec(&famc);
        let ghost sc = self@.scanned;
        let mut i: usize = 0;
        while i < self.scanned.len()
            invariant
                i <= sc.len(),
                self@ == old(self)@,
                sc == self@.scanned,
                fc == self@.font_cache,
                cache_find(fc, family@, 0) == -1,
                forall|k: int| 0 <= k < i ==> lower_seq((#[trigger] sc[k]).family) != lower_seq(
                    family@,
                ),
            decreases sc.len() - i,
        {
            let cand = string_chars(&self.scanned[i].family);
            let cl = lower_vec(&cand);
            if eq_vec(&cl, &low) {
                proof {
                    lemma_scanned_chain(sc, lower_seq(family@), 0, i as int);
                }
                let found = self.scanned[i].duplicate();
                let result = found.duplicate();
                self.font_cache.push((family.to_owned(), found));
                return Ok(Some(result));
            }
            i += 1;
        }
        proof {
            lemma_scanned_chain(sc, lower_seq(family@), 0, sc.len() as int);
        }
        Ok(None)
    }

    /// Describes every configured source, custom ones with their index.
    #[verifier::loop_isolation(false)]
    pub fn list_sources(&self) -> (r: Vec<SourceInfo>)
        ensures
            r@.len() == self@.system_count + self@.web_count + self@.custom_sources.len(),
            forall|i: int|
                0 <= i < self@.system_count ==> (#[trigger] r@[i])@ == (SourceInfoV {
                    source_type: "System"@,
                    description: "Built-in system fonts"@,
                    status: SourceStatus::Enabled,
                    index: None,
                }),
            forall|i: int|
                self@.system_count <= i < self@.system_count + self@.web_count ==> (
                #[trigger] r@[i])@ == (SourceInfoV {
                    source_type: "Web"@,
                    description: "Bundled web font database"@,
                    status: if self@.web_db is Some {
                        SourceStatus::Enabled
                    } else {
                        SourceStatus::Disabled
                    },
                    index: None,
                }),
            forall|i: int|
                0 <= i < self@.custom_sources.len() ==> (#[trigger] r@[self@.system_count
                    + self@.web_count + i])@ == custom_source_info(
                    self@.custom_sources[i],
                    i as usize,
                ),
    {
        let ghost sysinfo = SourceInfoV {
            source_type: "System"@,
            description: "Built-in system fonts"@,
            status: SourceStatus::Enabled,
            index: None,
        };
        let ghost webinfo = SourceInfoV {
            source_type: "Web"@,
            description: "Bundled web font database"@,
            status: if self@.web_db is Some {
                SourceStatus::Enabled
            } else {
                SourceStatus::Disabled
            },
            index: None,
        };
        let mut sources: Vec<SourceInfo> = Vec::new();
        let mut i: usize = 0;
        while i < self.system_sources.len()
            invariant
                i <= self.system_sources@.len(),
                sources@.len() == i,
                forall|k: int| 0 <= k < i ==> (#[trigger] sources@[k])@ == sysinfo,
            decreases self.system_sources@.len() - i,
        {
            sources.push(
                SourceInfo {
                    source_type: "System".to_owned(),
                    description: "Built-in system fonts".to_owned(),
                    status: SourceStatus::Enabled,
                    index: None,
                },
            );
            i += 1;
        }
        let mut i: usize = 0;
        while i < self.web_sources.len()
            invariant
                i <= self.web_sources@.len(),
                sources@.len() == self.system_sources@.len() + i,
                forall|k: int|
                    0 <= k < self.system_sources@.len() ==> (#[trigger] sources@[k])@ == sysinfo,
                forall|k: int|
                    self.system_sources@.len() <= k < sources@.len() ==> (#[trigger] sources@[k])@
                        == webinfo,
            decreases self.web_sources@.len() - i,
        {
            let status = if self.web_db.is_some() {
                SourceStatus::Enabled
            } else {
                SourceStatus::Disabled
            };
            sources.push(
                SourceInfo {
                    source_type: "Web".to_owned(),
                    description: "Bundled web font database".to_owned(),
                    status,
                    index: None,
                },
            );
            i += 1;
        }
        let ghost base = self.system_sources@.len() + self.web_sources@.len();
        let mut i: usize = 0;
        while i < self.custom_sources.len()
            invariant
                i <= self.custom_sources@.len(),
                sources@.len() == base + i,
                forall|k: int|
                    0 <= k < self.system_sources@.len() ==> (#[trigger] sources@[k])@ == sysinfo,
                forall|k: int|
                    self.system_sources@.len() <= k < base ==> (#[trigger] sources@[k])@
                        == webinfo,
                forall|k: int|
                    0 <= k < i ==> (#[trigger] sources@[base + k])@ == custom_source_info(
                        self@.custom_sources[k],
                        k as usize,
                    ),
            decreases self.custom_sources@.len() - i,
        {
            let (st, desc) = match &self.custom_sources[i] {
                SourceType::File(p) => {
                    let mut d: Vec<char> = Vec::new();
                    crate::text::append_lit(&mut d, "File: ");
                    let pc = string_chars(p);
                    crate::text::append_chars(&mut d, &pc);
                    ("File".to_owned(), crate::text::chars_string(&d))
                },
                SourceType::Directory(p) => {
                    let mut d: Vec<char> = Vec::new();
                    crate::text::append_lit(&mut d, "Directory: ");
                    let pc = string_chars(p);
                    crate::text::append_chars(&mut d, &pc);
                    ("Directory".to_owned(), crate::text::chars_string(&d))
                },
                SourceType::Url(u) => {
                    let mut d: Vec<char> = Vec::new();
                    crate::text::append_lit(&mut d, "URL: ");
                    let pc = string_chars(u);
                    crate::text::append_chars(&mut d, &pc);
                    ("URL".to_owned(), crate::text::chars_string(&d))
                },
                SourceType::Api { endpoint, .. } => {
                    let mut d: Vec<char> = Vec::new();
                    crate::text::append_lit(&mut d, "API: ");
                    let pc = string_chars(endpoint);
                    crate::text::append_chars(&mut d, &pc);
                    ("API".to_owned(), crate::text::chars_string(&d))
                },
                _ => ("Unknown".to_owned(), "Unknown source".to_owned()),
            };
            let ghost s0 = sources@;
            sources.push(
                SourceInfo {
                    source_type: st,
                    description: desc,
                    status: SourceStatus::Enabled,
                    index: Some(i),
                },
            );
            proof {
                assert((sources@[base + i])@ =~= custom_source_info(
                    self@.custom_sources[i as int],
                    i,
                ));
            }
            i += 1;
        }
        sources
    }

    /// Whether a path names a face file, by extension.
    pub fn is_font_file(&self, path: &str) -> (r: bool)
        ensures
            r == is_font_path(path@),
    {
        let pc = str_chars(path);
        let low = lower_vec(&pc);
        let e1 = str_chars(".ttf");
        let e2 = str_chars(".otf");
        let e3 = str_chars(".woff");
        let e4 = str_chars(".woff2");
        let e5 = str_chars(".ttc");
        crate::text::ends_with_vec(&low, &e1) || crate::text::ends_with_vec(&low, &e2)
            || crate::text::ends_with_vec(&low, &e3) || crate::text::ends_with_vec(&low, &e4)
            || crate::text::ends_with_vec(&low, &e5)
    }
}

/// A path that carries a known face-file extension, case-insensitively.
pub open spec fn is_font_path(p: Seq<char>) -> bool {
    let low = lower_seq(p);
    ||| crate::text::ends_with_seq(low, ".ttf"@)
    ||| crate::text::ends_with_seq(low, ".otf"@)
    ||| crate::text::ends_with_seq(low, ".woff"@)
    ||| crate::text::ends_with_seq(low, ".woff2"@)
    ||| crate::text::ends_with_seq(low, ".ttc"@)
}

} // verus!
