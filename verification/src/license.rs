//! License posture: classifying a face's license, grading the warning,
//! and naming free alternatives.  Scores are in permille.

use vstd::prelude::*;

use crate::text::{contains_sub, contains_vec, eq_vec, lower_seq, lower_vec, str_chars,
    string_chars};
use crate::types::{FontDescriptor, FontDescriptorV};

verus! {

#[derive(Debug, Clone, Copy, PartialEq, Eq, Structural)]
pub enum LicenseType {
    OpenSource,
    Commercial,
    Unknown,
    SystemEmbedded,
}

#[derive(Debug, Clone, Copy, PartialEq, Eq, Structural)]
pub enum WarningLevel {
    Info,
    Warning,
    Critical,
}

pub struct FreeAlternativeV {
    pub family: Seq<char>,
    pub similarity_score: u32,
    pub license: LicenseType,
    pub reason: Seq<char>,
}

#[derive(Debug, Clone)]
pub struct FreeAlternative {
    pub family: String,
    pub similarity_score: u32,
    pub license: LicenseType,
    pub reason: String,
}

impl View for FreeAlternative {
    type V = FreeAlternativeV;

    open spec fn view(&self) -> FreeAlternativeV {
        FreeAlternativeV {
            family: self.family@,
            similarity_score: self.similarity_score,
            license: self.license,
            reason: self.reason@,
        }
    }
}

pub struct LicenseWarningV {
    pub font_name: Seq<char>,
    pub license_type: LicenseType,
    pub warning_level: WarningLevel,
    pub message: Seq<char>,
    pub alternatives: Seq<FreeAlternativeV>,
}

#[derive(Debug, Clone)]
pub struct LicenseWarning {
    pub font_name: String,
    pub license_type: LicenseType,
    pub warning_level: WarningLevel,
    pub message: String,
    pub alternatives: Vec<FreeAlternative>,
}

impl View for LicenseWarning {
    type V = LicenseWarningV;

    open spec fn view(&self) -> LicenseWarningV {
        LicenseWarningV {
            font_name: self.font_name@,
            license_type: self.license_type,
            warning_level: self.warning_level,
            message: self.message@,
            alternatives: self.alternatives@.map_values(|a: FreeAlternative| a@),
        }
    }
}

// ----- classification -------------------------------------------------------

/// The built-in table of free stand-ins, scores in permille.
pub open spec fn known_free_alternatives() -> Seq<FreeAlternativeV> {
    seq![
        FreeAlternativeV {
            family: "Roboto"@,
            similarity_score: 900,
            license: LicenseType::OpenSource,
            reason: "Apache 2.0 license, similar to Helvetica"@,
        },
        FreeAlternativeV {
            family: "Open Sans"@,
            similarity_score: 850,
            license: LicenseType::OpenSource,
            reason: "Apache 2.0 license, humanist sans-serif"@,
        },
        FreeAlternativeV {
            family: "Lato"@,
            similarity_score: 800,
            license: LicenseType::OpenSource,
            reason: "OFL license, professional sans-serif"@,
        },
        FreeAlternativeV {
            family: "Montserrat"@,
            similarity_score: 750,
            license: LicenseType::OpenSource,
            reason: "OFL license, geometric sans-serif"@,
        },
        FreeAlternativeV {
            family: "Source Sans Pro"@,
            similarity_score: 700,
            license: LicenseType::OpenSource,
            reason: "OFL license, Adobe's first open source font"@,
        },
        FreeAlternativeV {
            family: "Noto Sans"@,
            similarity_score: 900,
            license: LicenseType::OpenSource,
            reason: "OFL license, Google's universal font"@,
        },
        FreeAlternativeV {
            family: "Liberation Sans"@,
            similarity_score: 950,
            license: LicenseType::OpenSource,
            reason: "SIL Open Font License, metric-compatible with Arial"@,
        },
        FreeAlternativeV {
            family: "DejaVu Sans"@,
            similarity_score: 800,
            license: LicenseType::OpenSource,
            reason: "Bitstream Vera License, extensive character set"@,
        },
    ]
}

pub open spec fn known_commercial_families() -> Seq<Seq<char>> {
    seq![
        "helvetica"@,
        "helvetica neue"@,
        "futura"@,
        "gill sans"@,
        "optima"@,
        "palatino"@,
        "didot"@,
        "bembo"@,
        "garamond premium"@,
        "minion pro"@,
        "myriad pro"@,
        "trajan pro"@,
        "univers"@,
        "franklin gothic"@,
        "copperplate gothic"@,
    ]
}

pub open spec fn known_commercial_postscript() -> Seq<Seq<char>> {
    seq![
        "helveticaneue"@,
        "helveticaneuepro"@,
        "futura"@,
        "gill-sans"@,
        "optima"@,
        "palatino"@,
        "didot"@,
        "bembo"@,
    ]
}

/// License classification: explicit license text first, then known
/// commercial names, then system paths, then known open families.
pub open spec fn license_type_spec(f: FontDescriptorV) -> LicenseType {
    if (match f.license {
        Some(l) => {
            let low = lower_seq(l.name);
            contains_sub(low, "commercial"@) || contains_sub(low, "proprietary"@) || contains_sub(
                low,
                "copyright"@,
            )
        },
        None => false,
    }) {
        LicenseType::Commercial
    } else if (match f.license {
        Some(l) => {
            let low = lower_seq(l.name);
            ||| contains_sub(low, "ofl"@)
            ||| contains_sub(low, "sil"@)
            ||| contains_sub(low, "apache"@)
            ||| contains_sub(low, "mit"@)
            ||| contains_sub(low, "bsd"@)
            ||| contains_sub(low, "gpl"@)
        },
        None => false,
    }) {
        LicenseType::OpenSource
    } else if (exists|k: int|
        0 <= k < known_commercial_families().len() && lower_seq(f.family)
            == known_commercial_families()[k]) || (exists|k: int|
        0 <= k < known_commercial_postscript().len() && contains_sub(
            lower_seq(f.postscript_name),
            known_commercial_postscript()[k],
        )) {
        LicenseType::Commercial
    } else if is_system_path(f.path) {
        LicenseType::SystemEmbedded
    } else if is_open_source_name(f.family) {
        LicenseType::OpenSource
    } else {
        LicenseType::Unknown
    }
}

pub open spec fn is_system_path(p: Seq<char>) -> bool {
    let low = lower_seq(p);
    ||| contains_sub(low, "windows\\fonts"@)
    ||| contains_sub(low, "system\\library\\fonts"@)
    ||| contains_sub(low, "/usr/share/fonts"@)
    ||| contains_sub(low, "/system/fonts"@)
}

pub open spec fn is_open_source_name(fam: Seq<char>) -> bool {
    let low = lower_seq(fam);
    ||| contains_sub(low, "noto"@)
    ||| contains_sub(low, "roboto"@)
    ||| contains_sub(low, "open"@)
    ||| contains_sub(low, "source"@)
    ||| contains_sub(low, "ubuntu"@)
    ||| contains_sub(low, "dejavu"@)
    ||| contains_sub(low, "liberation"@)
    ||| contains_sub(low, "fira"@)
    ||| contains_sub(low, "lato"@)
    ||| contains_sub(low, "montserrat"@)
    ||| contains_sub(low, "raleway"@)
    ||| contains_sub(low, "pt "@)
    ||| contains_sub(low, "droid"@)
}

pub open spec fn common_system_families() -> Seq<Seq<char>> {
    seq![
        "arial"@,
        "times new roman"@,
        "courier new"@,
        "verdana"@,
        "tahoma"@,
        "segoe ui"@,
        "calibri"@,
        "cambria"@,
        "consolas"@,
        "ms sans serif"@,
        "ms serif"@,
        "wingdings"@,
    ]
}

/// Commercial faces that ship with common systems are only informational;
/// other commercial faces warn.
pub open spec fn warning_level_spec(t: LicenseType, fam: Seq<char>) -> WarningLevel {
    match t {
        LicenseType::Commercial => {
            if exists|k: int|
                0 <= k < common_system_families().len() && lower_seq(fam)
                    == common_system_families()[k] {
                WarningLevel::Info
            } else {
                WarningLevel::Warning
            }
        },
        _ => WarningLevel::Info,
    }
}

// ----- the checker ----------------------------------------------------------

/// Grades the license posture of faces.
pub struct LicenseChecker {
    commercial_fonts: Vec<String>,
    commercial_postscript: Vec<String>,
    free_alternatives: Vec<FreeAlternative>,
}

pub open spec fn names_of(v: Seq<String>) -> Seq<Seq<char>> {
    v.map_values(|s: String| s@)
}

impl View for LicenseChecker {
    type V = (Seq<Seq<char>>, Seq<Seq<char>>, Seq<FreeAlternativeV>);

    closed spec fn view(&self) -> (Seq<Seq<char>>, Seq<Seq<char>>, Seq<FreeAlternativeV>) {
        (
            names_of(self.commercial_fonts@),
            names_of(self.commercial_postscript@),
            self.free_alternatives@.map_values(|a: FreeAlternative| a@),
        )
    }
}

fn push_alt(v: &mut Vec<FreeAlternative>, family: &str, score: u32, reason: &str)
    ensures
        final(v)@.len() == old(v)@.len() + 1,
        final(v)@.map_values(|a: FreeAlternative| a@) == old(v)@.map_values(
            |a: FreeAlternative| a@,
        ).push(
            (FreeAlternativeV {
                family: family@,
                similarity_score: score,
                license: LicenseType::OpenSource,
                reason: reason@,
            }),
        ),
{
    v.push(
        FreeAlternative {
            family: family.to_owned(),
            similarity_score: score,
            license: LicenseType::OpenSource,
            reason: reason.to_owned(),
        },
    );
    proof {
        assert(final(v)@.map_values(|a: FreeAlternative| a@) =~= old(v)@.map_values(
            |a: FreeAlternative| a@,
        ).push(
            (FreeAlternativeV {
                family: family@,
                similarity_score: score,
                license: LicenseType::OpenSource,
                reason: reason@,
            }),
        ));
    }
}

impl LicenseChecker {
    /// The built-in knowledge: commercial names and the free stand-ins.
    pub fn new() -> (r: LicenseChecker)
        ensures
            r@.0 == known_commercial_families(),
            r@.1 == known_commercial_postscript(),
            r@.2 == known_free_alternatives(),
    {
        let mut cf: Vec<String> = Vec::new();
        cf.push("helvetica".to_owned());
        cf.push("helvetica neue".to_owned());
        cf.push("futura".to_owned());
        cf.push("gill sans".to_owned());
        cf.push("optima".to_owned());
        cf.push("palatino".to_owned());
        cf.push("didot".to_owned());
        cf.push("bembo".to_owned());
        cf.push("garamond premium".to_owned());
        cf.push("minion pro".to_owned());
        cf.push("myriad pro".to_owned());
        cf.push("trajan pro".to_owned());
        cf.push("univers".to_owned());
        cf.push("franklin gothic".to_owned());
        cf.push("copperplate gothic".to_owned());
        let mut cp: Vec<String> = Vec::new();
        cp.push("helveticaneue".to_owned());
        cp.push("helveticaneuepro".to_owned());
        cp.push("futura".to_owned());
        cp.push("gill-sans".to_owned());
        cp.push("optima".to_owned());
        cp.push("palatino".to_owned());
        cp.push("didot".to_owned());
        cp.push("bembo".to_owned());
        let mut fa: Vec<FreeAlternative> = Vec::new();
        push_alt(&mut fa, "Roboto", 900, "Apache 2.0 license, similar to Helvetica");
        push_alt(&mut fa, "Open Sans", 850, "Apache 2.0 license, humanist sans-serif");
        push_alt(&mut fa, "Lato", 800, "OFL license, professional sans-serif");
        push_alt(&mut fa, "Montserrat", 750, "OFL license, geometric sans-serif");
        push_alt(&mut fa, "Source Sans Pro", 700, "OFL license, Adobe's first open source font");
        push_alt(&mut fa, "Noto Sans", 900, "OFL license, Google's universal font");
        push_alt(
            &mut fa,
            "Liberation Sans",
            950,
            "SIL Open Font License, metric-compatible with Arial",
        );
        push_alt(&mut fa, "DejaVu Sans", 800, "Bitstream Vera License, extensive character set");
        let r = LicenseChecker {
            commercial_fonts: cf,
            commercial_postscript: cp,
            free_alternatives: fa,
        };
        proof {
            assert(r@.0 =~= known_commercial_families());
            assert(r@.1 =~= known_commercial_postscript());
            assert(r@.2 =~= known_free_alternatives());
        }
        r
    }

    /// The license class of a face.
    #[verifier::loop_isolation(false)]
    pub fn detect_license_type(&self, font: &FontDescriptor) -> (r: LicenseType)
        requires
            self@.0 == known_commercial_families(),
            self@.1 == known_commercial_postscript(),
        ensures
            r == license_type_spec(font@),
    {
        if let Some(l) = &font.license {
            let nc = string_chars(&l.name);
            let low = lower_vec(&nc);
            if has(&low, "commercial") || has(&low, "proprietary") || has(&low, "copyright") {
                return LicenseType::Commercial;
            }
            if has(&low, "ofl") || has(&low, "sil") || has(&low, "apache") || has(&low, "mit")
                || has(&low, "bsd") || has(&low, "gpl") {
                return LicenseType::OpenSource;
            }
        }
        let famc = string_chars(&font.family);
        let flow = lower_vec(&famc);
        let mut k: usize = 0;
        let mut com = false;
        while k < self.commercial_fonts.len()
            invariant
                k <= known_commercial_families().len(),
                com == (exists|j: int|
                    0 <= j < k && lower_seq(font@.family) == known_commercial_families()[j]),
        decreases known_commercial_families().len() - k,
        {
            let e = str_chars(self.commercial_fonts[k].as_str());
            if eq_vec(&flow, &e) {
                proof {
                    assert(lower_seq(font@.family) == known_commercial_families()[k as int]);
                }
                com = true;
            }
            k += 1;
        }
        let psc = string_chars(&font.postscript_name);
        let plow = lower_vec(&psc);
        let mut k: usize = 0;
        while k < self.commercial_postscript.len()
            invariant
                k <= known_commercial_postscript().len(),
                com == ((exists|j: int|
                    0 <= j < known_commercial_families().len() && lower_seq(font@.family)
                        == known_commercial_families()[j]) || (exists|j: int|
                    0 <= j < k && contains_sub(
                        lower_seq(font@.postscript_name),
                        known_commercial_postscript()[j],
                    ))),
            decreases known_commercial_postscript().len() - k,
        {
            let e = str_chars(self.commercial_postscript[k].as_str());
            if contains_vec(&plow, &e) {
                proof {
                    assert(contains_sub(
                        lower_seq(font@.postscript_name),
                        known_commercial_postscript()[k as int],
                    ));
                }
                com = true;
            }
            k += 1;
        }
        if com {
            return LicenseType::Commercial;
        }
        let pc = string_chars(&font.path);
        let plow2 = lower_vec(&pc);
        if has(&plow2, "windows\\fonts") || has(&plow2, "system\\library\\fonts") || has(
            &plow2,
            "/usr/share/fonts",
        ) || has(&plow2, "/system/fonts") {
            return LicenseType::SystemEmbedded;
        }
        if has(&flow, "noto") || has(&flow, "roboto") || has(&flow, "open") || has(&flow, "source")
            || has(&flow, "ubuntu") || has(&flow, "dejavu") || has(&flow, "liberation") || has(
            &flow,
            "fira",
        ) || has(&flow, "lato") || has(&flow, "montserrat") || has(&flow, "raleway") || has(
            &flow,
            "pt ",
        ) || has(&flow, "droid") {
            return LicenseType::OpenSource;
        }
        LicenseType::Unknown
    }

    /// The warning grade for a classified face.
    #[verifier::loop_isolation(false)]
    pub fn determine_warning_level(&self, license_type: LicenseType, font: &FontDescriptor) -> (r:
        WarningLevel)
        ensures
            r == warning_level_spec(license_type, font@.family),
    {
        match license_type {
            LicenseType::Commercial => {
                let famc = string_chars(&font.family);
                let flow = lower_vec(&famc);
                let mut names: Vec<&'static str> = Vec::new();
                names.push("arial");
                names.push("times new roman");
                names.push("courier new");
                names.push("verdana");
                names.push("tahoma");
                names.push("segoe ui");
                names.push("calibri");
                names.push("cambria");
                names.push("consolas");
                names.push("ms sans serif");
                names.push("ms serif");
                names.push("wingdings");
                proof {
                    assert(names@.map_values(|s: &str| s@) =~= common_system_families());
                }
                let mut k: usize = 0;
                let mut found = false;
                while k < names.len()
                    invariant
                        names@.map_values(|s: &str| s@) == common_system_families(),
                        k <= common_system_families().len(),
                        found == (exists|j: int|
                            0 <= j < k && lower_seq(font@.family) == common_system_families()[j]),
                    decreases common_system_families().len() - k,
                {
                    let e = str_chars(names[k]);
                    if eq_vec(&flow, &e) {
                        proof {
                            assert(lower_seq(font@.family) == common_system_families()[k as int]);
                        }
                        found = true;
                    }
                    k += 1;
                }
                if found {
                    WarningLevel::Info
                } else {
                    WarningLevel::Warning
                }
            },
            _ => WarningLevel::Info,
        }
    }

    /// The free stand-ins worth naming for this face, best first, at most
    /// three.  Serif faces draw serif stand-ins, monospace faces mono
    /// ones, and a handful of direct matches get boosted scores.
    pub fn find_alternatives(&self, font: &FontDescriptor) -> (r: Vec<FreeAlternative>)
        ensures
            r@.len() <= 3,
            forall|x: int, y: int|
                0 <= x <= y < r@.len() ==> (#[trigger] r@[x]).similarity_score
                    >= (#[trigger] r@[y]).similarity_score,
    {
        let famc = string_chars(&font.family);
        let flow = lower_vec(&famc);
        let is_serif = has(&flow, "serif") || has(&flow, "times") || has(&flow, "garamond") || has(
            &flow,
            "baskerville",
        );
        let is_sans = has(&flow, "sans") || has(&flow, "helvetica") || has(&flow, "arial") || has(
            &flow,
            "futura",
        );
        let is_mono = font.monospaced || has(&flow, "mono") || has(&flow, "console") || has(
            &flow,
            "courier",
        );
        let mut picked: Vec<FreeAlternative> = Vec::new();
        let mut i: usize = 0;
        #[verifier::loop_isolation(false)]
        while i < self.free_alternatives.len()
            decreases self.free_alternatives@.len() - i,
        {
            let alt = &self.free_alternatives[i];
            let altc = string_chars(&alt.family);
            let alow = lower_vec(&altc);
            let matches_style = if is_serif {
                has(&alow, "serif")
            } else if is_sans {
                has(&alow, "sans") && (has(&alow, "serif") == false)
            } else if is_mono {
                has(&alow, "mono") || has(&alow, "source code")
            } else {
                true
            };
            if matches_style {
                let mut score = alt.similarity_score;
                if has(&flow, "helvetica") && has(&alow, "roboto") {
                    score = 950;
                } else if has(&flow, "arial") && has(&alow, "liberation sans") {
                    score = 980;
                } else if has(&flow, "times") && has(&alow, "liberation serif") {
                    score = 980;
                } else if has(&flow, "courier") && has(&alow, "liberation mono") {
                    score = 980;
                }
                picked.push(
                    FreeAlternative {
                        family: alt.family.clone(),
                        similarity_score: score,
                        license: alt.license,
                        reason: alt.reason.clone(),
                    },
                );
            }
            i += 1;
        }
        let mut sorted = sort_alts_desc(picked);
        sorted.truncate(3);
        let ghost sv = sorted@;
        proof {
            if sorted@.len() > 3 {
            }
        }
        sorted
    }

    /// Classifies a face and assembles the warning record.
    pub fn check_font(&self, font: &FontDescriptor) -> (r: LicenseWarning)
        requires
            self@.0 == known_commercial_families(),
            self@.1 == known_commercial_postscript(),
        ensures
            r.license_type == license_type_spec(font@),
            r.warning_level == warning_level_spec(license_type_spec(font@), font@.family),
            r.font_name@ == font@.family,
            r@.message == warning_message_spec(license_type_spec(font@), font@.family),
            r.alternatives@.len() <= 3,
    {
        let license_type = self.detect_license_type(font);
        let warning_level = self.determine_warning_level(license_type, font);
        let alternatives = self.find_alternatives(font);
        let mut msg: Vec<char> = Vec::new();
        match license_type {
            LicenseType::Commercial => {
                crate::text::append_lit(&mut msg, "Commercial font '");
                let f = string_chars(&font.family);
                crate::text::append_chars(&mut msg, &f);
                crate::text::append_lit(&mut msg, "' may require a license for distribution.");
            },
            LicenseType::SystemEmbedded => {
                crate::text::append_lit(&mut msg, "System font '");
                let f = string_chars(&font.family);
                crate::text::append_chars(&mut msg, &f);
                crate::text::append_lit(&mut msg, "' may have redistribution restrictions.");
            },
            LicenseType::Unknown => {
                crate::text::append_lit(&mut msg, "License for '");
                let f = string_chars(&font.family);
                crate::text::append_chars(&mut msg, &f);
                crate::text::append_lit(&mut msg, "' is unknown. Verify before distribution.");
            },
            LicenseType::OpenSource => {
                crate::text::append_lit(&mut msg, "Open source font '");
                let f = string_chars(&font.family);
                crate::text::append_chars(&mut msg, &f);
                crate::text::append_lit(&mut msg, "' is safe for distribution.");
            },
        }
        LicenseWarning {
            font_name: font.family.clone(),
            license_type,
            warning_level,
            message: crate::text::chars_string(&msg),
            alternatives,
        }
    }

    /// One-line summary of a face's license posture.
    pub fn get_license_summary(&self, font: &FontDescriptor) -> (r: String)
        requires
            self@.0 == known_commercial_families(),
            self@.1 == known_commercial_postscript(),
        ensures
            r@ == license_summary_spec(license_type_spec(font@)),
    {
        let t = self.detect_license_type(font);
        match t {
            LicenseType::OpenSource => "Open Source - Safe for distribution".to_owned(),
            LicenseType::Commercial => "Commercial - May require license".to_owned(),
            LicenseType::SystemEmbedded => "System Font - Check redistribution rights".to_owned(),
            LicenseType::Unknown => "Unknown - Verify license before use".to_owned(),
        }
    }

    /// Grades a whole list of faces.
    #[verifier::loop_isolation(false)]
    pub fn generate_report(&self, fonts: &Vec<FontDescriptor>) -> (r: LicenseReport)
        requires
            self@.0 == known_commercial_families(),
            self@.1 == known_commercial_postscript(),
        ensures
            r.total_fonts == fonts@.len(),
            r.warnings@.len() == fonts@.len(),
            forall|i: int|
                0 <= i < fonts@.len() ==> (#[trigger] r.warnings@[i]).license_type
                    == license_type_spec(fonts@[i]@) && r.warnings@[i].warning_level
                    == warning_level_spec(license_type_spec(fonts@[i]@), fonts@[i]@.family),
            r.has_critical == (exists|i: int|
                0 <= i < fonts@.len() && warning_level_spec(
                    license_type_spec(fonts@[i]@),
                    fonts@[i]@.family,
                ) == WarningLevel::Critical),
            r.has_warning == (exists|i: int|
                0 <= i < fonts@.len() && warning_level_spec(
                    license_type_spec(fonts@[i]@),
                    fonts@[i]@.family,
                ) == WarningLevel::Warning),
    {
        let mut warnings: Vec<LicenseWarning> = Vec::new();
        let mut has_critical = false;
        let mut has_warning = false;
        let mut i: usize = 0;
        while i < fonts.len()
            invariant
                i <= fonts@.len(),
                warnings@.len() == i,
                forall|j: int|
                    0 <= j < i ==> (#[trigger] warnings@[j]).license_type == license_type_spec(
                        fonts@[j]@,
                    ) && warnings@[j].warning_level == warning_level_spec(
                        license_type_spec(fonts@[j]@),
                        fonts@[j]@.family,
                    ),
                has_critical == (exists|j: int|
                    0 <= j < i && warning_level_spec(
                        license_type_spec(fonts@[j]@),
                        fonts@[j]@.family,
                    ) == WarningLevel::Critical),
                has_warning == (exists|j: int|
                    0 <= j < i && warning_level_spec(
                        license_type_spec(fonts@[j]@),
                        fonts@[j]@.family,
                    ) == WarningLevel::Warning),
            decreases fonts@.len() - i,
        {
            let w = self.check_font(&fonts[i]);
            if w.warning_level == WarningLevel::Critical {
                proof {
                    assert(warning_level_spec(
                        license_type_spec(fonts@[i as int]@),
                        fonts@[i as int]@.family,
                    ) == WarningLevel::Critical);
                }
                has_critical = true;
            } else if w.warning_level == WarningLevel::Warning {
                proof {
                    assert(warning_level_spec(
                        license_type_spec(fonts@[i as int]@),
                        fonts@[i as int]@.family,
                    ) == WarningLevel::Warning);
                }
                has_warning = true;
            }
            warnings.push(w);
            i += 1;
        }
        LicenseReport { warnings, has_critical, has_warning, total_fonts: fonts.len() }
    }
}

/// The message text for a classified face.
pub open spec fn warning_message_spec(t: LicenseType, fam: Seq<char>) -> Seq<char> {
    match t {
        LicenseType::Commercial => "Commercial font '"@ + fam
            + "' may require a license for distribution."@,
        LicenseType::SystemEmbedded => "System font '"@ + fam
            + "' may have redistribution restrictions."@,
        LicenseType::Unknown => "License for '"@ + fam + "' is unknown. Verify before distribution."@,
        LicenseType::OpenSource => "Open source font '"@ + fam + "' is safe for distribution."@,
    }
}

pub open spec fn license_summary_spec(t: LicenseType) -> Seq<char> {
    match t {
        LicenseType::OpenSource => "Open Source - Safe for distribution"@,
        LicenseType::Commercial => "Commercial - May require license"@,
        LicenseType::SystemEmbedded => "System Font - Check redistribution rights"@,
        LicenseType::Unknown => "Unknown - Verify license before use"@,
    }
}

fn has(low: &Vec<char>, kw: &str) -> (r: bool)
    ensures
        r == contains_sub(low@, kw@),
{
    let k = str_chars(kw);
    contains_vec(low, &k)
}

/// Sorts alternatives by score, highest first.
#[verifier::loop_isolation(false)]
fn sort_alts_desc(v: Vec<FreeAlternative>) -> (r: Vec<FreeAlternative>)
    ensures
        r@.len() == v@.len(),
        forall|x: int, y: int|
            0 <= x <= y < r@.len() ==> (#[trigger] r@[x]).similarity_score
                >= (#[trigger] r@[y]).similarity_score,
{
    let ghost orig_len = v@.len();
    let mut src = v;
    let mut out: Vec<FreeAlternative> = Vec::new();
    while src.len() > 0
        invariant
            forall|x: int, y: int|
                0 <= x <= y < out@.len() ==> (#[trigger] out@[x]).similarity_score
                    >= (#[trigger] out@[y]).similarity_score,
            forall|x: int, y: int|
                0 <= x < out@.len() && 0 <= y < src@.len() ==> (#[trigger] out@[x]).similarity_score
                    >= (#[trigger] src@[y]).similarity_score,
            out@.len() + src@.len() == orig_len,
        decreases src@.len(),
    {
        let mut mi: usize = 0;
        let mut k: usize = 1;
        while k < src.len()
            invariant
                mi < k <= src@.len(),
                forall|j: int|
                    0 <= j < k ==> (#[trigger] src@[j]).similarity_score
                        <= src@[mi as int].similarity_score,
            decreases src@.len() - k,
        {
            if src[k].similarity_score > src[mi].similarity_score {
                mi = k;
            }
            k += 1;
        }
        let ghost src_before = src@;
        let m = src.remove(mi);
        out.push(m);
        proof {
            assert forall|y: int|
                0 <= y < src@.len() implies out@.last().similarity_score
                >= (#[trigger] src@[y]).similarity_score by {
                assert(src@[y] == if y < mi {
                    src_before[y]
                } else {
                    src_before[y + 1]
                });
            }
        }
    }
    out
}

pub struct LicenseReportV {
    pub warnings: Seq<LicenseWarningV>,
    pub has_critical: bool,
    pub has_warning: bool,
    pub total_fonts: usize,
}

#[derive(Debug, Clone)]
pub struct LicenseReport {
    pub warnings: Vec<LicenseWarning>,
    pub has_critical: bool,
    pub has_warning: bool,
    pub total_fonts: usize,
}

impl View for LicenseReport {
    type V = LicenseReportV;

    open spec fn view(&self) -> LicenseReportV {
        LicenseReportV {
            warnings: self.warnings@.map_values(|w: LicenseWarning| w@),
            has_critical: self.has_critical,
            has_warning: self.has_warning,
            total_fonts: self.total_fonts,
        }
    }
}

} // verus!
