//! Core data model: font descriptors, requests, configuration and results.
//!
//! All similarity and compatibility scores are integers in permille:
//! 0 stands for 0.0 and 1000 for 1.0.

use vstd::prelude::*;

verus! {

#[derive(Debug, Clone, Copy, PartialEq, Eq, Structural, Hash)]
pub enum FontFormat {
    Ttf,
    Otf,
    Woff,
    Woff2,
    Other,
}

#[derive(Debug, Clone, Copy, PartialEq, Eq, Structural)]
pub enum FontStyle {
    Normal,
    Italic,
    Oblique,
}

/// Font metrics for layout preservation, in units of `units_per_em`.
#[derive(Debug, Clone, Copy, PartialEq, Eq, Structural)]
pub struct FontMetrics {
    pub units_per_em: u16,
    pub ascender: i16,
    pub descender: i16,
    pub x_height: i16,
    pub cap_height: i16,
    pub average_width: i16,
    pub max_advance_width: u16,
}

pub struct LicenseInfoV {
    pub name: Seq<char>,
    pub url: Option<Seq<char>>,
    pub allows_embedding: bool,
    pub allows_modification: bool,
    pub requires_attribution: bool,
    pub allows_commercial_use: bool,
}

#[derive(Debug, Clone)]
pub struct LicenseInfo {
    pub name: String,
    pub url: Option<String>,
    pub allows_embedding: bool,
    pub allows_modification: bool,
    pub requires_attribution: bool,
    pub allows_commercial_use: bool,
}

impl View for LicenseInfo {
    type V = LicenseInfoV;

    open spec fn view(&self) -> LicenseInfoV {
        LicenseInfoV {
            name: self.name@,
            url: match self.url {
                Some(u) => Some(u@),
                None => None,
            },
            allows_embedding: self.allows_embedding,
            allows_modification: self.allows_modification,
            requires_attribution: self.requires_attribution,
            allows_commercial_use: self.allows_commercial_use,
        }
    }
}

impl LicenseInfo {
    pub fn is_commercial_use_safe(&self) -> (r: bool)
        ensures
            r == (self.allows_commercial_use && !self.requires_attribution),
    {
        self.allows_commercial_use && !self.requires_attribution
    }

    pub fn is_embedding_safe(&self) -> (r: bool)
        ensures
            r == self.allows_embedding,
    {
        self.allows_embedding
    }

    pub fn is_open_source(&self) -> (r: bool)
        ensures
            r == (self.allows_modification && !self.requires_attribution),
    {
        self.allows_modification && !self.requires_attribution
    }

    pub fn duplicate(&self) -> (r: LicenseInfo)
        ensures
            r@ == self@,
    {
        let url = match &self.url {
            Some(u) => Some(u.clone()),
            None => None,
        };
        LicenseInfo {
            name: self.name.clone(),
            url,
            allows_embedding: self.allows_embedding,
            allows_modification: self.allows_modification,
            requires_attribution: self.requires_attribution,
            allows_commercial_use: self.allows_commercial_use,
        }
    }
}

pub struct FontDescriptorV {
    pub family: Seq<char>,
    pub subfamily: Option<Seq<char>>,
    pub postscript_name: Seq<char>,
    pub full_name: Option<Seq<char>>,
    pub path: Seq<char>,
    pub format: FontFormat,
    pub weight: u16,
    pub italic: bool,
    pub monospaced: bool,
    pub variable: bool,
    pub metrics: Option<FontMetrics>,
    pub license: Option<LicenseInfoV>,
}

/// A concrete font face together with its metadata.  The `path` is a
/// filesystem path or a synthetic URI, kept as plain text.
#[derive(Debug, Clone)]
pub struct FontDescriptor {
    pub family: String,
    pub subfamily: Option<String>,
    pub postscript_name: String,
    pub full_name: Option<String>,
    pub path: String,
    pub format: FontFormat,
    pub weight: u16,
    pub italic: bool,
    pub monospaced: bool,
    pub variable: bool,
    pub metrics: Option<FontMetrics>,
    pub license: Option<LicenseInfo>,
}

impl View for FontDescriptor {
    type V = FontDescriptorV;

    open spec fn view(&self) -> FontDescriptorV {
        FontDescriptorV {
            family: self.family@,
            subfamily: match self.subfamily {
                Some(s) => Some(s@),
                None => None,
            },
            postscript_name: self.postscript_name@,
            full_name: match self.full_name {
                Some(s) => Some(s@),
                None => None,
            },
            path: self.path@,
            format: self.format,
            weight: self.weight,
            italic: self.italic,
            monospaced: self.monospaced,
            variable: self.variable,
            metrics: self.metrics,
            license: match self.license {
                Some(l) => Some(l@),
                None => None,
            },
        }
    }
}

impl FontDescriptor {
    pub fn duplicate(&self) -> (r: FontDescriptor)
        ensures
            r@ == self@,
    {
        let subfamily = match &self.subfamily {
            Some(s) => Some(s.clone()),
            None => None,
        };
        let full_name = match &self.full_name {
            Some(s) => Some(s.clone()),
            None => None,
        };
        let license = match &self.license {
            Some(l) => Some(l.duplicate()),
            None => None,
        };
        let r = FontDescriptor {
            family: self.family.clone(),
            subfamily,
            postscript_name: self.postscript_name.clone(),
            full_name,
            path: self.path.clone(),
            format: self.format,
            weight: self.weight,
            italic: self.italic,
            monospaced: self.monospaced,
            variable: self.variable,
            metrics: self.metrics,
            license,
        };
        proof {
            assert(r@ == self@);
        }
        r
    }
}

pub struct FontRequestV {
    pub original_name: Seq<char>,
    pub normalized_name: Seq<char>,
    pub family: Seq<char>,
    pub weight: u16,
    pub style: FontStyle,
    pub italic: bool,
    pub monospaced: bool,
}

/// A normalized font request, derived once from the raw name.
#[derive(Debug, Clone)]
pub struct FontRequest {
    pub original_name: String,
    pub normalized_name: String,
    pub family: String,
    pub weight: u16,
    pub style: FontStyle,
    pub italic: bool,
    pub monospaced: bool,
}

impl View for FontRequest {
    type V = FontRequestV;

    open spec fn view(&self) -> FontRequestV {
        FontRequestV {
            original_name: self.original_name@,
            normalized_name: self.normalized_name@,
            family: self.family@,
            weight: self.weight,
            style: self.style,
            italic: self.italic,
            monospaced: self.monospaced,
        }
    }
}

impl FontRequest {
    pub fn duplicate(&self) -> (r: FontRequest)
        ensures
            r@ == self@,
    {
        FontRequest {
            original_name: self.original_name.clone(),
            normalized_name: self.normalized_name.clone(),
            family: self.family.clone(),
            weight: self.weight,
            style: self.style,
            italic: self.italic,
            monospaced: self.monospaced,
        }
    }
}

#[derive(Debug, Clone, Copy, PartialEq, Eq, Structural)]
pub enum FontSource {
    System,
    User,
    OpenRepository,
    Embedded,
    Substituted,
}

#[derive(Debug, Clone, Copy, PartialEq, Eq, Structural)]
pub enum SubstitutionReason {
    FontNotFound,
    LicenseRestriction,
    MetricsMismatch,
    UserPreference,
}

/// Per-axis match scores, each in permille.
#[derive(Debug, Clone, Copy, PartialEq, Eq, Structural)]
pub struct FontMatchScore {
    pub overall: u32,
    pub family: u32,
    pub weight: u32,
    pub style: u32,
    pub monospaced: u32,
    pub metrics: u32,
}

pub struct ResolutionResultV {
    pub original_name: Seq<char>,
    pub font: FontDescriptorV,
    pub source: FontSource,
    pub substituted: bool,
    pub substitution_reason: Option<SubstitutionReason>,
    pub compatibility_score: u32,
    pub warnings: Seq<Seq<char>>,
}

/// Outcome of one resolution call.  `compatibility_score` is in permille.
#[derive(Debug, Clone)]
pub struct ResolutionResult {
    pub original_name: String,
    pub font: FontDescriptor,
    pub source: FontSource,
    pub substituted: bool,
    pub substitution_reason: Option<SubstitutionReason>,
    pub compatibility_score: u32,
    pub warnings: Vec<String>,
}

impl View for ResolutionResult {
    type V = ResolutionResultV;

    open spec fn view(&self) -> ResolutionResultV {
        ResolutionResultV {
            original_name: self.original_name@,
            font: self.font@,
            source: self.source,
            substituted: self.substituted,
            substitution_reason: self.substitution_reason,
            compatibility_score: self.compatibility_score,
            warnings: self.warnings@.map_values(|w: String| w@),
        }
    }
}

#[derive(Debug, Clone, Copy, PartialEq, Eq, Structural)]
pub enum LicenseWarningLevel {
    Off,
    All,
    Minimal,
    Normal,
    Verbose,
}

#[derive(Debug, Clone, Copy, PartialEq, Eq, Structural)]
pub enum CacheCleanupMode {
    Manual,
    SizeBased,
    TimeBased,
    Smart,
}

pub enum FontSourcePriorityV {
    SystemOnly,
    SystemThenWeb,
    SystemThenCustom,
    SystemThenWebThenCustom,
    CustomThenSystemThenWeb,
    AllCustomFirst,
    AllWebFirst,
    PriorityList(Seq<Seq<char>>),
}

#[derive(Debug, Clone)]
pub enum FontSourcePriority {
    SystemOnly,
    SystemThenWeb,
    SystemThenCustom,
    SystemThenWebThenCustom,
    CustomThenSystemThenWeb,
    AllCustomFirst,
    AllWebFirst,
    PriorityList(Vec<String>),
}

impl View for FontSourcePriority {
    type V = FontSourcePriorityV;

    open spec fn view(&self) -> FontSourcePriorityV {
        match self {
            FontSourcePriority::SystemOnly => FontSourcePriorityV::SystemOnly,
            FontSourcePriority::SystemThenWeb => FontSourcePriorityV::SystemThenWeb,
            FontSourcePriority::SystemThenCustom => FontSourcePriorityV::SystemThenCustom,
            FontSourcePriority::SystemThenWebThenCustom => FontSourcePriorityV::SystemThenWebThenCustom,
            FontSourcePriority::CustomThenSystemThenWeb => FontSourcePriorityV::CustomThenSystemThenWeb,
            FontSourcePriority::AllCustomFirst => FontSourcePriorityV::AllCustomFirst,
            FontSourcePriority::AllWebFirst => FontSourcePriorityV::AllWebFirst,
            FontSourcePriority::PriorityList(l) => FontSourcePriorityV::PriorityList(
                l@.map_values(|s: String| s@),
            ),
        }
    }
}

/// Cache statistics; sizes are reported in kilobytes.
#[derive(Debug, Clone, Copy, PartialEq, Eq, Structural)]
pub struct CacheStats {
    pub memory_entries: usize,
    pub disk_entries: usize,
    pub pinned_fonts: usize,
    pub memory_usage_kb: usize,
    pub disk_usage_kb: usize,
}

pub struct ResolverConfigV {
    pub search_system: bool,
    pub search_user: bool,
    pub use_open_fonts: bool,
    pub allow_substitution: bool,
    pub require_metrics: bool,
    pub max_metrics_deviation: u32,
    pub user_font_dirs: Seq<Seq<char>>,
    pub preferred_families: Seq<Seq<char>>,
    pub cache_results: bool,
}

/// Configuration of the basic resolver.  `max_metrics_deviation` is in
/// permille.
#[derive(Debug, Clone)]
pub struct ResolverConfig {
    pub search_system: bool,
    pub search_user: bool,
    pub use_open_fonts: bool,
    pub allow_substitution: bool,
    pub require_metrics: bool,
    pub max_metrics_deviation: u32,
    pub user_font_dirs: Vec<String>,
    pub preferred_families: Vec<String>,
    pub cache_results: bool,
}

impl View for ResolverConfig {
    type V = ResolverConfigV;

    open spec fn view(&self) -> ResolverConfigV {
        ResolverConfigV {
            search_system: self.search_system,
            search_user: self.search_user,
            use_open_fonts: self.use_open_fonts,
            allow_substitution: self.allow_substitution,
            require_metrics: self.require_metrics,
            max_metrics_deviation: self.max_metrics_deviation,
            user_font_dirs: self.user_font_dirs@.map_values(|s: String| s@),
            preferred_families: self.preferred_families@.map_values(|s: String| s@),
            cache_results: self.cache_results,
        }
    }
}

impl Default for ResolverConfig {
    fn default() -> (r: ResolverConfig)
        ensures
            r.search_system && r.search_user && r.use_open_fonts && r.allow_substitution,
            !r.require_metrics,
            r.max_metrics_deviation == 200,
            r.user_font_dirs@.len() == 0,
            r.preferred_families@.len() == 4,
            r.cache_results,
    {
        let mut preferred: Vec<String> = Vec::new();
        preferred.push("Noto Sans".to_owned());
        preferred.push("Noto Serif".to_owned());
        preferred.push("Liberation Sans".to_owned());
        preferred.push("DejaVu Sans".to_owned());
        ResolverConfig {
            search_system: true,
            search_user: true,
            use_open_fonts: true,
            allow_substitution: true,
            require_metrics: false,
            max_metrics_deviation: 200,
            user_font_dirs: Vec::new(),
            preferred_families: preferred,
            cache_results: true,
        }
    }
}

pub struct EnhancedResolverConfigV {
    pub base: ResolverConfigV,
    pub cache_enabled: bool,
    pub memory_limit_mb: usize,
    pub disk_limit_mb: usize,
    pub auto_pin_threshold: u32,
    pub cache_cleanup_mode: CacheCleanupMode,
    pub system_fonts_enabled: bool,
    pub web_fonts_enabled: bool,
    pub custom_fonts_enabled: bool,
    pub font_source_priority: FontSourcePriorityV,
    pub license_warnings: LicenseWarningLevel,
    pub watermark_commercial: bool,
    pub auto_setup_completed: bool,
    pub telemetry_enabled: bool,
    pub dynamic_learning_enabled: bool,
    pub project_asset_dirs: Seq<Seq<char>>,
}

/// Extended configuration: cache quotas, source toggles and license policy.
#[derive(Debug, Clone)]
pub struct EnhancedResolverConfig {
    pub base: ResolverConfig,
    pub cache_enabled: bool,
    pub memory_limit_mb: usize,
    pub disk_limit_mb: usize,
    pub auto_pin_threshold: u32,
    pub cache_cleanup_mode: CacheCleanupMode,
    pub system_fonts_enabled: bool,
    pub web_fonts_enabled: bool,
    pub custom_fonts_enabled: bool,
    pub font_source_priority: FontSourcePriority,
    pub license_warnings: LicenseWarningLevel,
    pub watermark_commercial: bool,
    pub auto_setup_completed: bool,
    pub telemetry_enabled: bool,
    pub dynamic_learning_enabled: bool,
    pub project_asset_dirs: Vec<String>,
}

impl View for EnhancedResolverConfig {
    type V = EnhancedResolverConfigV;

    open spec fn view(&self) -> EnhancedResolverConfigV {
        EnhancedResolverConfigV {
            base: self.base@,
            cache_enabled: self.cache_enabled,
            memory_limit_mb: self.memory_limit_mb,
            disk_limit_mb: self.disk_limit_mb,
            auto_pin_threshold: self.auto_pin_threshold,
            cache_cleanup_mode: self.cache_cleanup_mode,
            system_fonts_enabled: self.system_fonts_enabled,
            web_fonts_enabled: self.web_fonts_enabled,
            custom_fonts_enabled: self.custom_fonts_enabled,
            font_source_priority: self.font_source_priority@,
            license_warnings: self.license_warnings,
            watermark_commercial: self.watermark_commercial,
            auto_setup_completed: self.auto_setup_completed,
            telemetry_enabled: self.telemetry_enabled,
            dynamic_learning_enabled: self.dynamic_learning_enabled,
            project_asset_dirs: self.project_asset_dirs@.map_values(|s: String| s@),
        }
    }
}

impl Default for EnhancedResolverConfig {
    fn default() -> (r: EnhancedResolverConfig)
        ensures
            r.cache_enabled,
            r.memory_limit_mb == 2,
            r.disk_limit_mb == 10,
            r.auto_pin_threshold == 5,
            r.cache_cleanup_mode == CacheCleanupMode::Manual,
            r.system_fonts_enabled,
            !r.web_fonts_enabled,
            !r.custom_fonts_enabled,
            r.license_warnings == LicenseWarningLevel::Off,
            !r.watermark_commercial,
            !r.auto_setup_completed,
            !r.telemetry_enabled,
            r.dynamic_learning_enabled,
            r.project_asset_dirs@.len() == 0,
    {
        EnhancedResolverConfig {
            base: Default::default(),
            cache_enabled: true,
            memory_limit_mb: 2,
            disk_limit_mb: 10,
            auto_pin_threshold: 5,
            cache_cleanup_mode: CacheCleanupMode::Manual,
            system_fonts_enabled: true,
            web_fonts_enabled: false,
            custom_fonts_enabled: false,
            font_source_priority: FontSourcePriority::SystemOnly,
            license_warnings: LicenseWarningLevel::Off,
            watermark_commercial: false,
            auto_setup_completed: false,
            telemetry_enabled: false,
            dynamic_learning_enabled: true,
            project_asset_dirs: Vec::new(),
        }
    }
}

/// Answers collected by the interactive setup.
#[derive(Debug, Clone, Copy, PartialEq, Eq, Structural)]
pub struct SetupConfig {
    pub memory_limit_mb: usize,
    pub enable_web_fonts: bool,
    pub enable_license_warnings: bool,
    pub auto_pin_fonts: bool,
}

impl Default for SetupConfig {
    fn default() -> (r: SetupConfig)
        ensures
            r == (SetupConfig {
                memory_limit_mb: 2,
                enable_web_fonts: false,
                enable_license_warnings: true,
                auto_pin_fonts: true,
            }),
    {
        SetupConfig {
            memory_limit_mb: 2,
            enable_web_fonts: false,
            enable_license_warnings: true,
            auto_pin_fonts: true,
        }
    }
}

/// Turns setup answers into a full configuration.
pub fn apply_setup(config: &SetupConfig) -> (r: EnhancedResolverConfig)
    ensures
        r.cache_enabled,
        r.memory_limit_mb == config.memory_limit_mb,
        r.disk_limit_mb == 10,
        r.auto_pin_threshold == if config.auto_pin_fonts { 5u32 } else { 0u32 },
        r.web_fonts_enabled == config.enable_web_fonts,
        r.license_warnings == if config.enable_license_warnings {
            LicenseWarningLevel::All
        } else {
            LicenseWarningLevel::Off
        },
        r.auto_setup_completed,
{
    EnhancedResolverConfig {
        base: Default::default(),
        cache_enabled: true,
        memory_limit_mb: config.memory_limit_mb,
        disk_limit_mb: 10,
        auto_pin_threshold: if config.auto_pin_fonts {
            5
        } else {
            0
        },
        cache_cleanup_mode: CacheCleanupMode::Manual,
        system_fonts_enabled: true,
        web_fonts_enabled: config.enable_web_fonts,
        custom_fonts_enabled: false,
        font_source_priority: if config.enable_web_fonts {
            FontSourcePriority::SystemThenWeb
        } else {
            FontSourcePriority::SystemOnly
        },
        license_warnings: if config.enable_license_warnings {
            LicenseWarningLevel::All
        } else {
            LicenseWarningLevel::Off
        },
        watermark_commercial: false,
        auto_setup_completed: true,
        telemetry_enabled: false,
        dynamic_learning_enabled: true,
        project_asset_dirs: Vec::new(),
    }
}

} // verus!
