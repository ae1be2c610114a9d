use font_resolver::cache::HybridFontCache;
use font_resolver::compressor::{
    decode_database, encode_database, try_load_simple_database, CompressedFontData,
    CompressedFontDatabase, CompressedLicense, FontCategory, FontCompressor, FontDatabaseMetadata,
};
use font_resolver::normalize::FontNormalizer;
use font_resolver::resolver::{EnhancedFontResolver, FontResolver, TieredResolutionResult};
use font_resolver::similarity::{FontSimilarityEngine, MatchTier, SuggestionSource};
use font_resolver::types::{
    EnhancedResolverConfig, FontDescriptor, FontFormat, FontRequest, FontStyle, ResolverConfig,
};
use font_resolver::FontError;
use font_resolver::updater::{calculate_checksum, checksum_matches, merge_databases};

fn desc(family: &str, weight: u16, italic: bool, monospaced: bool) -> FontDescriptor {
    FontDescriptor {
        family: family.to_string(),
        subfamily: None,
        postscript_name: family.to_lowercase().replace(' ', "-"),
        full_name: Some(family.to_string()),
        path: format!("/fonts/{}.ttf", family.to_lowercase().replace(' ', "")),
        format: FontFormat::Ttf,
        weight,
        italic,
        monospaced,
        variable: false,
        metrics: None,
        license: None,
    }
}

fn request(family: &str, weight: u16, italic: bool, monospaced: bool) -> FontRequest {
    FontRequest {
        original_name: family.to_string(),
        normalized_name: family.to_string(),
        family: family.to_string(),
        weight,
        style: if italic { FontStyle::Italic } else { FontStyle::Normal },
        italic,
        monospaced,
    }
}

#[test]
fn test_score_is_bounded() {
    let engine = FontSimilarityEngine::new(None);
    let req = request("arial", 400, false, false);
    let fonts = [
        desc("Arial", 400, false, false),
        desc("Courier New", 700, true, true),
        desc("Wingdings", 900, false, false),
        desc("Zapf Dingbats", 100, true, false),
    ];
    for f in &fonts {
        let (score, _) = engine.calculate_comprehensive_similarity(&req, f, true);
        assert!(score.overall <= 1000);
    }
}

#[test]
fn test_self_match_is_exact_tier() {
    let engine = FontSimilarityEngine::new(None);
    let font = desc("Arial", 400, false, false);
    let req = request("Arial", 400, false, false);
    let (score, _) = engine.calculate_comprehensive_similarity(&req, &font, true);
    assert!(score.overall >= 900, "score {}", score.overall);
    assert!(matches!(MatchTier::from_score(score.overall), MatchTier::Exact(_)));
}

#[test]
fn test_monospace_mismatch_strictly_reduces() {
    let engine = FontSimilarityEngine::new(None);
    let req = request("arial", 400, false, false);
    let same = desc("Arial", 400, false, false);
    let flipped = desc("Arial", 400, false, true);
    let (a, _) = engine.calculate_comprehensive_similarity(&req, &same, false);
    let (b, _) = engine.calculate_comprehensive_similarity(&req, &flipped, false);
    assert!(b.overall < a.overall, "{} vs {}", b.overall, a.overall);
}

#[test]
fn test_tier_partition_total_order() {
    // tiers never overlap: any Exact score beats any Similar score,
    // which beats any Low score
    for s in [900u32, 950, 1000] {
        assert!(matches!(MatchTier::from_score(s), MatchTier::Exact(_)));
    }
    for s in [800u32, 850, 899] {
        assert!(matches!(MatchTier::from_score(s), MatchTier::Similar(_)));
    }
    for s in [0u32, 500, 799] {
        assert!(matches!(MatchTier::from_score(s), MatchTier::Low(_)));
    }
}

#[test]
fn test_tiered_similar_prefers_bold_variant() {
    let engine = FontSimilarityEngine::new(None);
    let req = request("arial-bold", 700, false, false);
    let fonts = vec![desc("Arial", 400, false, false), desc("Arial Bold", 700, false, false)];
    let result = engine.find_tiered_matches(&req, &fonts, 5);
    assert!(!result.matches.is_empty());
    assert!(matches!(result.best_tier, MatchTier::Exact(_)));
    assert_eq!(result.matches[0].font.family, "Arial Bold");
}

#[test]
fn test_substitution_fallback_names_arial() {
    let engine = FontSimilarityEngine::new(None);
    let req = request("Helvetica", 400, false, false);
    let suggestion = engine.get_best_substitution(&req);
    assert_eq!(suggestion.font.family, "arial");
    assert!(matches!(suggestion.source, SuggestionSource::Substitution));
}

#[test]
fn test_basic_resolver_substitution() {
    let config = ResolverConfig::default();
    let resolver = FontResolver::new(config);
    let fonts = vec![desc("Arial", 400, false, false), desc("Times New Roman", 400, false, false)];
    let result = resolver.resolve("NonexistentFont-123", &fonts).unwrap();
    assert!(result.substituted);
    assert!(matches!(
        result.substitution_reason,
        Some(font_resolver::types::SubstitutionReason::FontNotFound)
    ));
}

#[test]
fn test_cache_pin_survives_cleanup() {
    let mut cache = HybridFontCache::new(2, 10, 0).unwrap();
    cache.put("A", desc("Alpha", 400, false, false)).unwrap();
    cache.pin_font("A");
    cache.put("B", desc("Beta", 400, false, false)).unwrap();
    let removed = cache.cleanup(true).unwrap();
    assert_eq!(removed, 1);
    assert!(cache.get("A").is_some());
    assert!(cache.get("B").is_none());
    let pinned = cache.list_pinned();
    assert!(pinned.contains(&"A".to_string()));
}

#[test]
fn test_cache_get_after_put() {
    let mut cache = HybridFontCache::new(2, 10, 0).unwrap();
    let d = desc("Gamma", 500, true, false);
    cache.put("Gamma", d.clone()).unwrap();
    let got = cache.get("Gamma").unwrap();
    assert_eq!(got.family, "Gamma");
    assert_eq!(got.weight, 500);
    assert!(got.italic);
}

#[test]
fn test_cache_quota_guard() {
    // 1 MB quota; each plain face is estimated at 50 KB, so the 21st put
    // (projecting 1050 KB) must fail with the memory error
    let mut cache = HybridFontCache::new(1, 100, 0).unwrap();
    for i in 0..20 {
        let name = format!("Face{}", i);
        cache.put(&name, desc(&name, 400, false, false)).unwrap();
    }
    let r = cache.put("Overflow", desc("Overflow", 400, false, false));
    assert!(matches!(r, Err(FontError::MemoryLimitExceeded(_, _))));
}

#[test]
fn test_cache_cleanup_idempotent() {
    let mut cache = HybridFontCache::new(2, 10, 0).unwrap();
    for i in 0..6 {
        let name = format!("Face{}", i);
        cache.put(&name, desc(&name, 400, false, false)).unwrap();
    }
    cache.pin_font("Face0");
    cache.pin_font("Face1");
    // every unpinned entry has been used exactly once, so one aggressive
    // pass takes all four; a second pass finds a steady state
    let first = cache.cleanup(true).unwrap();
    assert_eq!(first, 4);
    let second = cache.cleanup(true).unwrap();
    assert_eq!(second, 0);
}

#[test]
fn test_cache_stats_shape() {
    let mut cache = HybridFontCache::new(2, 10, 0).unwrap();
    cache.put("One", desc("One", 400, false, false)).unwrap();
    cache.pin_font("One");
    let stats = cache.stats().unwrap();
    assert_eq!(stats.memory_entries, 1);
    assert_eq!(stats.pinned_fonts, 1);
    assert_eq!(stats.memory_usage_kb, 50);
    assert_eq!(stats.disk_entries, 0);
    assert_eq!(stats.disk_usage_kb, 0);
}

fn record(family: &str, weight: u16, italic: bool) -> CompressedFontData {
    CompressedFontData {
        family: family.to_string(),
        postscript_name: family.to_lowercase(),
        weight,
        italic,
        monospaced: false,
        metrics: None,
        license: CompressedLicense {
            name: "System Font".to_string(),
            url: String::new(),
            allows_embedding: true,
            allows_modification: false,
            requires_attribution: false,
            allows_commercial_use: true,
        },
        category: FontCategory::SansSerif,
        similar_fonts: Vec::new(),
        download_urls: Vec::new(),
        file_size_kb: 50,
        popularity: 50,
    }
}

#[test]
fn test_codec_round_trip() {
    let db = CompressedFontDatabase {
        metadata: FontDatabaseMetadata {
            version: "0.1.0".to_string(),
            font_count: 2,
            compressed_size_bytes: 0,
            original_size_bytes: 102400,
            created_at: "2024-01-01T00:00:00Z".to_string(),
            categories: vec![(FontCategory::SansSerif, 2)],
            include_full_data: true,
        },
        fonts: vec![record("Arial", 400, false), record("Times", 700, true)],
        similarity_matrix: Some(vec![("arial".to_string(), vec![("times".to_string(), 600u32)])]),
    };
    let payload = encode_database(&db);
    let back = decode_database(&payload).expect("payload parses");
    assert_eq!(back.fonts.len(), 2);
    assert_eq!(back.fonts[0].family, "Arial");
    assert_eq!(back.fonts[1].family, "Times");
    assert_eq!(back.fonts[1].weight, 700);
    assert!(back.fonts[1].italic);
    assert_eq!(back.metadata.version, "0.1.0");
    assert!(back.similarity_matrix.is_some());
}

#[test]
fn test_compress_decompress_round_trip() {
    let compressor = FontCompressor::new(11, true);
    let fonts = vec![
        desc("Arial", 400, false, false),
        desc("Arial", 400, false, false), // duplicate: first one wins
        desc("Times New Roman", 700, true, false),
    ];
    let blob = compressor.compress_font_database(&fonts, true).unwrap();
    let db = compressor.decompress_font_database(&blob).unwrap();
    assert_eq!(db.fonts.len(), 2);
    assert_eq!(db.fonts[0].family, "Arial");
    assert_eq!(db.fonts[1].family, "Times New Roman");
    // the size field reports the blob the database was read from
    assert_eq!(db.metadata.compressed_size_bytes, blob.len());
}

#[test]
fn test_simple_format_fixture() {
    let mut data: Vec<u8> = Vec::new();
    data.extend_from_slice(b"FONTDBv1.0");
    data.extend_from_slice(&[0x02, 0x00, 0x00, 0x00]);
    data.extend_from_slice(&[0x05]);
    data.extend_from_slice(b"Arial");
    data.extend_from_slice(&[0x90, 0x01]);
    data.push(0x00);
    data.extend_from_slice(&[0x05]);
    data.extend_from_slice(b"Times");
    data.extend_from_slice(&[0x90, 0x01]);
    data.push(0x00);
    let db = try_load_simple_database(&data).expect("simple format loads");
    assert_eq!(db.fonts.len(), 2);
    assert_eq!(db.fonts[0].family, "Arial");
    assert_eq!(db.fonts[0].weight, 400);
    assert!(!db.fonts[0].italic);
    assert_eq!(db.fonts[1].family, "Times");
    assert_eq!(db.fonts[1].weight, 400);
    assert!(!db.fonts[1].italic);
}

#[test]
fn test_simple_format_rejects_garbage() {
    assert!(try_load_simple_database(&b"NOTAFONTDB".to_vec()).is_none());
    assert!(try_load_simple_database(&b"FONTDBv1.0".to_vec()).is_none());
}

#[test]
fn test_checksum_round_trip() {
    let data = b"the quick brown fox".to_vec();
    let sum = calculate_checksum(&data);
    assert_eq!(sum.len(), 64);
    assert!(checksum_matches(&data, &sum));
    assert!(!checksum_matches(&data, &"00".repeat(32)));
}

#[test]
fn test_merge_databases_replaces_and_appends() {
    let current = CompressedFontDatabase {
        metadata: FontDatabaseMetadata {
            version: "1".to_string(),
            font_count: 2,
            compressed_size_bytes: 0,
            original_size_bytes: 0,
            created_at: String::new(),
            categories: Vec::new(),
            include_full_data: false,
        },
        fonts: vec![record("Arial", 400, false), record("Times", 400, false)],
        similarity_matrix: None,
    };
    let update = CompressedFontDatabase {
        metadata: FontDatabaseMetadata {
            version: "2".to_string(),
            font_count: 2,
            compressed_size_bytes: 0,
            original_size_bytes: 0,
            created_at: String::new(),
            categories: Vec::new(),
            include_full_data: false,
        },
        fonts: vec![record("Arial", 700, true), record("Roboto", 400, false)],
        similarity_matrix: None,
    };
    let (merged, changes) = merge_databases(&current, &update);
    assert_eq!(changes.added_fonts, vec!["Roboto".to_string()]);
    assert_eq!(changes.updated_fonts, vec!["Arial".to_string()]);
    assert_eq!(merged.fonts.len(), 3);
    assert_eq!(merged.fonts[0].family, "Arial");
    assert_eq!(merged.fonts[0].weight, 700);
    assert_eq!(merged.fonts[1].family, "Times");
    assert_eq!(merged.fonts[2].family, "Roboto");
    assert!(merged.similarity_matrix.is_none());
    assert_eq!(merged.metadata.version, "2");
}

#[test]
fn test_exact_cached_hit() {
    let mut config = EnhancedResolverConfig::default();
    config.cache_enabled = true;
    let mut resolver = EnhancedFontResolver::new(config).unwrap();
    let arial = desc("Arial", 400, false, false);
    resolver.provide_scanned_fonts(vec![arial.clone()]);
    let first = resolver.resolve_with_sources("arial").unwrap();
    assert_eq!(first.font.family, "Arial");
    let second = resolver.resolve_with_sources("arial").unwrap();
    assert!(second.warnings.iter().any(|w| w.to_lowercase().contains("cache")));
    assert_eq!(second.font.family, "Arial");
}

#[test]
fn test_get_suggestions_threshold() {
    let mut config = EnhancedResolverConfig::default();
    config.cache_enabled = false;
    let mut resolver = EnhancedFontResolver::new(config).unwrap();
    resolver.provide_scanned_fonts(vec![
        desc("Arial", 400, false, false),
        desc("Arial Bold", 700, false, false),
        desc("Courier New", 400, false, true),
    ]);
    let suggestions = resolver.get_suggestions("Arial", None).unwrap();
    assert!(!suggestions.is_empty());
    // sorted by score descending
    for w in suggestions.windows(2) {
        assert!(w[0].score >= w[1].score);
    }
    // a perfect match truncates to at most four entries
    if suggestions[0].score > 980 {
        assert!(suggestions.len() <= 4);
    }
}

#[test]
fn test_tiered_resolution_suggests_internet() {
    let mut config = EnhancedResolverConfig::default();
    config.cache_enabled = false;
    config.web_fonts_enabled = false;
    let mut resolver = EnhancedFontResolver::new(config).unwrap();
    resolver.provide_scanned_fonts(vec![desc("Wingdings", 400, false, false)]);
    let r = resolver
        .resolve_with_tiered_matching("CompletelyUnrelatedTypeface", false)
        .unwrap();
    assert!(matches!(r, TieredResolutionResult::SuggestInternet));
}

#[test]
fn test_normalize_pipeline_end_to_end() {
    let normalizer = FontNormalizer;
    let req = normalizer.normalize("ABCDEE+OpenSans-Bold").unwrap();
    assert_eq!(req.family, "opensans");
    assert_eq!(req.weight, 700);
    assert!(!req.italic);
    assert!(!req.monospaced);
}

#[test]
fn test_provider_merge_dedup_and_order() {
    let lists = vec![
        vec![record("Roboto", 400, false), record("Lato", 400, false)],
        vec![record("Roboto", 700, true), record("Roboto Slab", 400, false)],
    ];
    let merged =
        font_resolver::acquisition::merge_provider_results(&lists, &"Roboto".to_string());
    // the duplicate Roboto from the second provider is dropped
    assert_eq!(merged.len(), 3);
    // faces whose family contains the query come first
    assert!(merged[0].family.contains("Roboto"));
    assert!(merged[1].family.contains("Roboto"));
    assert_eq!(merged[2].family, "Lato");
    // the first observation of Roboto (weight 400) is the one kept
    let roboto = merged.iter().find(|f| f.family == "Roboto").unwrap();
    assert_eq!(roboto.weight, 400);
}

#[test]
fn test_provider_merge_family_ascending() {
    let lists = vec![
        vec![record("Zeta Sans", 400, false), record("Beta", 400, false)],
        vec![record("Alpha Sans", 400, false), record("Arial", 400, false)],
    ];
    let merged = font_resolver::acquisition::merge_provider_results(&lists, &"sans".to_string());
    let names: Vec<&str> = merged.iter().map(|f| f.family.as_str()).collect();
    // query hits first, each group sorted by family name ascending
    assert_eq!(names, vec!["Alpha Sans", "Zeta Sans", "Arial", "Beta"]);
}

#[test]
fn test_find_similar_fonts_category_and_guess() {
    let db = font_resolver::webdb::WebFontDatabase::create_minimal_database();
    // the only family is the base itself, so nothing can stand in for it
    let sims = db.find_similar_fonts("Roboto", 5);
    assert!(sims.is_empty());
    // an unknown name guesses sans-serif and finds the one sans-serif family
    let sims2 = db.find_similar_fonts("Unknown", 5);
    assert_eq!(sims2.len(), 1);
    assert_eq!(sims2[0].family, "Roboto");
    // an unknown monospace-looking name finds nothing here
    let sims3 = db.find_similar_fonts("Some Console", 5);
    assert!(sims3.is_empty());
    // a zero limit returns nothing
    assert!(db.find_similar_fonts("Unknown", 0).is_empty());
}

#[test]
fn test_license_checker_grades() {
    let checker = font_resolver::license::LicenseChecker::new();
    let helvetica = desc("Helvetica", 400, false, false);
    let w = checker.check_font(&helvetica);
    assert!(matches!(w.license_type, font_resolver::license::LicenseType::Commercial));
    assert!(matches!(w.warning_level, font_resolver::license::WarningLevel::Warning));
    let arial = desc("Arial", 400, false, false);
    let w2 = checker.check_font(&arial);
    assert!(matches!(w2.warning_level, font_resolver::license::WarningLevel::Info));
    let noto = desc("Noto Sans", 400, false, false);
    let w3 = checker.check_font(&noto);
    assert!(matches!(w3.license_type, font_resolver::license::LicenseType::OpenSource));
}

#[test]
fn test_web_db_lookup_and_alias() {
    let db = font_resolver::webdb::WebFontDatabase::create_minimal_database();
    assert!(db.is_loaded());
    assert_eq!(db.count(), 1);
    let direct = db.find_font("Roboto").unwrap();
    assert_eq!(direct.family, "Roboto");
    let via_alias = db.find_font("Helvetica").unwrap();
    assert_eq!(via_alias.family, "Roboto");
}
