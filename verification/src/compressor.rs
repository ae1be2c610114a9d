//! Compressed font database: compact per-face records, database metadata,
//! and the two-layer codec (a self-describing binary payload inside a
//! brotli stream), plus the simple fallback format.
//!
//! The inner payload is this library's own fixed little-endian framing,
//! stated field by field by the spec functions below; it is not the
//! output of a general serializer, and a database blob is interchanged
//! only between writers and readers of this same framing.

use vstd::prelude::*;

use crate::outside::brotli_of;
use crate::text::{contains_sub, lower_seq, lower_vec, str_chars, string_chars, contains_vec};
use crate::types::{FontDescriptor, FontDescriptorV, FontFormat, FontMetrics, LicenseInfo};

verus! {

/// Coarse stylistic category of a face.
#[derive(Debug, Clone, Copy, PartialEq, Eq, Structural, Hash)]
pub enum FontCategory {
    Serif,
    SansSerif,
    Monospace,
    Display,
    Handwriting,
    Decorative,
    Symbol,
    Other,
}

/// Compact metrics kept in the database.
#[derive(Debug, Clone, Copy, PartialEq, Eq, Structural)]
pub struct CompressedMetrics {
    pub units_per_em: u16,
    pub ascender: i16,
    pub descender: i16,
    pub x_height: i16,
    pub cap_height: i16,
    pub average_width: i16,
}

pub struct CompressedLicenseV {
    pub name: Seq<char>,
    pub url: Seq<char>,
    pub allows_embedding: bool,
    pub allows_modification: bool,
    pub requires_attribution: bool,
    pub allows_commercial_use: bool,
}

#[derive(Debug, Clone)]
pub struct CompressedLicense {
    pub name: String,
    pub url: String,
    pub allows_embedding: bool,
    pub allows_modification: bool,
    pub requires_attribution: bool,
    pub allows_commercial_use: bool,
}

impl View for CompressedLicense {
    type V = CompressedLicenseV;

    open spec fn view(&self) -> CompressedLicenseV {
        CompressedLicenseV {
            name: self.name@,
            url: self.url@,
            allows_embedding: self.allows_embedding,
            allows_modification: self.allows_modification,
            requires_attribution: self.requires_attribution,
            allows_commercial_use: self.allows_commercial_use,
        }
    }
}

impl CompressedLicense {
    pub fn duplicate(&self) -> (r: CompressedLicense)
        ensures
            r@ == self@,
    {
        CompressedLicense {
            name: self.name.clone(),
            url: self.url.clone(),
            allows_embedding: self.allows_embedding,
            allows_modification: self.allows_modification,
            requires_attribution: self.requires_attribution,
            allows_commercial_use: self.allows_commercial_use,
        }
    }
}

pub struct CompressedFontDataV {
    pub family: Seq<char>,
    pub postscript_name: Seq<char>,
    pub weight: u16,
    pub italic: bool,
    pub monospaced: bool,
    pub metrics: Option<CompressedMetrics>,
    pub license: CompressedLicenseV,
    pub category: FontCategory,
    pub similar_fonts: Seq<Seq<char>>,
    pub download_urls: Seq<(FontFormat, Seq<char>)>,
    pub file_size_kb: u32,
    pub popularity: u8,
}

/// One face as stored in the compressed database.  Download locations are
/// an association list from format to URL.
#[derive(Debug, Clone)]
pub struct CompressedFontData {
    pub family: String,
    pub postscript_name: String,
    pub weight: u16,
    pub italic: bool,
    pub monospaced: bool,
    pub metrics: Option<CompressedMetrics>,
    pub license: CompressedLicense,
    pub category: FontCategory,
    pub similar_fonts: Vec<String>,
    pub download_urls: Vec<(FontFormat, String)>,
    pub file_size_kb: u32,
    pub popularity: u8,
}

impl View for CompressedFontData {
    type V = CompressedFontDataV;

    open spec fn view(&self) -> CompressedFontDataV {
        CompressedFontDataV {
            family: self.family@,
            postscript_name: self.postscript_name@,
            weight: self.weight,
            italic: self.italic,
            monospaced: self.monospaced,
            metrics: self.metrics,
            license: self.license@,
            category: self.category,
            similar_fonts: self.similar_fonts@.map_values(|s: String| s@),
            download_urls: self.download_urls@.map_values(
                |p: (FontFormat, String)| (p.0, p.1@),
            ),
            file_size_kb: self.file_size_kb,
            popularity: self.popularity,
        }
    }
}

impl CompressedFontData {
    pub fn duplicate(&self) -> (r: CompressedFontData)
        ensures
            r@ == self@,
    {
        let mut similar: Vec<String> = Vec::new();
        let mut i: usize = 0;
        while i < self.similar_fonts.len()
            invariant
                i <= self.similar_fonts@.len(),
                similar@.len() == i,
                forall|j: int| 0 <= j < i ==> #[trigger] similar@[j]@ == self.similar_fonts@[j]@,
            decreases self.similar_fonts@.len() - i,
        {
            similar.push(self.similar_fonts[i].clone());
            i += 1;
        }
        let mut urls: Vec<(FontFormat, String)> = Vec::new();
        let mut i: usize = 0;
        while i < self.download_urls.len()
            invariant
                i <= self.download_urls@.len(),
                urls@.len() == i,
                forall|j: int|
                    0 <= j < i ==> #[trigger] urls@[j].0 == self.download_urls@[j].0
                        && urls@[j].1@ == self.download_urls@[j].1@,
            decreases self.download_urls@.len() - i,
        {
            let p = &self.download_urls[i];
            urls.push((p.0, p.1.clone()));
            i += 1;
        }
        let r = CompressedFontData {
            family: self.family.clone(),
            postscript_name: self.postscript_name.clone(),
            weight: self.weight,
            italic: self.italic,
            monospaced: self.monospaced,
            metrics: self.metrics,
            license: self.license.duplicate(),
            category: self.category,
            similar_fonts: similar,
            download_urls: urls,
            file_size_kb: self.file_size_kb,
            popularity: self.popularity,
        };
        proof {
            assert(r.similar_fonts@.map_values(|s: String| s@)
                =~= self.similar_fonts@.map_values(|s: String| s@));
            assert(r.download_urls@.map_values(|p: (FontFormat, String)| (p.0, p.1@))
                =~= self.download_urls@.map_values(|p: (FontFormat, String)| (p.0, p.1@)));
        }
        r
    }
}

pub struct FontDatabaseMetadataV {
    pub version: Seq<char>,
    pub font_count: usize,
    pub compressed_size_bytes: usize,
    pub original_size_bytes: usize,
    pub created_at: Seq<char>,
    pub categories: Seq<(FontCategory, usize)>,
    pub include_full_data: bool,
}

/// Self-describing header of a compressed database.  The category
/// histogram is an association list.
#[derive(Debug, Clone)]
pub struct FontDatabaseMetadata {
    pub version: String,
    pub font_count: usize,
    pub compressed_size_bytes: usize,
    pub original_size_bytes: usize,
    pub created_at: String,
    pub categories: Vec<(FontCategory, usize)>,
    pub include_full_data: bool,
}

impl View for FontDatabaseMetadata {
    type V = FontDatabaseMetadataV;

    open spec fn view(&self) -> FontDatabaseMetadataV {
        FontDatabaseMetadataV {
            version: self.version@,
            font_count: self.font_count,
            compressed_size_bytes: self.compressed_size_bytes,
            original_size_bytes: self.original_size_bytes,
            created_at: self.created_at@,
            categories: self.categories@,
            include_full_data: self.include_full_data,
        }
    }
}

pub struct CompressedFontDatabaseV {
    pub metadata: FontDatabaseMetadataV,
    pub fonts: Seq<CompressedFontDataV>,
    pub similarity_matrix: Option<Seq<(Seq<char>, Seq<(Seq<char>, u32)>)>>,
}

/// The whole database: metadata, the ordered list of faces, and an
/// optional precomputed similarity matrix (scores in permille).
#[derive(Debug, Clone)]
pub struct CompressedFontDatabase {
    pub metadata: FontDatabaseMetadata,
    pub fonts: Vec<CompressedFontData>,
    pub similarity_matrix: Option<Vec<(String, Vec<(String, u32)>)>>,
}

pub open spec fn matrix_view(m: Seq<(String, Vec<(String, u32)>)>) -> Seq<
    (Seq<char>, Seq<(Seq<char>, u32)>),
> {
    m.map_values(
        |row: (String, Vec<(String, u32)>)|
            (row.0@, row.1@.map_values(|p: (String, u32)| (p.0@, p.1))),
    )
}

impl View for CompressedFontDatabase {
    type V = CompressedFontDatabaseV;

    open spec fn view(&self) -> CompressedFontDatabaseV {
        CompressedFontDatabaseV {
            metadata: self.metadata@,
            fonts: self.fonts@.map_values(|f: CompressedFontData| f@),
            similarity_matrix: match self.similarity_matrix {
                Some(m) => Some(matrix_view(m@)),
                None => None,
            },
        }
    }
}

// ----- category detection and size estimation ------------------------------

/// Category from family-name substrings, monospace flag first.
pub open spec fn detect_category_spec(family: Seq<char>, monospaced: bool) -> FontCategory {
    let low = lower_seq(family);
    if monospaced {
        FontCategory::Monospace
    } else if contains_sub(low, "serif"@) || contains_sub(low, "times"@) || contains_sub(
        low,
        "garamond"@,
    ) || contains_sub(low, "georgia"@) {
        FontCategory::Serif
    } else if contains_sub(low, "sans"@) || contains_sub(low, "arial"@) || contains_sub(
        low,
        "helvetica"@,
    ) || contains_sub(low, "roboto"@) {
        FontCategory::SansSerif
    } else if contains_sub(low, "script"@) || contains_sub(low, "hand"@) || contains_sub(
        low,
        "cursive"@,
    ) {
        FontCategory::Handwriting
    } else if contains_sub(low, "display"@) || contains_sub(low, "decorative"@) || contains_sub(
        low,
        "fantasy"@,
    ) {
        FontCategory::Display
    } else if contains_sub(low, "symbol"@) || contains_sub(low, "dingbat"@) || contains_sub(
        low,
        "wingding"@,
    ) {
        FontCategory::Symbol
    } else {
        FontCategory::Other
    }
}

/// Estimated size of a face file in kilobytes.
pub open spec fn estimate_file_size_spec(weight: u16, variable: bool) -> u32 {
    let base: u32 = 50;
    let var_pen: u32 = if variable {
        100
    } else {
        0
    };
    let weight_pen: u32 = if weight > 400 {
        ((weight - 400) / 100) as u32
    } else {
        0
    };
    if base + var_pen + weight_pen < 20 {
        20
    } else {
        (base + var_pen + weight_pen) as u32
    }
}

// ----- byte-level encoding primitives ---------------------------------------
//
// The database payload is a self-describing binary layout: little-endian
// fixed-width integers, u64 length prefixes, UTF-8 string bodies.

pub open spec fn u16_bytes(n: u16) -> Seq<u8> {
    seq![(n & 0xff) as u8, ((n >> 8) & 0xff) as u8]
}

pub open spec fn u32_bytes(n: u32) -> Seq<u8> {
    seq![
        (n & 0xff) as u8,
        ((n >> 8) & 0xff) as u8,
        ((n >> 16) & 0xff) as u8,
        ((n >> 24) & 0xff) as u8,
    ]
}

pub open spec fn u64_bytes(n: u64) -> Seq<u8> {
    seq![
        (n & 0xff) as u8,
        ((n >> 8) & 0xff) as u8,
        ((n >> 16) & 0xff) as u8,
        ((n >> 24) & 0xff) as u8,
        ((n >> 32) & 0xff) as u8,
        ((n >> 40) & 0xff) as u8,
        ((n >> 48) & 0xff) as u8,
        ((n >> 56) & 0xff) as u8,
    ]
}

pub open spec fn u16_of_bytes(b0: u8, b1: u8) -> u16 {
    (b0 as u16) | ((b1 as u16) << 8)
}

pub open spec fn u32_of_bytes(b0: u8, b1: u8, b2: u8, b3: u8) -> u32 {
    (b0 as u32) | ((b1 as u32) << 8) | ((b2 as u32) << 16) | ((b3 as u32) << 24)
}

pub open spec fn u64_of_bytes(b0: u8, b1: u8, b2: u8, b3: u8, b4: u8, b5: u8, b6: u8,
    b7: u8) -> u64 {
    (b0 as u64) | ((b1 as u64) << 8) | ((b2 as u64) << 16) | ((b3 as u64) << 24) | ((b4
        as u64) << 32) | ((b5 as u64) << 40) | ((b6 as u64) << 48) | ((b7 as u64) << 56)
}

pub proof fn lemma_u16_roundtrip(n: u16)
    ensures
        u16_of_bytes(u16_bytes(n)[0], u16_bytes(n)[1]) == n,
{
    assert(((n & 0xff) as u8 as u16) | ((((n >> 8) & 0xff) as u8 as u16) << 8) == n)
        by (bit_vector);
}

pub proof fn lemma_u32_roundtrip(n: u32)
    ensures
        u32_of_bytes(u32_bytes(n)[0], u32_bytes(n)[1], u32_bytes(n)[2], u32_bytes(n)[3]) == n,
{
    assert(((n & 0xff) as u8 as u32) | ((((n >> 8) & 0xff) as u8 as u32) << 8) | ((((n >> 16)
        & 0xff) as u8 as u32) << 16) | ((((n >> 24) & 0xff) as u8 as u32) << 24) == n)
        by (bit_vector);
}

pub proof fn lemma_u64_roundtrip(n: u64)
    ensures
        u64_of_bytes(
            u64_bytes(n)[0],
            u64_bytes(n)[1],
            u64_bytes(n)[2],
            u64_bytes(n)[3],
            u64_bytes(n)[4],
            u64_bytes(n)[5],
            u64_bytes(n)[6],
            u64_bytes(n)[7],
        ) == n,
{
    assert(((n & 0xff) as u8 as u64) | ((((n >> 8) & 0xff) as u8 as u64) << 8) | ((((n >> 16)
        & 0xff) as u8 as u64) << 16) | ((((n >> 24) & 0xff) as u8 as u64) << 24) | ((((n >> 32)
        & 0xff) as u8 as u64) << 32) | ((((n >> 40) & 0xff) as u8 as u64) << 40) | ((((n >> 48)
        & 0xff) as u8 as u64) << 48) | ((((n >> 56) & 0xff) as u8 as u64) << 56) == n)
        by (bit_vector);
}

fn enc_u16(out: &mut Vec<u8>, n: u16)
    ensures
        final(out)@ == old(out)@ + u16_bytes(n),
{
    out.push((n & 0xff) as u8);
    out.push(((n >> 8) & 0xff) as u8);
    proof {
        assert(final(out)@ =~= old(out)@ + u16_bytes(n));
    }
}

fn enc_u32(out: &mut Vec<u8>, n: u32)
    ensures
        final(out)@ == old(out)@ + u32_bytes(n),
{
    out.push((n & 0xff) as u8);
    out.push(((n >> 8) & 0xff) as u8);
    out.push(((n >> 16) & 0xff) as u8);
    out.push(((n >> 24) & 0xff) as u8);
    proof {
        assert(final(out)@ =~= old(out)@ + u32_bytes(n));
    }
}

fn enc_u64(out: &mut Vec<u8>, n: u64)
    ensures
        final(out)@ == old(out)@ + u64_bytes(n),
{
    out.push((n & 0xff) as u8);
    out.push(((n >> 8) & 0xff) as u8);
    out.push(((n >> 16) & 0xff) as u8);
    out.push(((n >> 24) & 0xff) as u8);
    out.push(((n >> 32) & 0xff) as u8);
    out.push(((n >> 40) & 0xff) as u8);
    out.push(((n >> 48) & 0xff) as u8);
    out.push(((n >> 56) & 0xff) as u8);
    proof {
        assert(final(out)@ =~= old(out)@ + u64_bytes(n));
    }
}

pub open spec fn bool_byte(b: bool) -> u8 {
    if b {
        1u8
    } else {
        0u8
    }
}

fn enc_bool(out: &mut Vec<u8>, b: bool)
    ensures
        final(out)@ == old(out)@ + seq![bool_byte(b)],
{
    out.push(if b {
        1u8
    } else {
        0u8
    });
    proof {
        assert(final(out)@ =~= old(out)@ + seq![bool_byte(b)]);
    }
}

/// A length-prefixed UTF-8 string block.
pub open spec fn str_block(s: Seq<char>) -> Seq<u8> {
    u64_bytes(vstd::utf8::encode_utf8(s).len() as u64) + vstd::utf8::encode_utf8(s)
}

fn enc_str(out: &mut Vec<u8>, s: &String)
    ensures
        final(out)@ == old(out)@ + str_block(s@),
{
    let bytes = s.as_str().as_bytes_vec();
    enc_u64(out, bytes.len() as u64);
    let mut i: usize = 0;
    let ghost mid = out@;
    while i < bytes.len()
        invariant
            i <= bytes@.len(),
            out@ == mid + bytes@.subrange(0, i as int),
        decreases bytes@.len() - i,
    {
        out.push(bytes[i]);
        proof {
            assert(mid + bytes@.subrange(0, i + 1) =~= (mid + bytes@.subrange(0, i as int)).push(
                bytes@[i as int],
            ));
        }
        i += 1;
    }
    proof {
        assert(bytes@.subrange(0, bytes@.len() as int) =~= bytes@);
        assert(out@ =~= old(out)@ + str_block(s@));
    }
}

// ----- byte-level decoding (cursor style) -----------------------------------

/// Reading a u16 at `pos`.
pub open spec fn sp_dec_u16(b: Seq<u8>, pos: int) -> Option<(u16, int)> {
    if 0 <= pos && pos + 2 <= b.len() {
        Some((u16_of_bytes(b[pos], b[pos + 1]), pos + 2))
    } else {
        None
    }
}

pub open spec fn sp_dec_u32(b: Seq<u8>, pos: int) -> Option<(u32, int)> {
    if 0 <= pos && pos + 4 <= b.len() {
        Some((u32_of_bytes(b[pos], b[pos + 1], b[pos + 2], b[pos + 3]), pos + 4))
    } else {
        None
    }
}

pub open spec fn sp_dec_u64(b: Seq<u8>, pos: int) -> Option<(u64, int)> {
    if 0 <= pos && pos + 8 <= b.len() {
        Some(
            (
                u64_of_bytes(
                    b[pos],
                    b[pos + 1],
                    b[pos + 2],
                    b[pos + 3],
                    b[pos + 4],
                    b[pos + 5],
                    b[pos + 6],
                    b[pos + 7],
                ),
                pos + 8,
            ),
        )
    } else {
        None
    }
}

pub open spec fn sp_dec_bool(b: Seq<u8>, pos: int) -> Option<(bool, int)> {
    if 0 <= pos && pos + 1 <= b.len() {
        Some((b[pos] != 0, pos + 1))
    } else {
        None
    }
}

/// Reading a string block at `pos`: length, then UTF-8 bytes.
pub open spec fn sp_dec_str(b: Seq<u8>, pos: int) -> Option<(Seq<char>, int)> {
    match sp_dec_u64(b, pos) {
        None => None,
        Some((n, p1)) => if p1 + n <= b.len() && vstd::utf8::valid_utf8(
            b.subrange(p1, p1 + n as int),
        ) {
            Some((vstd::utf8::decode_utf8(b.subrange(p1, p1 + n as int)), p1 + n as int))
        } else {
            None
        },
    }
}

fn dec_u16(b: &Vec<u8>, pos: usize) -> (r: Option<(u16, usize)>)
    ensures
        match r {
            Some((v, p)) => sp_dec_u16(b@, pos as int) == Some((v, p as int)),
            None => sp_dec_u16(b@, pos as int) is None,
        },
{
    if pos <= b.len() && b.len() - pos >= 2 {
        Some((u16_from(b[pos], b[pos + 1]), pos + 2))
    } else {
        None
    }
}

fn u16_from(b0: u8, b1: u8) -> (r: u16)
    ensures
        r == u16_of_bytes(b0, b1),
{
    (b0 as u16) | ((b1 as u16) << 8)
}

fn dec_u32(b: &Vec<u8>, pos: usize) -> (r: Option<(u32, usize)>)
    ensures
        match r {
            Some((v, p)) => sp_dec_u32(b@, pos as int) == Some((v, p as int)),
            None => sp_dec_u32(b@, pos as int) is None,
        },
{
    if pos <= b.len() && b.len() - pos >= 4 {
        let v = (b[pos] as u32) | ((b[pos + 1] as u32) << 8) | ((b[pos + 2] as u32) << 16) | ((b[
            pos + 3] as u32) << 24);
        Some((v, pos + 4))
    } else {
        None
    }
}

fn dec_u64(b: &Vec<u8>, pos: usize) -> (r: Option<(u64, usize)>)
    ensures
        match r {
            Some((v, p)) => sp_dec_u64(b@, pos as int) == Some((v, p as int)),
            None => sp_dec_u64(b@, pos as int) is None,
        },
{
    if pos <= b.len() && b.len() - pos >= 8 {
        let v = (b[pos] as u64) | ((b[pos + 1] as u64) << 8) | ((b[pos + 2] as u64) << 16) | ((b[
            pos + 3] as u64) << 24) | ((b[pos + 4] as u64) << 32) | ((b[pos + 5] as u64) << 40)
            | ((b[pos + 6] as u64) << 48) | ((b[pos + 7] as u64) << 56);
        Some((v, pos + 8))
    } else {
        None
    }
}

fn dec_bool(b: &Vec<u8>, pos: usize) -> (r: Option<(bool, usize)>)
    ensures
        match r {
            Some((v, p)) => sp_dec_bool(b@, pos as int) == Some((v, p as int)),
            None => sp_dec_bool(b@, pos as int) is None,
        },
{
    if pos < b.len() {
        Some((b[pos] != 0, pos + 1))
    } else {
        None
    }
}

#[verifier::loop_isolation(false)]
fn dec_str(b: &Vec<u8>, pos: usize) -> (r: Option<(String, usize)>)
    ensures
        match r {
            Some((v, p)) => sp_dec_str(b@, pos as int) == Some((v@, p as int)),
            None => sp_dec_str(b@, pos as int) is None,
        },
{
    match dec_u64(b, pos) {
        None => None,
        Some((n, p1)) => {
            if n <= (b.len() - p1) as u64 {
                let len = n as usize;
                let mut bytes: Vec<u8> = Vec::new();
                let mut i: usize = 0;
                while i < len
                    invariant
                        p1 + len <= b@.len(),
                        i <= len,
                        bytes@ == b@.subrange(p1 as int, p1 + i as int),
                    decreases len - i,
                {
                    proof {
                        assert(p1 + i < b@.len());
                    }
                    bytes.push(b[p1 + i]);
                    proof {
                        assert(b@.subrange(p1 as int, p1 + (i + 1) as int) =~= b@.subrange(
                            p1 as int,
                            p1 + i as int,
                        ).push(b@[p1 + i]));
                    }
                    i += 1;
                }
                let ghost body = b@.subrange(p1 as int, p1 + len as int);
                match crate::outside::string_from_utf8(bytes) {
                    Some(s) => Some((s, p1 + len)),
                    None => None,
                }
            } else {
                None
            }
        },
    }
}

/// Encoded string blocks decode back to the original text.
pub proof fn lemma_str_block_roundtrip(b: Seq<u8>, pos: int, s: Seq<char>)
    requires
        0 <= pos,
        vstd::utf8::encode_utf8(s).len() <= u64::MAX,
        pos + str_block(s).len() <= b.len(),
        b.subrange(pos, pos + str_block(s).len() as int) == str_block(s),
    ensures
        sp_dec_str(b, pos) == Some((s, pos + str_block(s).len() as int)),
{
    broadcast use vstd::utf8::encode_utf8_valid_utf8, vstd::utf8::encode_utf8_decode_utf8;

    let enc = vstd::utf8::encode_utf8(s);
    let blk = str_block(s);
    assert(blk.len() == 8 + enc.len());
    assert forall|k: int| 0 <= k < 8 implies #[trigger] b[pos + k] == u64_bytes(
        enc.len() as u64,
    )[k] by {
        assert(b.subrange(pos, pos + blk.len() as int)[k] == blk[k]);
    }
    assert(b[pos] == u64_bytes(enc.len() as u64)[0]) by {
        assert(b.subrange(pos, pos + blk.len() as int)[0] == blk[0]);
    }
    lemma_u64_roundtrip(enc.len() as u64);
    assert(sp_dec_u64(b, pos) == Some((enc.len() as u64, pos + 8)));
    assert(b.subrange(pos + 8, pos + 8 + enc.len() as int) =~= enc) by {
        assert forall|k: int| 0 <= k < enc.len() implies b.subrange(
            pos + 8,
            pos + 8 + enc.len() as int,
        )[k] == enc[k] by {
            assert(b.subrange(pos, pos + blk.len() as int)[8 + k] == blk[8 + k]);
            assert(blk[8 + k] == enc[k]);
        }
    }
}

/// Fixed-width fields decode back to their value.
pub proof fn lemma_u16_field_roundtrip(b: Seq<u8>, pos: int, n: u16)
    requires
        0 <= pos,
        pos + 2 <= b.len(),
        b.subrange(pos, pos + 2) == u16_bytes(n),
    ensures
        sp_dec_u16(b, pos) == Some((n, pos + 2)),
{
    assert(b[pos] == u16_bytes(n)[0]) by {
        assert(b.subrange(pos, pos + 2)[0] == b[pos]);
    }
    assert(b[pos + 1] == u16_bytes(n)[1]) by {
        assert(b.subrange(pos, pos + 2)[1] == b[pos + 1]);
    }
    lemma_u16_roundtrip(n);
}

pub proof fn lemma_u32_field_roundtrip(b: Seq<u8>, pos: int, n: u32)
    requires
        0 <= pos,
        pos + 4 <= b.len(),
        b.subrange(pos, pos + 4) == u32_bytes(n),
    ensures
        sp_dec_u32(b, pos) == Some((n, pos + 4)),
{
    assert forall|k: int| 0 <= k < 4 implies #[trigger] b[pos + k] == u32_bytes(n)[k] by {
        assert(b.subrange(pos, pos + 4)[k] == b[pos + k]);
    }
    assert(b[pos] == u32_bytes(n)[0]) by {
        assert(b.subrange(pos, pos + 4)[0] == b[pos]);
    }
    lemma_u32_roundtrip(n);
}

pub proof fn lemma_u64_field_roundtrip(b: Seq<u8>, pos: int, n: u64)
    requires
        0 <= pos,
        pos + 8 <= b.len(),
        b.subrange(pos, pos + 8) == u64_bytes(n),
    ensures
        sp_dec_u64(b, pos) == Some((n, pos + 8)),
{
    assert forall|k: int| 0 <= k < 8 implies #[trigger] b[pos + k] == u64_bytes(n)[k] by {
        assert(b.subrange(pos, pos + 8)[k] == b[pos + k]);
    }
    assert(b[pos] == u64_bytes(n)[0]) by {
        assert(b.subrange(pos, pos + 8)[0] == b[pos]);
    }
    lemma_u64_roundtrip(n);
}

pub proof fn lemma_bool_field_roundtrip(b: Seq<u8>, pos: int, v: bool)
    requires
        0 <= pos,
        pos + 1 <= b.len(),
        b.subrange(pos, pos + 1) == seq![bool_byte(v)],
    ensures
        sp_dec_bool(b, pos) == Some((v, pos + 1)),
{
    assert(b.subrange(pos, pos + 1)[0] == b[pos]);
}

/// Splitting a decoded window at a concatenation boundary.
pub proof fn lemma_concat_split(b: Seq<u8>, pos: int, x: Seq<u8>, y: Seq<u8>)
    requires
        0 <= pos,
        pos + x.len() + y.len() <= b.len(),
        b.subrange(pos, pos + x.len() + y.len()) == x + y,
    ensures
        b.subrange(pos, pos + x.len() as int) == x,
        b.subrange(pos + x.len() as int, pos + x.len() + y.len()) == y,
{
    assert(b.subrange(pos, pos + x.len() as int) =~= x) by {
        assert forall|k: int| 0 <= k < x.len() implies b.subrange(pos, pos + x.len() as int)[k]
            == x[k] by {
            assert(b.subrange(pos, pos + x.len() + y.len())[k] == (x + y)[k]);
        }
    }
    assert(b.subrange(pos + x.len() as int, pos + x.len() + y.len()) =~= y) by {
        assert forall|k: int| 0 <= k < y.len() implies b.subrange(
            pos + x.len() as int,
            pos + x.len() + y.len(),
        )[k] == y[k] by {
            assert(b.subrange(pos, pos + x.len() + y.len())[x.len() + k] == (x + y)[x.len() + k]);
            assert((x + y)[x.len() + k] == y[k]);
            assert(b.subrange(pos, pos + x.len() + y.len())[x.len() + k] == b[pos + x.len() + k]);
            assert(b.subrange(pos + x.len() as int, pos + x.len() + y.len())[k] == b[pos + x.len()
                + k]);
        }
    }
}

/// The string bound every encodable string satisfies at run time.
pub open spec fn sb(s: Seq<char>) -> bool {
    vstd::utf8::encode_utf8(s).len() <= u64::MAX
}

// ----- record encodings -----------------------------------------------------

pub open spec fn i16_as_u64(x: i16) -> u64 {
    (x as u16) as u64
}

pub open spec fn enc_metrics(m: CompressedMetrics) -> Seq<u8> {
    u64_bytes(m.units_per_em as u64) + (u64_bytes(i16_as_u64(m.ascender)) + (u64_bytes(
        i16_as_u64(m.descender),
    ) + (u64_bytes(i16_as_u64(m.x_height)) + (u64_bytes(i16_as_u64(m.cap_height)) + u64_bytes(
        i16_as_u64(m.average_width),
    )))))
}

pub open spec fn enc_opt_metrics(o: Option<CompressedMetrics>) -> Seq<u8> {
    match o {
        Some(m) => u64_bytes(1) + enc_metrics(m),
        None => u64_bytes(0),
    }
}

pub open spec fn u64_of_bool(b: bool) -> u64 {
    if b {
        1u64
    } else {
        0u64
    }
}

#[verifier::opaque]
pub open spec fn enc_license(l: CompressedLicenseV) -> Seq<u8> {
    str_block(l.name) + (str_block(l.url) + (u64_bytes(u64_of_bool(l.allows_embedding)) + (
    u64_bytes(u64_of_bool(l.allows_modification)) + (u64_bytes(
        u64_of_bool(l.requires_attribution),
    ) + u64_bytes(u64_of_bool(l.allows_commercial_use))))))
}

pub open spec fn cat_tag(c: FontCategory) -> u64 {
    match c {
        FontCategory::Serif => 0,
        FontCategory::SansSerif => 1,
        FontCategory::Monospace => 2,
        FontCategory::Display => 3,
        FontCategory::Handwriting => 4,
        FontCategory::Decorative => 5,
        FontCategory::Symbol => 6,
        FontCategory::Other => 7,
    }
}

pub open spec fn cat_of_tag(t: u64) -> Option<FontCategory> {
    if t == 0 {
        Some(FontCategory::Serif)
    } else if t == 1 {
        Some(FontCategory::SansSerif)
    } else if t == 2 {
        Some(FontCategory::Monospace)
    } else if t == 3 {
        Some(FontCategory::Display)
    } else if t == 4 {
        Some(FontCategory::Handwriting)
    } else if t == 5 {
        Some(FontCategory::Decorative)
    } else if t == 6 {
        Some(FontCategory::Symbol)
    } else if t == 7 {
        Some(FontCategory::Other)
    } else {
        None
    }
}

pub open spec fn fmt_tag(f: FontFormat) -> u64 {
    match f {
        FontFormat::Ttf => 0,
        FontFormat::Otf => 1,
        FontFormat::Woff => 2,
        FontFormat::Woff2 => 3,
        FontFormat::Other => 4,
    }
}

pub open spec fn fmt_of_tag(t: u64) -> Option<FontFormat> {
    if t == 0 {
        Some(FontFormat::Ttf)
    } else if t == 1 {
        Some(FontFormat::Otf)
    } else if t == 2 {
        Some(FontFormat::Woff)
    } else if t == 3 {
        Some(FontFormat::Woff2)
    } else if t == 4 {
        Some(FontFormat::Other)
    } else {
        None
    }
}

pub open spec fn enc_strlist(ss: Seq<Seq<char>>, i: int) -> Seq<u8>
    decreases ss.len() - i,
{
    if i < 0 || i >= ss.len() {
        Seq::empty()
    } else {
        str_block(ss[i]) + enc_strlist(ss, i + 1)
    }
}

pub open spec fn enc_urllist(us: Seq<(FontFormat, Seq<char>)>, i: int) -> Seq<u8>
    decreases us.len() - i,
{
    if i < 0 || i >= us.len() {
        Seq::empty()
    } else {
        u64_bytes(fmt_tag(us[i].0)) + (str_block(us[i].1) + enc_urllist(us, i + 1))
    }
}

#[verifier::opaque]
pub open spec fn enc_font(f: CompressedFontDataV) -> Seq<u8> {
    str_block(f.family) + str_block(f.postscript_name) + u64_bytes(f.weight as u64) + u64_bytes(
        u64_of_bool(f.italic),
    ) + u64_bytes(u64_of_bool(f.monospaced)) + enc_opt_metrics(f.metrics) + enc_license(f.license)
        + u64_bytes(cat_tag(f.category)) + u64_bytes(f.similar_fonts.len() as u64) + enc_strlist(
        f.similar_fonts,
        0,
    ) + u64_bytes(f.download_urls.len() as u64) + enc_urllist(f.download_urls, 0) + u64_bytes(
        f.file_size_kb as u64,
    ) + u64_bytes(f.popularity as u64)
}

pub open spec fn enc_cathist(cs: Seq<(FontCategory, usize)>, i: int) -> Seq<u8>
    decreases cs.len() - i,
{
    if i < 0 || i >= cs.len() {
        Seq::empty()
    } else {
        u64_bytes(cat_tag(cs[i].0)) + (u64_bytes(cs[i].1 as u64) + enc_cathist(cs, i + 1))
    }
}

#[verifier::opaque]
pub open spec fn enc_meta(m: FontDatabaseMetadataV) -> Seq<u8> {
    str_block(m.version) + (u64_bytes(m.font_count as u64) + (u64_bytes(
        m.compressed_size_bytes as u64,
    ) + (u64_bytes(m.original_size_bytes as u64) + (str_block(m.created_at) + (u64_bytes(
        m.categories.len() as u64,
    ) + (enc_cathist(m.categories, 0) + u64_bytes(u64_of_bool(m.include_full_data))))))))
}

pub open spec fn enc_pairlist(ps: Seq<(Seq<char>, u32)>, i: int) -> Seq<u8>
    decreases ps.len() - i,
{
    if i < 0 || i >= ps.len() {
        Seq::empty()
    } else {
        str_block(ps[i].0) + (u64_bytes(ps[i].1 as u64) + enc_pairlist(ps, i + 1))
    }
}

pub open spec fn enc_row(r: (Seq<char>, Seq<(Seq<char>, u32)>)) -> Seq<u8> {
    str_block(r.0) + (u64_bytes(r.1.len() as u64) + enc_pairlist(r.1, 0))
}

pub open spec fn enc_rowlist(rs: Seq<(Seq<char>, Seq<(Seq<char>, u32)>)>, i: int) -> Seq<u8>
    decreases rs.len() - i,
{
    if i < 0 || i >= rs.len() {
        Seq::empty()
    } else {
        enc_row(rs[i]) + enc_rowlist(rs, i + 1)
    }
}

pub open spec fn enc_matrix(o: Option<Seq<(Seq<char>, Seq<(Seq<char>, u32)>)>>) -> Seq<u8> {
    match o {
        Some(rs) => u64_bytes(1) + (u64_bytes(rs.len() as u64) + enc_rowlist(rs, 0)),
        None => u64_bytes(0),
    }
}

pub open spec fn enc_fontlist(fs: Seq<CompressedFontDataV>, i: int) -> Seq<u8>
    decreases fs.len() - i,
{
    if i < 0 || i >= fs.len() {
        Seq::empty()
    } else {
        enc_font(fs[i]) + enc_fontlist(fs, i + 1)
    }
}

/// The whole database payload, before compression.
pub open spec fn enc_db(d: CompressedFontDatabaseV) -> Seq<u8> {
    enc_meta(d.metadata) + (u64_bytes(d.fonts.len() as u64) + (enc_fontlist(d.fonts, 0)
        + enc_matrix(d.similarity_matrix)))
}

// ----- executable encoders --------------------------------------------------

fn enc_metrics_x(out: &mut Vec<u8>, m: &CompressedMetrics)
    ensures
        final(out)@ == old(out)@ + enc_metrics(*m),
{
    enc_u64(out, m.units_per_em as u64);
    enc_u64(out, (m.ascender as u16) as u64);
    enc_u64(out, (m.descender as u16) as u64);
    enc_u64(out, (m.x_height as u16) as u64);
    enc_u64(out, (m.cap_height as u16) as u64);
    enc_u64(out, (m.average_width as u16) as u64);
    proof {
        assert(final(out)@ =~= old(out)@ + enc_metrics(*m));
    }
}

fn enc_opt_metrics_x(out: &mut Vec<u8>, o: &Option<CompressedMetrics>)
    ensures
        final(out)@ == old(out)@ + enc_opt_metrics(*o),
{
    match o {
        Some(m) => {
            enc_u64(out, 1);
            enc_metrics_x(out, m);
            proof {
                assert(final(out)@ =~= old(out)@ + enc_opt_metrics(*o));
            }
        },
        None => {
            enc_u64(out, 0);
        },
    }
}

fn enc_bool64(out: &mut Vec<u8>, b: bool)
    ensures
        final(out)@ == old(out)@ + u64_bytes(u64_of_bool(b)),
{
    enc_u64(
        out,
        if b {
            1
        } else {
            0
        },
    );
}

fn enc_license_x(out: &mut Vec<u8>, l: &CompressedLicense)
    ensures
        final(out)@ == old(out)@ + enc_license(l@),
{
    enc_str(out, &l.name);
    enc_str(out, &l.url);
    enc_bool64(out, l.allows_embedding);
    enc_bool64(out, l.allows_modification);
    enc_bool64(out, l.requires_attribution);
    enc_bool64(out, l.allows_commercial_use);
    proof {
        reveal(enc_license);
        assert(final(out)@ =~= old(out)@ + enc_license(l@));
    }
}

fn cat_tag_x(c: FontCategory) -> (r: u64)
    ensures
        r == cat_tag(c),
{
    match c {
        FontCategory::Serif => 0,
        FontCategory::SansSerif => 1,
        FontCategory::Monospace => 2,
        FontCategory::Display => 3,
        FontCategory::Handwriting => 4,
        FontCategory::Decorative => 5,
        FontCategory::Symbol => 6,
        FontCategory::Other => 7,
    }
}

fn fmt_tag_x(f: FontFormat) -> (r: u64)
    ensures
        r == fmt_tag(f),
{
    match f {
        FontFormat::Ttf => 0,
        FontFormat::Otf => 1,
        FontFormat::Woff => 2,
        FontFormat::Woff2 => 3,
        FontFormat::Other => 4,
    }
}

#[verifier::loop_isolation(false)]
fn enc_strlist_x(out: &mut Vec<u8>, ss: &Vec<String>)
    ensures
        final(out)@ == old(out)@ + enc_strlist(ss@.map_values(|s: String| s@), 0),
{
    let ghost sv = ss@.map_values(|s: String| s@);
    let ghost base = out@;
    let mut i: usize = 0;
    proof {
        assert(base + Seq::<u8>::empty() =~= base);
    }
    while i < ss.len()
        invariant
            i <= sv.len(),
            out@ + enc_strlist(sv, i as int) == base + enc_strlist(sv, 0),
        decreases sv.len() - i,
    {
        enc_str(out, &ss[i]);
        proof {
            assert(out@ + enc_strlist(sv, i + 1) =~= base + enc_strlist(sv, 0));
        }
        i += 1;
    }
    proof {
        assert(out@ =~= out@ + enc_strlist(sv, sv.len() as int));
        assert(out@ =~= base + enc_strlist(sv, 0));
    }
}

#[verifier::loop_isolation(false)]
fn enc_urllist_x(out: &mut Vec<u8>, us: &Vec<(FontFormat, String)>)
    ensures
        final(out)@ == old(out)@ + enc_urllist(
            us@.map_values(|p: (FontFormat, String)| (p.0, p.1@)),
            0,
        ),
{
    let ghost uv = us@.map_values(|p: (FontFormat, String)| (p.0, p.1@));
    let ghost base = out@;
    let mut i: usize = 0;
    while i < us.len()
        invariant
            i <= uv.len(),
            out@ + enc_urllist(uv, i as int) == base + enc_urllist(uv, 0),
        decreases uv.len() - i,
    {
        let p = &us[i];
        enc_u64(out, fmt_tag_x(p.0));
        enc_str(out, &p.1);
        proof {
            assert(out@ + enc_urllist(uv, i + 1) =~= base + enc_urllist(uv, 0));
        }
        i += 1;
    }
    proof {
        assert(out@ =~= out@ + enc_urllist(uv, uv.len() as int));
        assert(out@ =~= base + enc_urllist(uv, 0));
    }
}

#[verifier::rlimit(100)]
fn enc_font_x(out: &mut Vec<u8>, f: &CompressedFontData)
    ensures
        final(out)@ == old(out)@ + enc_font(f@),
{
    enc_str(out, &f.family);
    enc_str(out, &f.postscript_name);
    enc_u64(out, f.weight as u64);
    enc_bool64(out, f.italic);
    enc_bool64(out, f.monospaced);
    enc_opt_metrics_x(out, &f.metrics);
    enc_license_x(out, &f.license);
    enc_u64(out, cat_tag_x(f.category));
    enc_u64(out, f.similar_fonts.len() as u64);
    enc_strlist_x(out, &f.similar_fonts);
    enc_u64(out, f.download_urls.len() as u64);
    enc_urllist_x(out, &f.download_urls);
    enc_u64(out, f.file_size_kb as u64);
    enc_u64(out, f.popularity as u64);
    proof {
        reveal(enc_font);
        assert(final(out)@ =~= old(out)@ + enc_font(f@));
    }
}

#[verifier::loop_isolation(false)]
fn enc_cathist_x(out: &mut Vec<u8>, cs: &Vec<(FontCategory, usize)>)
    ensures
        final(out)@ == old(out)@ + enc_cathist(cs@, 0),
{
    let ghost cv = cs@;
    let ghost base = out@;
    let mut i: usize = 0;
    while i < cs.len()
        invariant
            i <= cv.len(),
            out@ + enc_cathist(cv, i as int) == base + enc_cathist(cv, 0),
        decreases cv.len() - i,
    {
        let p = &cs[i];
        enc_u64(out, cat_tag_x(p.0));
        enc_u64(out, p.1 as u64);
        proof {
            assert(out@ + enc_cathist(cv, i + 1) =~= base + enc_cathist(cv, 0));
        }
        i += 1;
    }
    proof {
        assert(out@ =~= out@ + enc_cathist(cv, cv.len() as int));
        assert(out@ =~= base + enc_cathist(cv, 0));
    }
}

fn enc_meta_x(out: &mut Vec<u8>, m: &FontDatabaseMetadata)
    ensures
        final(out)@ == old(out)@ + enc_meta(m@),
{
    enc_str(out, &m.version);
    enc_u64(out, m.font_count as u64);
    enc_u64(out, m.compressed_size_bytes as u64);
    enc_u64(out, m.original_size_bytes as u64);
    enc_str(out, &m.created_at);
    enc_u64(out, m.categories.len() as u64);
    enc_cathist_x(out, &m.categories);
    enc_bool64(out, m.include_full_data);
    proof {
        reveal(enc_meta);
        assert(final(out)@ =~= old(out)@ + enc_meta(m@));
    }
}

#[verifier::loop_isolation(false)]
fn enc_pairlist_x(out: &mut Vec<u8>, ps: &Vec<(String, u32)>)
    ensures
        final(out)@ == old(out)@ + enc_pairlist(
            ps@.map_values(|p: (String, u32)| (p.0@, p.1)),
            0,
        ),
{
    let ghost pv = ps@.map_values(|p: (String, u32)| (p.0@, p.1));
    let ghost base = out@;
    let mut i: usize = 0;
    while i < ps.len()
        invariant
            i <= pv.len(),
            out@ + enc_pairlist(pv, i as int) == base + enc_pairlist(pv, 0),
        decreases pv.len() - i,
    {
        let p = &ps[i];
        enc_str(out, &p.0);
        enc_u64(out, p.1 as u64);
        proof {
            assert(out@ + enc_pairlist(pv, i + 1) =~= base + enc_pairlist(pv, 0));
        }
        i += 1;
    }
    proof {
        assert(out@ =~= out@ + enc_pairlist(pv, pv.len() as int));
        assert(out@ =~= base + enc_pairlist(pv, 0));
    }
}

#[verifier::loop_isolation(false)]
fn enc_matrix_x(out: &mut Vec<u8>, o: &Option<Vec<(String, Vec<(String, u32)>)>>)
    ensures
        final(out)@ == old(out)@ + enc_matrix(
            match o {
                Some(m) => Some(matrix_view(m@)),
                None => None,
            },
        ),
{
    match o {
        None => {
            enc_u64(out, 0);
        },
        Some(rows) => {
            let ghost rv = matrix_view(rows@);
            enc_u64(out, 1);
            enc_u64(out, rows.len() as u64);
            let ghost base = out@;
            let mut i: usize = 0;
            while i < rows.len()
                invariant
                    i <= rv.len(),
                    out@ + enc_rowlist(rv, i as int) == base + enc_rowlist(rv, 0),
                decreases rv.len() - i,
            {
                let row = &rows[i];
                enc_str(out, &row.0);
                enc_u64(out, row.1.len() as u64);
                enc_pairlist_x(out, &row.1);
                proof {
                    assert(rv[i as int] == (row.0@, row.1@.map_values(
                        |p: (String, u32)| (p.0@, p.1),
                    )));
                    assert(out@ + enc_rowlist(rv, i + 1) =~= base + enc_rowlist(rv, 0));
                }
                i += 1;
            }
            proof {
                assert(out@ =~= out@ + enc_rowlist(rv, rv.len() as int));
                assert(out@ =~= base + enc_rowlist(rv, 0));
                assert(final(out)@ =~= old(out)@ + enc_matrix(
                    match o {
                        Some(m) => Some(matrix_view(m@)),
                        None => None,
                    },
                ));
            }
        },
    }
}

/// Serializes the database to its binary payload.
#[verifier::rlimit(60)]
pub fn encode_database(d: &CompressedFontDatabase) -> (r: Vec<u8>)
    ensures
        r@ == enc_db(d@),
{
    let mut out: Vec<u8> = Vec::new();
    enc_meta_x(&mut out, &d.metadata);
    enc_u64(&mut out, d.fonts.len() as u64);
    let ghost fv = d.fonts@.map_values(|f: CompressedFontData| f@);
    let ghost base = out@;
    let mut i: usize = 0;
    #[verifier::loop_isolation(false)]
    while i < d.fonts.len()
        invariant
            i <= fv.len(),
            out@ + enc_fontlist(fv, i as int) == base + enc_fontlist(fv, 0),
        decreases fv.len() - i,
    {
        enc_font_x(&mut out, &d.fonts[i]);
        proof {
            assert(out@ + enc_fontlist(fv, i + 1) =~= base + enc_fontlist(fv, 0));
        }
        i += 1;
    }
    proof {
        assert(out@ =~= out@ + enc_fontlist(fv, fv.len() as int));
        assert(out@ =~= base + enc_fontlist(fv, 0));
    }
    enc_matrix_x(&mut out, &d.similarity_matrix);
    proof {
        assert(out@ =~= enc_db(d@));
    }
    out
}

// ----- structured decoding specs -------------------------------------------

pub open spec fn sp_dec_u16v(b: Seq<u8>, pos: int) -> Option<(u16, int)> {
    match sp_dec_u64(b, pos) {
        Some((v, p)) => if v <= 0xffff {
            Some((v as u16, p))
        } else {
            None
        },
        None => None,
    }
}

pub open spec fn sp_dec_i16v(b: Seq<u8>, pos: int) -> Option<(i16, int)> {
    match sp_dec_u16v(b, pos) {
        Some((v, p)) => Some((v as i16, p)),
        None => None,
    }
}

pub open spec fn sp_dec_u32v(b: Seq<u8>, pos: int) -> Option<(u32, int)> {
    match sp_dec_u64(b, pos) {
        Some((v, p)) => if v <= 0xffff_ffff {
            Some((v as u32, p))
        } else {
            None
        },
        None => None,
    }
}

pub open spec fn sp_dec_u8v(b: Seq<u8>, pos: int) -> Option<(u8, int)> {
    match sp_dec_u64(b, pos) {
        Some((v, p)) => if v <= 0xff {
            Some((v as u8, p))
        } else {
            None
        },
        None => None,
    }
}

pub open spec fn sp_dec_usizev(b: Seq<u8>, pos: int) -> Option<(usize, int)> {
    match sp_dec_u64(b, pos) {
        Some((v, p)) => if v <= usize::MAX {
            Some((v as usize, p))
        } else {
            None
        },
        None => None,
    }
}

pub open spec fn sp_dec_boolv(b: Seq<u8>, pos: int) -> Option<(bool, int)> {
    match sp_dec_u64(b, pos) {
        Some((v, p)) => Some((v != 0, p)),
        None => None,
    }
}

pub open spec fn sp_dec_metrics(b: Seq<u8>, pos: int) -> Option<(CompressedMetrics, int)> {
    match sp_dec_u16v(b, pos) {
        None => None,
        Some((u, p1)) => match sp_dec_i16v(b, p1) {
            None => None,
            Some((asc, p2)) => match sp_dec_i16v(b, p2) {
                None => None,
                Some((desc, p3)) => match sp_dec_i16v(b, p3) {
                    None => None,
                    Some((xh, p4)) => match sp_dec_i16v(b, p4) {
                        None => None,
                        Some((ch, p5)) => match sp_dec_i16v(b, p5) {
                            None => None,
                            Some((aw, p6)) => Some(
                                (
                                    CompressedMetrics {
                                        units_per_em: u,
                                        ascender: asc,
                                        descender: desc,
                                        x_height: xh,
                                        cap_height: ch,
                                        average_width: aw,
                                    },
                                    p6,
                                ),
                            ),
                        },
                    },
                },
            },
        },
    }
}

pub open spec fn sp_dec_opt_metrics(b: Seq<u8>, pos: int) -> Option<(
    Option<CompressedMetrics>,
    int,
)> {
    match sp_dec_u64(b, pos) {
        None => None,
        Some((flag, p1)) => if flag == 0 {
            Some((None, p1))
        } else if flag == 1 {
            match sp_dec_metrics(b, p1) {
                Some((m, p2)) => Some((Some(m), p2)),
                None => None,
            }
        } else {
            None
        },
    }
}

#[verifier::opaque]
pub open spec fn sp_dec_license(b: Seq<u8>, pos: int) -> Option<(CompressedLicenseV, int)> {
    match sp_dec_str(b, pos) {
        None => None,
        Some((name, p1)) => match sp_dec_str(b, p1) {
            None => None,
            Some((url, p2)) => match sp_dec_boolv(b, p2) {
                None => None,
                Some((emb, p3)) => match sp_dec_boolv(b, p3) {
                    None => None,
                    Some((md, p4)) => match sp_dec_boolv(b, p4) {
                        None => None,
                        Some((attr, p5)) => match sp_dec_boolv(b, p5) {
                            None => None,
                            Some((com, p6)) => Some(
                                (
                                    CompressedLicenseV {
                                        name,
                                        url,
                                        allows_embedding: emb,
                                        allows_modification: md,
                                        requires_attribution: attr,
                                        allows_commercial_use: com,
                                    },
                                    p6,
                                ),
                            ),
                        },
                    },
                },
            },
        },
    }
}

pub open spec fn sp_dec_strlist(b: Seq<u8>, pos: int, n: int) -> Option<(Seq<Seq<char>>, int)>
    decreases n,
{
    if n <= 0 {
        Some((Seq::empty(), pos))
    } else {
        match sp_dec_str(b, pos) {
            None => None,
            Some((s, p1)) => match sp_dec_strlist(b, p1, n - 1) {
                None => None,
                Some((rest, p2)) => Some((seq![s] + rest, p2)),
            },
        }
    }
}

pub open spec fn sp_dec_urllist(b: Seq<u8>, pos: int, n: int) -> Option<(
    Seq<(FontFormat, Seq<char>)>,
    int,
)>
    decreases n,
{
    if n <= 0 {
        Some((Seq::empty(), pos))
    } else {
        match sp_dec_u64(b, pos) {
            None => None,
            Some((t, p0)) => match fmt_of_tag(t) {
                None => None,
                Some(fmt) => match sp_dec_str(b, p0) {
                    None => None,
                    Some((s, p1)) => match sp_dec_urllist(b, p1, n - 1) {
                        None => None,
                        Some((rest, p2)) => Some((seq![(fmt, s)] + rest, p2)),
                    },
                },
            },
        }
    }
}

// ----- round-trip lemmas ----------------------------------------------------

pub proof fn lemma_u16v_roundtrip(b: Seq<u8>, pos: int, v: u16)
    requires
        0 <= pos,
        pos + 8 <= b.len(),
        b.subrange(pos, pos + 8) == u64_bytes(v as u64),
    ensures
        sp_dec_u16v(b, pos) == Some((v, pos + 8)),
{
    lemma_u64_field_roundtrip(b, pos, v as u64);
}

pub proof fn lemma_i16v_roundtrip(b: Seq<u8>, pos: int, v: i16)
    requires
        0 <= pos,
        pos + 8 <= b.len(),
        b.subrange(pos, pos + 8) == u64_bytes(i16_as_u64(v)),
    ensures
        sp_dec_i16v(b, pos) == Some((v, pos + 8)),
{
    lemma_u64_field_roundtrip(b, pos, i16_as_u64(v));
    assert(((v as u16) as i16) == v) by (bit_vector);
}

pub proof fn lemma_boolv_roundtrip(b: Seq<u8>, pos: int, v: bool)
    requires
        0 <= pos,
        pos + 8 <= b.len(),
        b.subrange(pos, pos + 8) == u64_bytes(u64_of_bool(v)),
    ensures
        sp_dec_boolv(b, pos) == Some((v, pos + 8)),
{
    lemma_u64_field_roundtrip(b, pos, u64_of_bool(v));
}

pub proof fn lemma_metrics_roundtrip(b: Seq<u8>, pos: int, m: CompressedMetrics)
    requires
        0 <= pos,
        pos + enc_metrics(m).len() <= b.len(),
        b.subrange(pos, pos + enc_metrics(m).len() as int) == enc_metrics(m),
    ensures
        enc_metrics(m).len() == 48,
        sp_dec_metrics(b, pos) == Some((m, pos + 48)),
{
    let a1 = u64_bytes(m.units_per_em as u64);
    let a2 = u64_bytes(i16_as_u64(m.ascender));
    let a3 = u64_bytes(i16_as_u64(m.descender));
    let a4 = u64_bytes(i16_as_u64(m.x_height));
    let a5 = u64_bytes(i16_as_u64(m.cap_height));
    let a6 = u64_bytes(i16_as_u64(m.average_width));
    lemma_concat_split(b, pos, a1, a2 + (a3 + (a4 + (a5 + a6))));
    lemma_concat_split(b, pos + 8, a2, a3 + (a4 + (a5 + a6)));
    lemma_concat_split(b, pos + 16, a3, a4 + (a5 + a6));
    lemma_concat_split(b, pos + 24, a4, a5 + a6);
    lemma_concat_split(b, pos + 32, a5, a6);
    lemma_u16v_roundtrip(b, pos, m.units_per_em);
    lemma_i16v_roundtrip(b, pos + 8, m.ascender);
    lemma_i16v_roundtrip(b, pos + 16, m.descender);
    lemma_i16v_roundtrip(b, pos + 24, m.x_height);
    lemma_i16v_roundtrip(b, pos + 32, m.cap_height);
    lemma_i16v_roundtrip(b, pos + 40, m.average_width);
}

pub proof fn lemma_opt_metrics_roundtrip(b: Seq<u8>, pos: int, o: Option<CompressedMetrics>)
    requires
        0 <= pos,
        pos + enc_opt_metrics(o).len() <= b.len(),
        b.subrange(pos, pos + enc_opt_metrics(o).len() as int) == enc_opt_metrics(o),
    ensures
        sp_dec_opt_metrics(b, pos) == Some((o, pos + enc_opt_metrics(o).len() as int)),
{
    match o {
        None => {
            lemma_u64_field_roundtrip(b, pos, 0);
        },
        Some(m) => {
            lemma_concat_split(b, pos, u64_bytes(1), enc_metrics(m));
            lemma_u64_field_roundtrip(b, pos, 1);
            lemma_metrics_roundtrip(b, pos + 8, m);
        },
    }
}

pub proof fn lemma_license_roundtrip(b: Seq<u8>, pos: int, l: CompressedLicenseV)
    requires
        0 <= pos,
        sb(l.name),
        sb(l.url),
        pos + enc_license(l).len() <= b.len(),
        b.subrange(pos, pos + enc_license(l).len() as int) == enc_license(l),
    ensures
        sp_dec_license(b, pos) == Some((l, pos + enc_license(l).len() as int)),
{
    reveal(enc_license);
    reveal(sp_dec_license);
    let a1 = str_block(l.name);
    let a2 = str_block(l.url);
    let a3 = u64_bytes(u64_of_bool(l.allows_embedding));
    let a4 = u64_bytes(u64_of_bool(l.allows_modification));
    let a5 = u64_bytes(u64_of_bool(l.requires_attribution));
    let a6 = u64_bytes(u64_of_bool(l.allows_commercial_use));
    let p1 = pos + a1.len() as int;
    let p2 = p1 + a2.len() as int;
    lemma_concat_split(b, pos, a1, a2 + (a3 + (a4 + (a5 + a6))));
    lemma_concat_split(b, p1, a2, a3 + (a4 + (a5 + a6)));
    lemma_concat_split(b, p2, a3, a4 + (a5 + a6));
    lemma_concat_split(b, p2 + 8, a4, a5 + a6);
    lemma_concat_split(b, p2 + 16, a5, a6);
    lemma_str_block_roundtrip(b, pos, l.name);
    lemma_str_block_roundtrip(b, p1, l.url);
    lemma_boolv_roundtrip(b, p2, l.allows_embedding);
    lemma_boolv_roundtrip(b, p2 + 8, l.allows_modification);
    lemma_boolv_roundtrip(b, p2 + 16, l.requires_attribution);
    lemma_boolv_roundtrip(b, p2 + 24, l.allows_commercial_use);
}

pub open spec fn strlist_bounded(ss: Seq<Seq<char>>) -> bool {
    forall|k: int| 0 <= k < ss.len() ==> sb(#[trigger] ss[k])
}

pub proof fn lemma_strlist_roundtrip(b: Seq<u8>, pos: int, ss: Seq<Seq<char>>, i: int)
    requires
        0 <= pos,
        0 <= i <= ss.len(),
        strlist_bounded(ss),
        pos + enc_strlist(ss, i).len() <= b.len(),
        b.subrange(pos, pos + enc_strlist(ss, i).len() as int) == enc_strlist(ss, i),
    ensures
        sp_dec_strlist(b, pos, ss.len() - i) == Some(
            (ss.skip(i), pos + enc_strlist(ss, i).len() as int),
        ),
    decreases ss.len() - i,
{
    if i == ss.len() {
        assert(ss.skip(i) =~= Seq::<Seq<char>>::empty());
    } else {
        lemma_concat_split(b, pos, str_block(ss[i]), enc_strlist(ss, i + 1));
        lemma_str_block_roundtrip(b, pos, ss[i]);
        let p1 = pos + str_block(ss[i]).len() as int;
        lemma_strlist_roundtrip(b, p1, ss, i + 1);
        assert(seq![ss[i]] + ss.skip(i + 1) =~= ss.skip(i));
    }
}

pub open spec fn urllist_bounded(us: Seq<(FontFormat, Seq<char>)>) -> bool {
    forall|k: int| 0 <= k < us.len() ==> sb((#[trigger] us[k]).1)
}

pub proof fn lemma_urllist_roundtrip(b: Seq<u8>, pos: int, us: Seq<(FontFormat, Seq<char>)>,
    i: int)
    requires
        0 <= pos,
        0 <= i <= us.len(),
        urllist_bounded(us),
        pos + enc_urllist(us, i).len() <= b.len(),
        b.subrange(pos, pos + enc_urllist(us, i).len() as int) == enc_urllist(us, i),
    ensures
        sp_dec_urllist(b, pos, us.len() - i) == Some(
            (us.skip(i), pos + enc_urllist(us, i).len() as int),
        ),
    decreases us.len() - i,
{
    if i == us.len() {
        assert(us.skip(i) =~= Seq::<(FontFormat, Seq<char>)>::empty());
    } else {
        lemma_concat_split(
            b,
            pos,
            u64_bytes(fmt_tag(us[i].0)),
            str_block(us[i].1) + enc_urllist(us, i + 1),
        );
        lemma_concat_split(b, pos + 8, str_block(us[i].1), enc_urllist(us, i + 1));
        lemma_u64_field_roundtrip(b, pos, fmt_tag(us[i].0));
        lemma_str_block_roundtrip(b, pos + 8, us[i].1);
        let p1 = pos + 8 + str_block(us[i].1).len() as int;
        lemma_urllist_roundtrip(b, p1, us, i + 1);
        assert(seq![us[i]] + us.skip(i + 1) =~= us.skip(i));
        assert(fmt_of_tag(fmt_tag(us[i].0)) == Some(us[i].0));
    }
}

#[verifier::opaque]
pub open spec fn sp_dec_font(b: Seq<u8>, pos: int) -> Option<(CompressedFontDataV, int)> {
    match sp_dec_str(b, pos) {
        None => None,
        Some((family, p1)) => match sp_dec_str(b, p1) {
            None => None,
            Some((ps, p2)) => match sp_dec_u16v(b, p2) {
                None => None,
                Some((weight, p3)) => match sp_dec_boolv(b, p3) {
                    None => None,
                    Some((italic, p4)) => match sp_dec_boolv(b, p4) {
                        None => None,
                        Some((mono, p5)) => match sp_dec_opt_metrics(b, p5) {
                            None => None,
                            Some((metrics, p6)) => match sp_dec_license(b, p6) {
                                None => None,
                                Some((license, p7)) => match sp_dec_u64(b, p7) {
                                    None => None,
                                    Some((ct, p8)) => match cat_of_tag(ct) {
                                        None => None,
                                        Some(category) => match sp_dec_u64(b, p8) {
                                            None => None,
                                            Some((ns, p9)) => match sp_dec_strlist(
                                                b,
                                                p9,
                                                ns as int,
                                            ) {
                                                None => None,
                                                Some((similar, p10)) => match sp_dec_u64(b, p10) {
                                                    None => None,
                                                    Some((nu, p11)) => match sp_dec_urllist(
                                                        b,
                                                        p11,
                                                        nu as int,
                                                    ) {
                                                        None => None,
                                                        Some((urls, p12)) => match sp_dec_u32v(
                                                            b,
                                                            p12,
                                                        ) {
                                                            None => None,
                                                            Some((size, p13)) => match sp_dec_u8v(
                                                                b,
                                                                p13,
                                                            ) {
                                                                None => None,
                                                                Some((pop, p14)) => Some(
                                                                    (
                                                                        CompressedFontDataV {
                                                                            family,
                                                                            postscript_name: ps,
                                                                            weight,
                                                                            italic,
                                                                            monospaced: mono,
                                                                            metrics,
                                                                            license,
                                                                            category,
                                                                            similar_fonts: similar,
                                                                            download_urls: urls,
                                                                            file_size_kb: size,
                                                                            popularity: pop,
                                                                        },
                                                                        p14,
                                                                    ),
                                                                ),
                                                            },
                                                        },
                                                    },
                                                },
                                            },
                                        },
                                    },
                                },
                            },
                        },
                    },
                },
            },
        },
    }
}

pub open spec fn sp_dec_cathist(b: Seq<u8>, pos: int, n: int) -> Option<(
    Seq<(FontCategory, usize)>,
    int,
)>
    decreases n,
{
    if n <= 0 {
        Some((Seq::empty(), pos))
    } else {
        match sp_dec_u64(b, pos) {
            None => None,
            Some((t, p0)) => match cat_of_tag(t) {
                None => None,
                Some(cat) => match sp_dec_usizev(b, p0) {
                    None => None,
                    Some((cnt, p1)) => match sp_dec_cathist(b, p1, n - 1) {
                        None => None,
                        Some((rest, p2)) => Some((seq![(cat, cnt)] + rest, p2)),
                    },
                },
            },
        }
    }
}

#[verifier::opaque]
pub open spec fn sp_dec_meta(b: Seq<u8>, pos: int) -> Option<(FontDatabaseMetadataV, int)> {
    match sp_dec_str(b, pos) {
        None => None,
        Some((version, p1)) => match sp_dec_usizev(b, p1) {
            None => None,
            Some((fc, p2)) => match sp_dec_usizev(b, p2) {
                None => None,
                Some((csb, p3)) => match sp_dec_usizev(b, p3) {
                    None => None,
                    Some((osb, p4)) => match sp_dec_str(b, p4) {
                        None => None,
                        Some((created, p5)) => match sp_dec_u64(b, p5) {
                            None => None,
                            Some((nc, p6)) => match sp_dec_cathist(b, p6, nc as int) {
                                None => None,
                                Some((cats, p7)) => match sp_dec_boolv(b, p7) {
                                    None => None,
                                    Some((inc, p8)) => Some(
                                        (
                                            FontDatabaseMetadataV {
                                                version,
                                                font_count: fc,
                                                compressed_size_bytes: csb,
                                                original_size_bytes: osb,
                                                created_at: created,
                                                categories: cats,
                                                include_full_data: inc,
                                            },
                                            p8,
                                        ),
                                    ),
                                },
                            },
                        },
                    },
                },
            },
        },
    }
}

pub open spec fn sp_dec_pairlist(b: Seq<u8>, pos: int, n: int) -> Option<(
    Seq<(Seq<char>, u32)>,
    int,
)>
    decreases n,
{
    if n <= 0 {
        Some((Seq::empty(), pos))
    } else {
        match sp_dec_str(b, pos) {
            None => None,
            Some((s, p1)) => match sp_dec_u32v(b, p1) {
                None => None,
                Some((v, p2)) => match sp_dec_pairlist(b, p2, n - 1) {
                    None => None,
                    Some((rest, p3)) => Some((seq![(s, v)] + rest, p3)),
                },
            },
        }
    }
}

pub open spec fn sp_dec_rowlist(b: Seq<u8>, pos: int, n: int) -> Option<(
    Seq<(Seq<char>, Seq<(Seq<char>, u32)>)>,
    int,
)>
    decreases n,
{
    if n <= 0 {
        Some((Seq::empty(), pos))
    } else {
        match sp_dec_str(b, pos) {
            None => None,
            Some((key, p1)) => match sp_dec_u64(b, p1) {
                None => None,
                Some((np, p2)) => match sp_dec_pairlist(b, p2, np as int) {
                    None => None,
                    Some((pairs, p3)) => match sp_dec_rowlist(b, p3, n - 1) {
                        None => None,
                        Some((rest, p4)) => Some((seq![(key, pairs)] + rest, p4)),
                    },
                },
            },
        }
    }
}

pub open spec fn sp_dec_matrix(b: Seq<u8>, pos: int) -> Option<(
    Option<Seq<(Seq<char>, Seq<(Seq<char>, u32)>)>>,
    int,
)> {
    match sp_dec_u64(b, pos) {
        None => None,
        Some((flag, p1)) => if flag == 0 {
            Some((None, p1))
        } else if flag == 1 {
            match sp_dec_u64(b, p1) {
                None => None,
                Some((n, p2)) => match sp_dec_rowlist(b, p2, n as int) {
                    None => None,
                    Some((rows, p3)) => Some((Some(rows), p3)),
                },
            }
        } else {
            None
        },
    }
}

pub open spec fn sp_dec_fontlist(b: Seq<u8>, pos: int, n: int) -> Option<(
    Seq<CompressedFontDataV>,
    int,
)>
    decreases n,
{
    if n <= 0 {
        Some((Seq::empty(), pos))
    } else {
        match sp_dec_font(b, pos) {
            None => None,
            Some((f, p1)) => match sp_dec_fontlist(b, p1, n - 1) {
                None => None,
                Some((rest, p2)) => Some((seq![f] + rest, p2)),
            },
        }
    }
}

/// Parsing the whole payload; trailing bytes are refused.
pub open spec fn sp_dec_db(b: Seq<u8>) -> Option<CompressedFontDatabaseV> {
    match sp_dec_meta(b, 0) {
        None => None,
        Some((meta, p1)) => match sp_dec_u64(b, p1) {
            None => None,
            Some((nf, p2)) => match sp_dec_fontlist(b, p2, nf as int) {
                None => None,
                Some((fonts, p3)) => match sp_dec_matrix(b, p3) {
                    None => None,
                    Some((matrix, p4)) => if p4 == b.len() {
                        Some(
                            CompressedFontDatabaseV {
                                metadata: meta,
                                fonts,
                                similarity_matrix: matrix,
                            },
                        )
                    } else {
                        None
                    },
                },
            },
        },
    }
}

// ----- boundedness of real databases ---------------------------------------

pub open spec fn font_bounded(f: CompressedFontDataV) -> bool {
    &&& sb(f.family)
    &&& sb(f.postscript_name)
    &&& sb(f.license.name)
    &&& sb(f.license.url)
    &&& strlist_bounded(f.similar_fonts)
    &&& urllist_bounded(f.download_urls)
    &&& f.similar_fonts.len() <= u64::MAX
    &&& f.download_urls.len() <= u64::MAX
}

pub open spec fn fontlist_bounded(fs: Seq<CompressedFontDataV>) -> bool {
    forall|k: int| 0 <= k < fs.len() ==> font_bounded(#[trigger] fs[k])
}

pub open spec fn pairlist_bounded(ps: Seq<(Seq<char>, u32)>) -> bool {
    forall|k: int| 0 <= k < ps.len() ==> sb((#[trigger] ps[k]).0)
}

pub open spec fn rowlist_bounded(rs: Seq<(Seq<char>, Seq<(Seq<char>, u32)>)>) -> bool {
    forall|k: int|
        0 <= k < rs.len() ==> sb((#[trigger] rs[k]).0) && pairlist_bounded(rs[k].1) && rs[k].1.len()
            <= u64::MAX
}

pub open spec fn db_bounded(d: CompressedFontDatabaseV) -> bool {
    &&& sb(d.metadata.version)
    &&& sb(d.metadata.created_at)
    &&& d.metadata.categories.len() <= u64::MAX
    &&& fontlist_bounded(d.fonts)
    &&& d.fonts.len() <= u64::MAX
    &&& match d.similarity_matrix {
        Some(rs) => rowlist_bounded(rs) && rs.len() <= u64::MAX,
        None => true,
    }
}

/// Notes that a real string's UTF-8 encoding fits the length prefix.
fn note_sb(st: &String)
    ensures
        sb(st@),
{
    let b = st.as_str().as_bytes_vec();
    let n = b.len();
    proof {
        assert(b@.len() == n);
        assert(b@ == vstd::utf8::encode_utf8(st@));
    }
}

/// Establishes that every string and list in a concrete database fits
/// the codec's length prefixes.
#[verifier::loop_isolation(false)]
pub fn db_is_bounded(d: &CompressedFontDatabase)
    ensures
        db_bounded(d@),
{
    note_sb(&d.metadata.version);
    note_sb(&d.metadata.created_at);
    let ghost fv = d.fonts@.map_values(|f: CompressedFontData| f@);
    let mut i: usize = 0;
    while i < d.fonts.len()
        invariant
            i <= fv.len(),
            forall|k: int| 0 <= k < i ==> font_bounded(#[trigger] fv[k]),
        decreases fv.len() - i,
    {
        let f = &d.fonts[i];
        note_sb(&f.family);
        note_sb(&f.postscript_name);
        note_sb(&f.license.name);
        note_sb(&f.license.url);
        let ns = f.similar_fonts.len();
        let nu = f.download_urls.len();
        proof {
            assert(f@.similar_fonts.len() == ns);
            assert(f@.download_urls.len() == nu);
        }
        let mut j: usize = 0;
        while j < f.similar_fonts.len()
            invariant
                j <= f.similar_fonts@.len(),
                forall|k: int|
                    0 <= k < j ==> sb(
                        #[trigger] f@.similar_fonts[k],
                    ),
            decreases f.similar_fonts@.len() - j,
        {
            note_sb(&f.similar_fonts[j]);
            j += 1;
        }
        let mut j: usize = 0;
        while j < f.download_urls.len()
            invariant
                j <= f.download_urls@.len(),
                forall|k: int| 0 <= k < j ==> sb((#[trigger] f@.download_urls[k]).1),
            decreases f.download_urls@.len() - j,
        {
            note_sb(&f.download_urls[j].1);
            j += 1;
        }
        proof {
            assert(fv[i as int] == f@);
            assert(font_bounded(fv[i as int]));
        }
        i += 1;
    }
    let nf = d.fonts.len();
    proof {
        assert(fv.len() == nf);
    }
    let nc = d.metadata.categories.len();
    proof {
        assert(d@.metadata.categories.len() == nc);
    }
    if let Some(rows) = &d.similarity_matrix {
        let ghost rv = matrix_view(rows@);
        let nr = rows.len();
        proof {
            assert(rv.len() == nr);
        }
        let mut i: usize = 0;
        while i < rows.len()
            invariant
                i <= rv.len(),
                forall|k: int|
                    0 <= k < i ==> sb((#[trigger] rv[k]).0) && pairlist_bounded(rv[k].1)
                        && rv[k].1.len() <= u64::MAX,
            decreases rv.len() - i,
        {
            let row = &rows[i];
            note_sb(&row.0);
            let np = row.1.len();
            proof {
                assert(rv[i as int].1.len() == np);
            }
            let mut j: usize = 0;
            while j < row.1.len()
                invariant
                    j <= row.1@.len(),
                    i < rv.len(),
                    rv[i as int].1 == row.1@.map_values(|p: (String, u32)| (p.0@, p.1)),
                    forall|k: int| 0 <= k < j ==> sb((#[trigger] rv[i as int].1[k]).0),
                decreases row.1@.len() - j,
            {
                note_sb(&row.1[j].0);
                proof {
                    assert(rv[i as int].1[j as int].0 == row.1@[j as int].0@);
                }
                j += 1;
            }
            proof {
                assert(rv[i as int].0 == row.0@);
                assert(pairlist_bounded(rv[i as int].1));
            }
            i += 1;
        }
    }
}

// ----- record round-trip lemmas ---------------------------------------------

#[verifier::rlimit(100)]
pub proof fn lemma_font_roundtrip(b: Seq<u8>, pos: int, f: CompressedFontDataV)
    requires
        0 <= pos,
        font_bounded(f),
        pos + enc_font(f).len() <= b.len(),
        b.subrange(pos, pos + enc_font(f).len() as int) == enc_font(f),
    ensures
        sp_dec_font(b, pos) == Some((f, pos + enc_font(f).len() as int)),
{
    reveal(enc_font);
    reveal(sp_dec_font);
    let a1 = str_block(f.family);
    let a2 = str_block(f.postscript_name);
    let a3 = u64_bytes(f.weight as u64);
    let a4 = u64_bytes(u64_of_bool(f.italic));
    let a5 = u64_bytes(u64_of_bool(f.monospaced));
    let a6 = enc_opt_metrics(f.metrics);
    let a7 = enc_license(f.license);
    let a8 = u64_bytes(cat_tag(f.category));
    let a9 = u64_bytes(f.similar_fonts.len() as u64);
    let a10 = enc_strlist(f.similar_fonts, 0);
    let a11 = u64_bytes(f.download_urls.len() as u64);
    let a12 = enc_urllist(f.download_urls, 0);
    let a13 = u64_bytes(f.file_size_kb as u64);
    let a14 = u64_bytes(f.popularity as u64);
    let l1 = a1;
    let l2 = l1 + a2;
    let l3 = l2 + a3;
    let l4 = l3 + a4;
    let l5 = l4 + a5;
    let l6 = l5 + a6;
    let l7 = l6 + a7;
    let l8 = l7 + a8;
    let l9 = l8 + a9;
    let l10 = l9 + a10;
    let l11 = l10 + a11;
    let l12 = l11 + a12;
    let l13 = l12 + a13;
    let l14 = l13 + a14;
    assert(enc_font(f) == l14);
    lemma_concat_split(b, pos, l13, a14);
    lemma_concat_split(b, pos, l12, a13);
    lemma_concat_split(b, pos, l11, a12);
    lemma_concat_split(b, pos, l10, a11);
    lemma_concat_split(b, pos, l9, a10);
    lemma_concat_split(b, pos, l8, a9);
    lemma_concat_split(b, pos, l7, a8);
    lemma_concat_split(b, pos, l6, a7);
    lemma_concat_split(b, pos, l5, a6);
    lemma_concat_split(b, pos, l4, a5);
    lemma_concat_split(b, pos, l3, a4);
    lemma_concat_split(b, pos, l2, a3);
    lemma_concat_split(b, pos, l1, a2);
    let q1 = pos + l1.len() as int;
    let q2 = pos + l2.len() as int;
    let q3 = pos + l3.len() as int;
    let q4 = pos + l4.len() as int;
    let q5 = pos + l5.len() as int;
    let q6 = pos + l6.len() as int;
    let q7 = pos + l7.len() as int;
    let q8 = pos + l8.len() as int;
    let q9 = pos + l9.len() as int;
    let q10 = pos + l10.len() as int;
    let q11 = pos + l11.len() as int;
    let q12 = pos + l12.len() as int;
    let q13 = pos + l13.len() as int;
    lemma_str_block_roundtrip(b, pos, f.family);
    lemma_str_block_roundtrip(b, q1, f.postscript_name);
    lemma_u16v_roundtrip(b, q2, f.weight);
    lemma_boolv_roundtrip(b, q3, f.italic);
    lemma_boolv_roundtrip(b, q4, f.monospaced);
    lemma_opt_metrics_roundtrip(b, q5, f.metrics);
    lemma_license_roundtrip(b, q6, f.license);
    lemma_u64_field_roundtrip(b, q7, cat_tag(f.category));
    lemma_u64_field_roundtrip(b, q8, f.similar_fonts.len() as u64);
    lemma_strlist_roundtrip(b, q9, f.similar_fonts, 0);
    lemma_u64_field_roundtrip(b, q10, f.download_urls.len() as u64);
    lemma_urllist_roundtrip(b, q11, f.download_urls, 0);
    lemma_u32v_roundtrip(b, q12, f.file_size_kb);
    lemma_u8v_roundtrip(b, q13, f.popularity);
    assert(cat_of_tag(cat_tag(f.category)) == Some(f.category));
    assert(f.similar_fonts.skip(0) =~= f.similar_fonts);
    assert(f.download_urls.skip(0) =~= f.download_urls);
}

pub proof fn lemma_u32v_roundtrip(b: Seq<u8>, pos: int, v: u32)
    requires
        0 <= pos,
        pos + 8 <= b.len(),
        b.subrange(pos, pos + 8) == u64_bytes(v as u64),
    ensures
        sp_dec_u32v(b, pos) == Some((v, pos + 8)),
{
    lemma_u64_field_roundtrip(b, pos, v as u64);
}

pub proof fn lemma_u8v_roundtrip(b: Seq<u8>, pos: int, v: u8)
    requires
        0 <= pos,
        pos + 8 <= b.len(),
        b.subrange(pos, pos + 8) == u64_bytes(v as u64),
    ensures
        sp_dec_u8v(b, pos) == Some((v, pos + 8)),
{
    lemma_u64_field_roundtrip(b, pos, v as u64);
}

pub proof fn lemma_usizev_roundtrip(b: Seq<u8>, pos: int, v: usize)
    requires
        0 <= pos,
        pos + 8 <= b.len(),
        b.subrange(pos, pos + 8) == u64_bytes(v as u64),
    ensures
        sp_dec_usizev(b, pos) == Some((v, pos + 8)),
{
    lemma_u64_field_roundtrip(b, pos, v as u64);
}

pub proof fn lemma_cathist_roundtrip(b: Seq<u8>, pos: int, cs: Seq<(FontCategory, usize)>, i: int)
    requires
        0 <= pos,
        0 <= i <= cs.len(),
        pos + enc_cathist(cs, i).len() <= b.len(),
        b.subrange(pos, pos + enc_cathist(cs, i).len() as int) == enc_cathist(cs, i),
    ensures
        sp_dec_cathist(b, pos, cs.len() - i) == Some(
            (cs.skip(i), pos + enc_cathist(cs, i).len() as int),
        ),
    decreases cs.len() - i,
{
    if i == cs.len() {
        assert(cs.skip(i) =~= Seq::<(FontCategory, usize)>::empty());
    } else {
        lemma_concat_split(
            b,
            pos,
            u64_bytes(cat_tag(cs[i].0)),
            u64_bytes(cs[i].1 as u64) + enc_cathist(cs, i + 1),
        );
        lemma_concat_split(b, pos + 8, u64_bytes(cs[i].1 as u64), enc_cathist(cs, i + 1));
        lemma_u64_field_roundtrip(b, pos, cat_tag(cs[i].0));
        lemma_usizev_roundtrip(b, pos + 8, cs[i].1);
        lemma_cathist_roundtrip(b, pos + 16, cs, i + 1);
        assert(seq![cs[i]] + cs.skip(i + 1) =~= cs.skip(i));
        assert(cat_of_tag(cat_tag(cs[i].0)) == Some(cs[i].0));
    }
}

#[verifier::rlimit(100)]
pub proof fn lemma_meta_roundtrip(b: Seq<u8>, pos: int, m: FontDatabaseMetadataV)
    requires
        0 <= pos,
        sb(m.version),
        sb(m.created_at),
        m.categories.len() <= u64::MAX,
        pos + enc_meta(m).len() <= b.len(),
        b.subrange(pos, pos + enc_meta(m).len() as int) == enc_meta(m),
    ensures
        sp_dec_meta(b, pos) == Some((m, pos + enc_meta(m).len() as int)),
{
    reveal(enc_meta);
    reveal(sp_dec_meta);
    let a1 = str_block(m.version);
    let a2 = u64_bytes(m.font_count as u64);
    let a3 = u64_bytes(m.compressed_size_bytes as u64);
    let a4 = u64_bytes(m.original_size_bytes as u64);
    let a5 = str_block(m.created_at);
    let a6 = u64_bytes(m.categories.len() as u64);
    let a7 = enc_cathist(m.categories, 0);
    let a8 = u64_bytes(u64_of_bool(m.include_full_data));
    lemma_concat_split(b, pos, a1, a2 + (a3 + (a4 + (a5 + (a6 + (a7 + a8))))));
    let p1 = pos + a1.len() as int;
    lemma_concat_split(b, p1, a2, a3 + (a4 + (a5 + (a6 + (a7 + a8)))));
    lemma_concat_split(b, p1 + 8, a3, a4 + (a5 + (a6 + (a7 + a8))));
    lemma_concat_split(b, p1 + 16, a4, a5 + (a6 + (a7 + a8)));
    let p4 = p1 + 24;
    lemma_concat_split(b, p4, a5, a6 + (a7 + a8));
    let p5 = p4 + a5.len() as int;
    lemma_concat_split(b, p5, a6, a7 + a8);
    lemma_concat_split(b, p5 + 8, a7, a8);
    lemma_str_block_roundtrip(b, pos, m.version);
    lemma_usizev_roundtrip(b, p1, m.font_count);
    lemma_usizev_roundtrip(b, p1 + 8, m.compressed_size_bytes);
    lemma_usizev_roundtrip(b, p1 + 16, m.original_size_bytes);
    lemma_str_block_roundtrip(b, p4, m.created_at);
    lemma_u64_field_roundtrip(b, p5, m.categories.len() as u64);
    lemma_cathist_roundtrip(b, p5 + 8, m.categories, 0);
    lemma_boolv_roundtrip(b, p5 + 8 + a7.len() as int, m.include_full_data);
    assert(m.categories.skip(0) =~= m.categories);
}

pub proof fn lemma_pairlist_roundtrip(b: Seq<u8>, pos: int, ps: Seq<(Seq<char>, u32)>, i: int)
    requires
        0 <= pos,
        0 <= i <= ps.len(),
        pairlist_bounded(ps),
        pos + enc_pairlist(ps, i).len() <= b.len(),
        b.subrange(pos, pos + enc_pairlist(ps, i).len() as int) == enc_pairlist(ps, i),
    ensures
        sp_dec_pairlist(b, pos, ps.len() - i) == Some(
            (ps.skip(i), pos + enc_pairlist(ps, i).len() as int),
        ),
    decreases ps.len() - i,
{
    if i == ps.len() {
        assert(ps.skip(i) =~= Seq::<(Seq<char>, u32)>::empty());
    } else {
        lemma_concat_split(
            b,
            pos,
            str_block(ps[i].0),
            u64_bytes(ps[i].1 as u64) + enc_pairlist(ps, i + 1),
        );
        let p1 = pos + str_block(ps[i].0).len() as int;
        lemma_concat_split(b, p1, u64_bytes(ps[i].1 as u64), enc_pairlist(ps, i + 1));
        lemma_str_block_roundtrip(b, pos, ps[i].0);
        lemma_u32v_roundtrip(b, p1, ps[i].1);
        lemma_pairlist_roundtrip(b, p1 + 8, ps, i + 1);
        assert(seq![ps[i]] + ps.skip(i + 1) =~= ps.skip(i));
    }
}

pub proof fn lemma_rowlist_roundtrip(b: Seq<u8>, pos: int,
    rs: Seq<(Seq<char>, Seq<(Seq<char>, u32)>)>, i: int)
    requires
        0 <= pos,
        0 <= i <= rs.len(),
        rowlist_bounded(rs),
        pos + enc_rowlist(rs, i).len() <= b.len(),
        b.subrange(pos, pos + enc_rowlist(rs, i).len() as int) == enc_rowlist(rs, i),
    ensures
        sp_dec_rowlist(b, pos, rs.len() - i) == Some(
            (rs.skip(i), pos + enc_rowlist(rs, i).len() as int),
        ),
    decreases rs.len() - i,
{
    if i == rs.len() {
        assert(rs.skip(i) =~= Seq::<(Seq<char>, Seq<(Seq<char>, u32)>)>::empty());
    } else {
        let key = rs[i].0;
        let pairs = rs[i].1;
        lemma_concat_split(b, pos, enc_row(rs[i]), enc_rowlist(rs, i + 1));
        let rowlen = enc_row(rs[i]).len() as int;
        lemma_concat_split(b, pos, str_block(key), u64_bytes(pairs.len() as u64) + enc_pairlist(
            pairs,
            0,
        ));
        let p1 = pos + str_block(key).len() as int;
        lemma_concat_split(b, p1, u64_bytes(pairs.len() as u64), enc_pairlist(pairs, 0));
        lemma_str_block_roundtrip(b, pos, key);
        lemma_u64_field_roundtrip(b, p1, pairs.len() as u64);
        lemma_pairlist_roundtrip(b, p1 + 8, pairs, 0);
        assert(pairs.skip(0) =~= pairs);
        lemma_rowlist_roundtrip(b, pos + rowlen, rs, i + 1);
        assert(seq![rs[i]] + rs.skip(i + 1) =~= rs.skip(i));
    }
}

pub proof fn lemma_matrix_roundtrip(b: Seq<u8>, pos: int,
    o: Option<Seq<(Seq<char>, Seq<(Seq<char>, u32)>)>>)
    requires
        0 <= pos,
        match o {
            Some(rs) => rowlist_bounded(rs) && rs.len() <= u64::MAX,
            None => true,
        },
        pos + enc_matrix(o).len() <= b.len(),
        b.subrange(pos, pos + enc_matrix(o).len() as int) == enc_matrix(o),
    ensures
        sp_dec_matrix(b, pos) == Some((o, pos + enc_matrix(o).len() as int)),
{
    match o {
        None => {
            lemma_u64_field_roundtrip(b, pos, 0);
        },
        Some(rs) => {
            lemma_concat_split(b, pos, u64_bytes(1), u64_bytes(rs.len() as u64) + enc_rowlist(
                rs,
                0,
            ));
            lemma_concat_split(b, pos + 8, u64_bytes(rs.len() as u64), enc_rowlist(rs, 0));
            lemma_u64_field_roundtrip(b, pos, 1);
            lemma_u64_field_roundtrip(b, pos + 8, rs.len() as u64);
            lemma_rowlist_roundtrip(b, pos + 16, rs, 0);
            assert(rs.skip(0) =~= rs);
        },
    }
}

#[verifier::rlimit(100)]
pub proof fn lemma_fontlist_roundtrip(b: Seq<u8>, pos: int, fs: Seq<CompressedFontDataV>, i: int)
    requires
        0 <= pos,
        0 <= i <= fs.len(),
        fontlist_bounded(fs),
        pos + enc_fontlist(fs, i).len() <= b.len(),
        b.subrange(pos, pos + enc_fontlist(fs, i).len() as int) == enc_fontlist(fs, i),
    ensures
        sp_dec_fontlist(b, pos, fs.len() - i) == Some(
            (fs.skip(i), pos + enc_fontlist(fs, i).len() as int),
        ),
    decreases fs.len() - i,
{
    if i == fs.len() {
        assert(fs.skip(i) =~= Seq::<CompressedFontDataV>::empty());
    } else {
        lemma_concat_split(b, pos, enc_font(fs[i]), enc_fontlist(fs, i + 1));
        lemma_font_roundtrip(b, pos, fs[i]);
        lemma_fontlist_roundtrip(b, pos + enc_font(fs[i]).len() as int, fs, i + 1);
        assert(seq![fs[i]] + fs.skip(i + 1) =~= fs.skip(i));
    }
}

/// The codec round trip: any bounded database parses back from its own
/// payload, bit for bit.
#[verifier::rlimit(100)]
pub proof fn lemma_db_roundtrip(d: CompressedFontDatabaseV)
    requires
        db_bounded(d),
    ensures
        sp_dec_db(enc_db(d)) == Some(d),
{
    let b = enc_db(d);
    let a1 = enc_meta(d.metadata);
    let a2 = u64_bytes(d.fonts.len() as u64);
    let a3 = enc_fontlist(d.fonts, 0);
    let a4 = enc_matrix(d.similarity_matrix);
    assert(b.subrange(0, b.len() as int) =~= b);
    lemma_concat_split(b, 0, a1, a2 + (a3 + a4));
    let p1 = a1.len() as int;
    lemma_concat_split(b, p1, a2, a3 + a4);
    lemma_concat_split(b, p1 + 8, a3, a4);
    lemma_meta_roundtrip(b, 0, d.metadata);
    lemma_u64_field_roundtrip(b, p1, d.fonts.len() as u64);
    lemma_fontlist_roundtrip(b, p1 + 8, d.fonts, 0);
    lemma_matrix_roundtrip(b, p1 + 8 + a3.len() as int, d.similarity_matrix);
    assert(d.fonts.skip(0) =~= d.fonts);
    let p2 = p1 + 8;
    let p3 = p2 + a3.len() as int;
    let p4 = p3 + a4.len() as int;
    assert(sp_dec_meta(b, 0) == Some((d.metadata, p1)));
    assert(sp_dec_u64(b, p1) == Some((d.fonts.len() as u64, p2)));
    assert((d.fonts.len() as u64) as int == d.fonts.len() as int);
    assert(sp_dec_fontlist(b, p2, d.fonts.len() as int) == Some((d.fonts, p3)));
    assert(sp_dec_matrix(b, p3) == Some((d.similarity_matrix, p4)));
    assert(p4 == b.len());
    assert(sp_dec_db(b) == Some(
        CompressedFontDatabaseV {
            metadata: d.metadata,
            fonts: d.fonts,
            similarity_matrix: d.similarity_matrix,
        },
    ));
}

// ----- executable decoder ---------------------------------------------------

fn dec_u16v(b: &Vec<u8>, pos: usize) -> (r: Option<(u16, usize)>)
    ensures
        match r {
            Some((v, p)) => sp_dec_u16v(b@, pos as int) == Some((v, p as int)),
            None => sp_dec_u16v(b@, pos as int) is None,
        },
{
    match dec_u64(b, pos) {
        Some((v, p)) => if v <= 0xffff {
            Some((v as u16, p))
        } else {
            None
        },
        None => None,
    }
}

fn dec_i16v(b: &Vec<u8>, pos: usize) -> (r: Option<(i16, usize)>)
    ensures
        match r {
            Some((v, p)) => sp_dec_i16v(b@, pos as int) == Some((v, p as int)),
            None => sp_dec_i16v(b@, pos as int) is None,
        },
{
    match dec_u16v(b, pos) {
        Some((v, p)) => Some((v as i16, p)),
        None => None,
    }
}

fn dec_u32v(b: &Vec<u8>, pos: usize) -> (r: Option<(u32, usize)>)
    ensures
        match r {
            Some((v, p)) => sp_dec_u32v(b@, pos as int) == Some((v, p as int)),
            None => sp_dec_u32v(b@, pos as int) is None,
        },
{
    match dec_u64(b, pos) {
        Some((v, p)) => if v <= 0xffff_ffff {
            Some((v as u32, p))
        } else {
            None
        },
        None => None,
    }
}

fn dec_u8v(b: &Vec<u8>, pos: usize) -> (r: Option<(u8, usize)>)
    ensures
        match r {
            Some((v, p)) => sp_dec_u8v(b@, pos as int) == Some((v, p as int)),
            None => sp_dec_u8v(b@, pos as int) is None,
        },
{
    match dec_u64(b, pos) {
        Some((v, p)) => if v <= 0xff {
            Some((v as u8, p))
        } else {
            None
        },
        None => None,
    }
}

fn dec_usizev(b: &Vec<u8>, pos: usize) -> (r: Option<(usize, usize)>)
    ensures
        match r {
            Some((v, p)) => sp_dec_usizev(b@, pos as int) == Some((v, p as int)),
            None => sp_dec_usizev(b@, pos as int) is None,
        },
{
    match dec_u64(b, pos) {
        Some((v, p)) => if v <= usize::MAX as u64 {
            Some((v as usize, p))
        } else {
            None
        },
        None => None,
    }
}

fn dec_boolv(b: &Vec<u8>, pos: usize) -> (r: Option<(bool, usize)>)
    ensures
        match r {
            Some((v, p)) => sp_dec_boolv(b@, pos as int) == Some((v, p as int)),
            None => sp_dec_boolv(b@, pos as int) is None,
        },
{
    match dec_u64(b, pos) {
        Some((v, p)) => Some((v != 0, p)),
        None => None,
    }
}

fn dec_metrics(b: &Vec<u8>, pos: usize) -> (r: Option<(CompressedMetrics, usize)>)
    ensures
        match r {
            Some((v, p)) => sp_dec_metrics(b@, pos as int) == Some((v, p as int)),
            None => sp_dec_metrics(b@, pos as int) is None,
        },
{
    let (u, p1) = match dec_u16v(b, pos) {
        Some(x) => x,
        None => {
            return None;
        },
    };
    let (asc, p2) = match dec_i16v(b, p1) {
        Some(x) => x,
        None => {
            return None;
        },
    };
    let (desc, p3) = match dec_i16v(b, p2) {
        Some(x) => x,
        None => {
            return None;
        },
    };
    let (xh, p4) = match dec_i16v(b, p3) {
        Some(x) => x,
        None => {
            return None;
        },
    };
    let (ch, p5) = match dec_i16v(b, p4) {
        Some(x) => x,
        None => {
            return None;
        },
    };
    let (aw, p6) = match dec_i16v(b, p5) {
        Some(x) => x,
        None => {
            return None;
        },
    };
    Some(
        (
            CompressedMetrics {
                units_per_em: u,
                ascender: asc,
                descender: desc,
                x_height: xh,
                cap_height: ch,
                average_width: aw,
            },
            p6,
        ),
    )
}

fn dec_opt_metrics(b: &Vec<u8>, pos: usize) -> (r: Option<(Option<CompressedMetrics>, usize)>)
    ensures
        match r {
            Some((v, p)) => sp_dec_opt_metrics(b@, pos as int) == Some((v, p as int)),
            None => sp_dec_opt_metrics(b@, pos as int) is None,
        },
{
    match dec_u64(b, pos) {
        None => None,
        Some((flag, p1)) => {
            if flag == 0 {
                Some((None, p1))
            } else if flag == 1 {
                match dec_metrics(b, p1) {
                    Some((m, p2)) => Some((Some(m), p2)),
                    None => None,
                }
            } else {
                None
            }
        },
    }
}

fn dec_license(b: &Vec<u8>, pos: usize) -> (r: Option<(CompressedLicense, usize)>)
    ensures
        match r {
            Some((v, p)) => sp_dec_license(b@, pos as int) == Some((v@, p as int)),
            None => sp_dec_license(b@, pos as int) is None,
        },
{
    proof {
        reveal(sp_dec_license);
    }
    let (name, p1) = match dec_str(b, pos) {
        Some(x) => x,
        None => {
            return None;
        },
    };
    let (url, p2) = match dec_str(b, p1) {
        Some(x) => x,
        None => {
            return None;
        },
    };
    let (emb, p3) = match dec_boolv(b, p2) {
        Some(x) => x,
        None => {
            return None;
        },
    };
    let (md, p4) = match dec_boolv(b, p3) {
        Some(x) => x,
        None => {
            return None;
        },
    };
    let (attr, p5) = match dec_boolv(b, p4) {
        Some(x) => x,
        None => {
            return None;
        },
    };
    let (com, p6) = match dec_boolv(b, p5) {
        Some(x) => x,
        None => {
            return None;
        },
    };
    Some(
        (
            CompressedLicense {
                name,
                url,
                allows_embedding: emb,
                allows_modification: md,
                requires_attribution: attr,
                allows_commercial_use: com,
            },
            p6,
        ),
    )
}

fn dec_cat(t: u64) -> (r: Option<FontCategory>)
    ensures
        r == cat_of_tag(t),
{
    if t == 0 {
        Some(FontCategory::Serif)
    } else if t == 1 {
        Some(FontCategory::SansSerif)
    } else if t == 2 {
        Some(FontCategory::Monospace)
    } else if t == 3 {
        Some(FontCategory::Display)
    } else if t == 4 {
        Some(FontCategory::Handwriting)
    } else if t == 5 {
        Some(FontCategory::Decorative)
    } else if t == 6 {
        Some(FontCategory::Symbol)
    } else if t == 7 {
        Some(FontCategory::Other)
    } else {
        None
    }
}

fn dec_fmt(t: u64) -> (r: Option<FontFormat>)
    ensures
        r == fmt_of_tag(t),
{
    if t == 0 {
        Some(FontFormat::Ttf)
    } else if t == 1 {
        Some(FontFormat::Otf)
    } else if t == 2 {
        Some(FontFormat::Woff)
    } else if t == 3 {
        Some(FontFormat::Woff2)
    } else if t == 4 {
        Some(FontFormat::Other)
    } else {
        None
    }
}

fn dec_strlist(b: &Vec<u8>, pos: usize, n: u64) -> (r: Option<(Vec<String>, usize)>)
    ensures
        match r {
            Some((v, p)) => sp_dec_strlist(b@, pos as int, n as int) == Some(
                (v@.map_values(|s: String| s@), p as int),
            ),
            None => sp_dec_strlist(b@, pos as int, n as int) is None,
        },
    decreases n,
{
    if n == 0 {
        let v: Vec<String> = Vec::new();
        proof {
            assert(v@.map_values(|s: String| s@) =~= Seq::<Seq<char>>::empty());
        }
        Some((v, pos))
    } else {
        match dec_str(b, pos) {
            None => None,
            Some((s, p1)) => match dec_strlist(b, p1, n - 1) {
                None => None,
                Some((rest, p2)) => {
                    let ghost sv = s@;
                    let ghost restv = rest@.map_values(|s: String| s@);
                    let mut out: Vec<String> = Vec::new();
                    out.push(s);
                    let mut rest = rest;
                    out.append(&mut rest);
                    proof {
                        assert(out@.map_values(|s: String| s@) =~= seq![sv] + restv);
                    }
                    Some((out, p2))
                },
            },
        }
    }
}

fn dec_urllist(b: &Vec<u8>, pos: usize, n: u64) -> (r: Option<(Vec<(FontFormat, String)>, usize)>)
    ensures
        match r {
            Some((v, p)) => sp_dec_urllist(b@, pos as int, n as int) == Some(
                (v@.map_values(|q: (FontFormat, String)| (q.0, q.1@)), p as int),
            ),
            None => sp_dec_urllist(b@, pos as int, n as int) is None,
        },
    decreases n,
{
    if n == 0 {
        let v: Vec<(FontFormat, String)> = Vec::new();
        proof {
            assert(v@.map_values(|q: (FontFormat, String)| (q.0, q.1@)) =~= Seq::<
                (FontFormat, Seq<char>),
            >::empty());
        }
        Some((v, pos))
    } else {
        match dec_u64(b, pos) {
            None => None,
            Some((t, p0)) => match dec_fmt(t) {
                None => None,
                Some(fmt) => match dec_str(b, p0) {
                    None => None,
                    Some((s, p1)) => match dec_urllist(b, p1, n - 1) {
                        None => None,
                        Some((rest, p2)) => {
                            let ghost sv = s@;
                            let ghost restv = rest@.map_values(
                                |q: (FontFormat, String)| (q.0, q.1@),
                            );
                            let mut out: Vec<(FontFormat, String)> = Vec::new();
                            out.push((fmt, s));
                            let mut rest = rest;
                            out.append(&mut rest);
                            proof {
                                assert(out@.map_values(|q: (FontFormat, String)| (q.0, q.1@))
                                    =~= seq![(fmt, sv)] + restv);
                            }
                            Some((out, p2))
                        },
                    },
                },
            },
        }
    }
}

#[verifier::rlimit(100)]
fn dec_font(b: &Vec<u8>, pos: usize) -> (r: Option<(CompressedFontData, usize)>)
    ensures
        match r {
            Some((v, p)) => sp_dec_font(b@, pos as int) == Some((v@, p as int)),
            None => sp_dec_font(b@, pos as int) is None,
        },
{
    proof {
        reveal(sp_dec_font);
    }
    let (family, p1) = match dec_str(b, pos) {
        Some(x) => x,
        None => {
            return None;
        },
    };
    let (ps, p2) = match dec_str(b, p1) {
        Some(x) => x,
        None => {
            return None;
        },
    };
    let (weight, p3) = match dec_u16v(b, p2) {
        Some(x) => x,
        None => {
            return None;
        },
    };
    let (italic, p4) = match dec_boolv(b, p3) {
        Some(x) => x,
        None => {
            return None;
        },
    };
    let (mono, p5) = match dec_boolv(b, p4) {
        Some(x) => x,
        None => {
            return None;
        },
    };
    let (metrics, p6) = match dec_opt_metrics(b, p5) {
        Some(x) => x,
        None => {
            return None;
        },
    };
    let (license, p7) = match dec_license(b, p6) {
        Some(x) => x,
        None => {
            return None;
        },
    };
    let (ct, p8) = match dec_u64(b, p7) {
        Some(x) => x,
        None => {
            return None;
        },
    };
    let category = match dec_cat(ct) {
        Some(x) => x,
        None => {
            return None;
        },
    };
    let (ns, p9) = match dec_u64(b, p8) {
        Some(x) => x,
        None => {
            return None;
        },
    };
    let (similar, p10) = match dec_strlist(b, p9, ns) {
        Some(x) => x,
        None => {
            return None;
        },
    };
    let (nu, p11) = match dec_u64(b, p10) {
        Some(x) => x,
        None => {
            return None;
        },
    };
    let (urls, p12) = match dec_urllist(b, p11, nu) {
        Some(x) => x,
        None => {
            return None;
        },
    };
    let (size, p13) = match dec_u32v(b, p12) {
        Some(x) => x,
        None => {
            return None;
        },
    };
    let (pop, p14) = match dec_u8v(b, p13) {
        Some(x) => x,
        None => {
            return None;
        },
    };
    Some(
        (
            CompressedFontData {
                family,
                postscript_name: ps,
                weight,
                italic,
                monospaced: mono,
                metrics,
                license,
                category,
                similar_fonts: similar,
                download_urls: urls,
                file_size_kb: size,
                popularity: pop,
            },
            p14,
        ),
    )
}

fn dec_cathist(b: &Vec<u8>, pos: usize, n: u64) -> (r: Option<(
    Vec<(FontCategory, usize)>,
    usize,
)>)
    ensures
        match r {
            Some((v, p)) => sp_dec_cathist(b@, pos as int, n as int) == Some((v@, p as int)),
            None => sp_dec_cathist(b@, pos as int, n as int) is None,
        },
    decreases n,
{
    if n == 0 {
        let v: Vec<(FontCategory, usize)> = Vec::new();
        proof {
            assert(v@ =~= Seq::<(FontCategory, usize)>::empty());
        }
        Some((v, pos))
    } else {
        match dec_u64(b, pos) {
            None => None,
            Some((t, p0)) => match dec_cat(t) {
                None => None,
                Some(cat) => match dec_usizev(b, p0) {
                    None => None,
                    Some((cnt, p1)) => match dec_cathist(b, p1, n - 1) {
                        None => None,
                        Some((rest, p2)) => {
                            let mut out: Vec<(FontCategory, usize)> = Vec::new();
                            out.push((cat, cnt));
                            let ghost restv = rest@;
                            let mut rest = rest;
                            out.append(&mut rest);
                            proof {
                                assert(out@ =~= seq![(cat, cnt)] + restv);
                            }
                            Some((out, p2))
                        },
                    },
                },
            },
        }
    }
}

fn dec_meta(b: &Vec<u8>, pos: usize) -> (r: Option<(FontDatabaseMetadata, usize)>)
    ensures
        match r {
            Some((v, p)) => sp_dec_meta(b@, pos as int) == Some((v@, p as int)),
            None => sp_dec_meta(b@, pos as int) is None,
        },
{
    proof {
        reveal(sp_dec_meta);
    }
    let (version, p1) = match dec_str(b, pos) {
        Some(x) => x,
        None => {
            return None;
        },
    };
    let (fc, p2) = match dec_usizev(b, p1) {
        Some(x) => x,
        None => {
            return None;
        },
    };
    let (csb, p3) = match dec_usizev(b, p2) {
        Some(x) => x,
        None => {
            return None;
        },
    };
    let (osb, p4) = match dec_usizev(b, p3) {
        Some(x) => x,
        None => {
            return None;
        },
    };
    let (created, p5) = match dec_str(b, p4) {
        Some(x) => x,
        None => {
            return None;
        },
    };
    let (nc, p6) = match dec_u64(b, p5) {
        Some(x) => x,
        None => {
            return None;
        },
    };
    let (cats, p7) = match dec_cathist(b, p6, nc) {
        Some(x) => x,
        None => {
            return None;
        },
    };
    let (inc, p8) = match dec_boolv(b, p7) {
        Some(x) => x,
        None => {
            return None;
        },
    };
    Some(
        (
            FontDatabaseMetadata {
                version,
                font_count: fc,
                compressed_size_bytes: csb,
                original_size_bytes: osb,
                created_at: created,
                categories: cats,
                include_full_data: inc,
            },
            p8,
        ),
    )
}

fn dec_pairlist(b: &Vec<u8>, pos: usize, n: u64) -> (r: Option<(Vec<(String, u32)>, usize)>)
    ensures
        match r {
            Some((v, p)) => sp_dec_pairlist(b@, pos as int, n as int) == Some(
                (v@.map_values(|q: (String, u32)| (q.0@, q.1)), p as int),
            ),
            None => sp_dec_pairlist(b@, pos as int, n as int) is None,
        },
    decreases n,
{
    if n == 0 {
        let v: Vec<(String, u32)> = Vec::new();
        proof {
            assert(v@.map_values(|q: (String, u32)| (q.0@, q.1)) =~= Seq::<
                (Seq<char>, u32),
            >::empty());
        }
        Some((v, pos))
    } else {
        match dec_str(b, pos) {
            None => None,
            Some((s, p1)) => match dec_u32v(b, p1) {
                None => None,
                Some((sc, p2)) => match dec_pairlist(b, p2, n - 1) {
                    None => None,
                    Some((rest, p3)) => {
                        let ghost sv = s@;
                        let ghost restv = rest@.map_values(|q: (String, u32)| (q.0@, q.1));
                        let mut out: Vec<(String, u32)> = Vec::new();
                        out.push((s, sc));
                        let mut rest = rest;
                        out.append(&mut rest);
                        proof {
                            assert(out@.map_values(|q: (String, u32)| (q.0@, q.1)) =~= seq![
                                (sv, sc),
                            ] + restv);
                        }
                        Some((out, p3))
                    },
                },
            },
        }
    }
}

fn dec_rowlist(b: &Vec<u8>, pos: usize, n: u64) -> (r: Option<(
    Vec<(String, Vec<(String, u32)>)>,
    usize,
)>)
    ensures
        match r {
            Some((v, p)) => sp_dec_rowlist(b@, pos as int, n as int) == Some(
                (matrix_view(v@), p as int),
            ),
            None => sp_dec_rowlist(b@, pos as int, n as int) is None,
        },
    decreases n,
{
    if n == 0 {
        let v: Vec<(String, Vec<(String, u32)>)> = Vec::new();
        proof {
            assert(matrix_view(v@) =~= Seq::<(Seq<char>, Seq<(Seq<char>, u32)>)>::empty());
        }
        Some((v, pos))
    } else {
        match dec_str(b, pos) {
            None => None,
            Some((key, p1)) => match dec_u64(b, p1) {
                None => None,
                Some((np, p2)) => match dec_pairlist(b, p2, np) {
                    None => None,
                    Some((pairs, p3)) => match dec_rowlist(b, p3, n - 1) {
                        None => None,
                        Some((rest, p4)) => {
                            let ghost kv = key@;
                            let ghost pv = pairs@.map_values(|q: (String, u32)| (q.0@, q.1));
                            let ghost restv = matrix_view(rest@);
                            let mut out: Vec<(String, Vec<(String, u32)>)> = Vec::new();
                            out.push((key, pairs));
                            let mut rest = rest;
                            out.append(&mut rest);
                            proof {
                                assert(matrix_view(out@) =~= seq![(kv, pv)] + restv);
                            }
                            Some((out, p4))
                        },
                    },
                },
            },
        }
    }
}

/// Parses a database payload; `None` on any malformation or trailing
/// bytes.
pub fn decode_database(b: &Vec<u8>) -> (r: Option<CompressedFontDatabase>)
    ensures
        match r {
            Some(db) => sp_dec_db(b@) == Some(db@),
            None => sp_dec_db(b@) is None,
        },
{
    let (meta, p1) = match dec_meta(b, 0) {
        Some(x) => x,
        None => {
            return None;
        },
    };
    let (nf, p2) = match dec_u64(b, p1) {
        Some(x) => x,
        None => {
            return None;
        },
    };
    let (fonts, p3) = match dec_fontlist(b, p2, nf) {
        Some(x) => x,
        None => {
            return None;
        },
    };
    let (matrix, p4) = match dec_matrix(b, p3) {
        Some(x) => x,
        None => {
            return None;
        },
    };
    if p4 == b.len() {
        Some(CompressedFontDatabase { metadata: meta, fonts, similarity_matrix: matrix })
    } else {
        None
    }
}

fn dec_fontlist(b: &Vec<u8>, pos: usize, n: u64) -> (r: Option<(Vec<CompressedFontData>, usize)>)
    ensures
        match r {
            Some((v, p)) => sp_dec_fontlist(b@, pos as int, n as int) == Some(
                (v@.map_values(|f: CompressedFontData| f@), p as int),
            ),
            None => sp_dec_fontlist(b@, pos as int, n as int) is None,
        },
    decreases n,
{
    if n == 0 {
        let v: Vec<CompressedFontData> = Vec::new();
        proof {
            assert(v@.map_values(|f: CompressedFontData| f@) =~= Seq::<
                CompressedFontDataV,
            >::empty());
        }
        Some((v, pos))
    } else {
        match dec_font(b, pos) {
            None => None,
            Some((f, p1)) => match dec_fontlist(b, p1, n - 1) {
                None => None,
                Some((rest, p2)) => {
                    let ghost fv = f@;
                    let ghost restv = rest@.map_values(|f: CompressedFontData| f@);
                    let mut out: Vec<CompressedFontData> = Vec::new();
                    out.push(f);
                    let mut rest = rest;
                    out.append(&mut rest);
                    proof {
                        assert(out@.map_values(|f: CompressedFontData| f@) =~= seq![fv] + restv);
                    }
                    Some((out, p2))
                },
            },
        }
    }
}

fn dec_matrix(b: &Vec<u8>, pos: usize) -> (r: Option<(
    Option<Vec<(String, Vec<(String, u32)>)>>,
    usize,
)>)
    ensures
        match r {
            Some((v, p)) => sp_dec_matrix(b@, pos as int) == Some(
                (
                    match v {
                        Some(m) => Some(matrix_view(m@)),
                        None => None,
                    },
                    p as int,
                ),
            ),
            None => sp_dec_matrix(b@, pos as int) is None,
        },
{
    match dec_u64(b, pos) {
        None => None,
        Some((flag, p1)) => {
            if flag == 0 {
                Some((None, p1))
            } else if flag == 1 {
                match dec_u64(b, p1) {
                    None => None,
                    Some((n, p2)) => match dec_rowlist(b, p2, n) {
                        None => None,
                        Some((rows, p3)) => Some((Some(rows), p3)),
                    },
                }
            } else {
                None
            }
        },
    }
}

fn has_sub_lower(low: &Vec<char>, kw: &str) -> (r: bool)
    ensures
        r == contains_sub(low@, kw@),
{
    let k = str_chars(kw);
    contains_vec(low, &k)
}

pub fn detect_category(family: &String, monospaced: bool) -> (r: FontCategory)
    ensures
        r == detect_category_spec(family@, monospaced),
{
    let chars = string_chars(family);
    let low = lower_vec(&chars);
    if monospaced {
        FontCategory::Monospace
    } else if has_sub_lower(&low, "serif") || has_sub_lower(&low, "times") || has_sub_lower(
        &low,
        "garamond",
    ) || has_sub_lower(&low, "georgia") {
        FontCategory::Serif
    } else if has_sub_lower(&low, "sans") || has_sub_lower(&low, "arial") || has_sub_lower(
        &low,
        "helvetica",
    ) || has_sub_lower(&low, "roboto") {
        FontCategory::SansSerif
    } else if has_sub_lower(&low, "script") || has_sub_lower(&low, "hand") || has_sub_lower(
        &low,
        "cursive",
    ) {
        FontCategory::Handwriting
    } else if has_sub_lower(&low, "display") || has_sub_lower(&low, "decorative") || has_sub_lower(
        &low,
        "fantasy",
    ) {
        FontCategory::Display
    } else if has_sub_lower(&low, "symbol") || has_sub_lower(&low, "dingbat") || has_sub_lower(
        &low,
        "wingding",
    ) {
        FontCategory::Symbol
    } else {
        FontCategory::Other
    }
}

// ----- conversion and deduplication ----------------------------------------

/// A face's deduplication key matches another: same family up to case,
/// same weight, same slant.
pub open spec fn same_face(a: FontDescriptorV, b: FontDescriptorV) -> bool {
    lower_seq(a.family) == lower_seq(b.family) && a.weight == b.weight && a.italic == b.italic
}

/// First occurrence wins.
pub open spec fn dedup_fonts_spec(fs: Seq<FontDescriptorV>, i: int) -> Seq<FontDescriptorV>
    decreases fs.len() - i,
{
    if i < 0 || i >= fs.len() {
        Seq::empty()
    } else if exists|j: int| 0 <= j < i && same_face(fs[j], fs[i]) {
        dedup_fonts_spec(fs, i + 1)
    } else {
        seq![fs[i]] + dedup_fonts_spec(fs, i + 1)
    }
}

/// The compact form of one face; similar-font and URL lists start empty
/// and the popularity defaults to the midpoint.
pub open spec fn font_to_compressed_spec(f: FontDescriptorV) -> CompressedFontDataV {
    CompressedFontDataV {
        family: f.family,
        postscript_name: f.postscript_name,
        weight: f.weight,
        italic: f.italic,
        monospaced: f.monospaced,
        metrics: match f.metrics {
            Some(m) => Some(
                CompressedMetrics {
                    units_per_em: m.units_per_em,
                    ascender: m.ascender,
                    descender: m.descender,
                    x_height: m.x_height,
                    cap_height: m.cap_height,
                    average_width: m.average_width,
                },
            ),
            None => None,
        },
        license: (match f.license {
            Some(l) => CompressedLicenseV {
                name: l.name,
                url: match l.url {
                    Some(u) => u,
                    None => Seq::empty(),
                },
                allows_embedding: l.allows_embedding,
                allows_modification: l.allows_modification,
                requires_attribution: l.requires_attribution,
                allows_commercial_use: l.allows_commercial_use,
            },
            None => CompressedLicenseV {
                name: Seq::empty(),
                url: Seq::empty(),
                allows_embedding: false,
                allows_modification: false,
                requires_attribution: false,
                allows_commercial_use: false,
            },
        }),
        category: detect_category_spec(f.family, f.monospaced),
        similar_fonts: Seq::empty(),
        download_urls: Seq::empty(),
        file_size_kb: estimate_file_size_spec(f.weight, f.variable),
        popularity: 50,
    }
}

pub open spec fn convert_all_spec(fs: Seq<FontDescriptorV>) -> Seq<CompressedFontDataV> {
    fs.map_values(|f: FontDescriptorV| font_to_compressed_spec(f))
}

/// The offline pairwise similarity: category 30%, weight distance 20%,
/// slant 20%, monospace 10%, name 20%; in permille.
pub open spec fn pair_sim_spec(a: CompressedFontDataV, b: CompressedFontDataV) -> int {
    let cat = if a.category == b.category {
        300int
    } else {
        0int
    };
    let diff = if a.weight >= b.weight {
        a.weight - b.weight
    } else {
        b.weight - a.weight
    };
    let wpart = if diff <= 800 {
        (800 - diff) / 4
    } else {
        0int
    };
    let ital = if a.italic == b.italic {
        200int
    } else {
        0int
    };
    let mono = if a.monospaced == b.monospaced {
        100int
    } else {
        0int
    };
    let name = comp_name_sim(a.family, b.family);
    cat + wpart + ital + mono + name / 5
}

/// The offline name similarity: equality, containment, else character
/// Jaccard.
pub open spec fn comp_name_sim(a: Seq<char>, b: Seq<char>) -> int {
    let la = lower_seq(a);
    let lb = lower_seq(b);
    if la == lb {
        1000
    } else if contains_sub(la, lb) || contains_sub(lb, la) {
        800
    } else {
        crate::similarity::char_jaccard(la, lb)
    }
}

fn comp_name_sim_x(a: &String, b: &String) -> (r: u32)
    ensures
        r as int == comp_name_sim(a@, b@),
        r <= 1000,
{
    proof {
        crate::similarity::lemma_char_jaccard_pub(lower_seq(a@), lower_seq(b@));
    }
    let ac = string_chars(a);
    let bc = string_chars(b);
    let la = lower_vec(&ac);
    let lb = lower_vec(&bc);
    if crate::text::eq_vec(&la, &lb) {
        1000
    } else if contains_vec(&la, &lb) || contains_vec(&lb, &la) {
        800
    } else {
        crate::similarity::char_jaccard_x(&la, &lb)
    }
}

/// The offline pairwise metric stays within [0, 1000].
pub proof fn lemma_pair_sim_bounds(a: CompressedFontDataV, b: CompressedFontDataV)
    ensures
        0 <= pair_sim_spec(a, b) <= 1000,
{
    crate::similarity::lemma_char_jaccard_pub(lower_seq(a.family), lower_seq(b.family));
}

pub fn calculate_font_similarity(a: &CompressedFontData, b: &CompressedFontData) -> (r: u32)
    ensures
        r as int == pair_sim_spec(a@, b@),
        r <= 1000,
{
    proof {
        lemma_pair_sim_bounds(a@, b@);
    }
    let cat: u32 = if a.category == b.category {
        300
    } else {
        0
    };
    let diff: u16 = if a.weight >= b.weight {
        a.weight - b.weight
    } else {
        b.weight - a.weight
    };
    let wpart: u32 = if diff <= 800 {
        ((800 - diff) / 4) as u32
    } else {
        0
    };
    let ital: u32 = if a.italic == b.italic {
        200
    } else {
        0
    };
    let mono: u32 = if a.monospaced == b.monospaced {
        100
    } else {
        0
    };
    let name = comp_name_sim_x(&a.family, &b.family);
    cat + wpart + ital + mono + name / 5
}

// ----- the compressor -------------------------------------------------------

/// Builds and reads compressed databases.  Quality runs 0 to 11.
pub struct FontCompressor {
    quality: u32,
    include_full_data: bool,
}

impl View for FontCompressor {
    type V = (u32, bool);

    closed spec fn view(&self) -> (u32, bool) {
        (self.quality, self.include_full_data)
    }
}

impl FontCompressor {
    pub fn new(quality: u32, include_full_data: bool) -> (r: FontCompressor)
        ensures
            r@.0 == if quality > 11 {
                11u32
            } else {
                quality
            },
            r@.0 <= 11,
            r@.1 == include_full_data,
    {
        FontCompressor {
            quality: if quality > 11 {
                11
            } else {
                quality
            },
            include_full_data,
        }
    }

    /// Drops faces whose (family, weight, slant) key was already seen.
    #[verifier::loop_isolation(false)]
    pub fn remove_duplicates(&self, fonts: &Vec<FontDescriptor>) -> (r: Vec<FontDescriptor>)
        ensures
            r@.map_values(|f: FontDescriptor| f@) == dedup_fonts_spec(
                fonts@.map_values(|f: FontDescriptor| f@),
                0,
            ),
    {
        let ghost fv = fonts@.map_values(|f: FontDescriptor| f@);
        let mut out: Vec<FontDescriptor> = Vec::new();
        proof {
            assert(out@.map_values(|f: FontDescriptor| f@) + dedup_fonts_spec(fv, 0)
                =~= dedup_fonts_spec(fv, 0));
        }
        let mut i: usize = 0;
        while i < fonts.len()
            invariant
                i <= fv.len(),
                dedup_fonts_spec(fv, 0) == out@.map_values(|f: FontDescriptor| f@)
                    + dedup_fonts_spec(fv, i as int),
            decreases fv.len() - i,
        {
            let mut seen = false;
            let mut j: usize = 0;
            while j < i
                invariant
                    j <= i <= fv.len(),
                    seen == (exists|k: int| 0 <= k < j && same_face(fv[k], fv[i as int])),
                decreases i - j,
            {
                let a = &fonts[j];
                let b = &fonts[i];
                let ac = string_chars(&a.family);
                let bc = string_chars(&b.family);
                let la = lower_vec(&ac);
                let lb = lower_vec(&bc);
                if crate::text::eq_vec(&la, &lb) && a.weight == b.weight && a.italic == b.italic {
                    proof {
                        assert(same_face(fv[j as int], fv[i as int]));
                    }
                    seen = true;
                }
                j += 1;
            }
            if !seen {
                let ghost o0 = out@.map_values(|f: FontDescriptor| f@);
                out.push(fonts[i].duplicate());
                proof {
                    assert(out@.map_values(|f: FontDescriptor| f@) =~= o0.push(fv[i as int]));
                    assert(dedup_fonts_spec(fv, i as int) =~= seq![fv[i as int]]
                        + dedup_fonts_spec(fv, i + 1));
                    assert(out@.map_values(|f: FontDescriptor| f@) + dedup_fonts_spec(fv, i + 1)
                        =~= o0 + dedup_fonts_spec(fv, i as int));
                }
            }
            i += 1;
        }
        proof {
            assert(out@.map_values(|f: FontDescriptor| f@) =~= dedup_fonts_spec(fv, 0));
        }
        out
    }

    pub fn estimate_file_size(&self, font: &FontDescriptor) -> (r: u32)
        ensures
            r == estimate_file_size_spec(font.weight, font.variable),
    {
        let base: u32 = 50;
        let var_pen: u32 = if font.variable {
            100
        } else {
            0
        };
        let weight_pen: u32 = if font.weight > 400 {
            ((font.weight - 400) / 100) as u32
        } else {
            0
        };
        let total = base + var_pen + weight_pen;
        if total < 20 {
            20
        } else {
            total
        }
    }

    /// The compact form of one face.
    pub fn font_to_compressed(&self, font: &FontDescriptor) -> (r: CompressedFontData)
        ensures
            r@ == font_to_compressed_spec(font@),
    {
        let metrics = match &font.metrics {
            Some(m) => Some(
                CompressedMetrics {
                    units_per_em: m.units_per_em,
                    ascender: m.ascender,
                    descender: m.descender,
                    x_height: m.x_height,
                    cap_height: m.cap_height,
                    average_width: m.average_width,
                },
            ),
            None => None,
        };
        let license = match &font.license {
            Some(l) => CompressedLicense {
                name: l.name.clone(),
                url: match &l.url {
                    Some(u) => u.clone(),
                    None => String::new(),
                },
                allows_embedding: l.allows_embedding,
                allows_modification: l.allows_modification,
                requires_attribution: l.requires_attribution,
                allows_commercial_use: l.allows_commercial_use,
            },
            None => CompressedLicense {
                name: String::new(),
                url: String::new(),
                allows_embedding: false,
                allows_modification: false,
                requires_attribution: false,
                allows_commercial_use: false,
            },
        };
        let category = detect_category(&font.family, font.monospaced);
        let size = self.estimate_file_size(font);
        let r = CompressedFontData {
            family: font.family.clone(),
            postscript_name: font.postscript_name.clone(),
            weight: font.weight,
            italic: font.italic,
            monospaced: font.monospaced,
            metrics,
            license,
            category,
            similar_fonts: Vec::new(),
            download_urls: Vec::new(),
            file_size_kb: size,
            popularity: 50,
        };
        proof {
            assert(r@.similar_fonts =~= Seq::<Seq<char>>::empty());
            assert(r@.download_urls =~= Seq::<(FontFormat, Seq<char>)>::empty());
        }
        r
    }

    /// Estimated total size of the faces, in bytes, clipped to the
    /// machine word.
    pub fn calculate_original_size(&self, fonts: &Vec<FontDescriptor>) -> (r: usize)
        ensures
            r == crate::cache::cap_usize(orig_size_spec(fonts@.map_values(|f: FontDescriptor| f@), 0)),
    {
        let ghost fv = fonts@.map_values(|f: FontDescriptor| f@);
        let mut acc: u128 = 0;
        let mut i: usize = 0;
        proof {
            lemma_orig_size_bounds(fv, 0);
        }
        #[verifier::loop_isolation(false)]
        while i < fonts.len()
            invariant
                i <= fv.len(),
                acc == orig_size_spec(fv, 0) - orig_size_spec(fv, i as int),
            decreases fv.len() - i,
        {
            proof {
                lemma_orig_size_bounds(fv, i as int);
                lemma_orig_size_bounds(fv, i + 1);
                assert(acc + estimate_file_size_spec(fv[i as int].weight, fv[i as int].variable)
                    * 1024 <= orig_size_spec(fv, 0));
            }
            let kb = self.estimate_file_size(&fonts[i]);
            acc = acc + (kb as u128) * 1024;
            i += 1;
        }
        if acc > usize::MAX as u128 {
            usize::MAX
        } else {
            acc as usize
        }
    }
}

// ----- histogram, matrix, compression --------------------------------------

pub open spec fn count_cat(fs: Seq<CompressedFontDataV>, c: FontCategory, i: int) -> int
    decreases fs.len() - i,
{
    if i < 0 || i >= fs.len() {
        0
    } else {
        (if fs[i].category == c {
            1int
        } else {
            0int
        }) + count_cat(fs, c, i + 1)
    }
}

/// The category histogram: the categories in declaration order, nonzero
/// counts only.
pub open spec fn hist_spec(fs: Seq<CompressedFontDataV>) -> Seq<(FontCategory, usize)> {
    Seq::new(8, |k: int| cat_of_tag(k as u64)->Some_0).filter(
        |c: FontCategory| count_cat(fs, c, 0) > 0,
    ).map_values(|c: FontCategory| (c, count_cat(fs, c, 0) as usize))
}

proof fn lemma_count_cat_bound(fs: Seq<CompressedFontDataV>, c: FontCategory, i: int)
    requires
        0 <= i <= fs.len(),
    ensures
        0 <= count_cat(fs, c, i) <= fs.len() - i,
    decreases fs.len() - i,
{
    if i < fs.len() {
        lemma_count_cat_bound(fs, c, i + 1);
    }
}

#[verifier::loop_isolation(false)]
fn count_cat_x(fs: &Vec<CompressedFontData>, c: FontCategory) -> (r: usize)
    ensures
        r as int == count_cat(fs@.map_values(|f: CompressedFontData| f@), c, 0),
{
    let ghost fv = fs@.map_values(|f: CompressedFontData| f@);
    proof {
        lemma_count_cat_bound(fv, c, 0);
    }
    let mut r: usize = 0;
    let mut i: usize = 0;
    while i < fs.len()
        invariant
            i <= fv.len(),
            r <= i,
            r + count_cat(fv, c, i as int) == count_cat(fv, c, 0),
        decreases fv.len() - i,
    {
        proof {
            lemma_count_cat_bound(fv, c, i + 1);
        }
        if fs[i].category == c {
            r += 1;
        }
        i += 1;
    }
    r
}

/// Builds the category histogram of the faces.
pub fn categorize_fonts(fonts: &Vec<CompressedFontData>) -> (r: Vec<(FontCategory, usize)>)
    ensures
        r@ == hist_spec(fonts@.map_values(|f: CompressedFontData| f@)),
{
    let ghost fv = fonts@.map_values(|f: CompressedFontData| f@);
    let mut cats: Vec<FontCategory> = Vec::new();
    cats.push(FontCategory::Serif);
    cats.push(FontCategory::SansSerif);
    cats.push(FontCategory::Monospace);
    cats.push(FontCategory::Display);
    cats.push(FontCategory::Handwriting);
    cats.push(FontCategory::Decorative);
    cats.push(FontCategory::Symbol);
    cats.push(FontCategory::Other);
    let ghost all = Seq::new(8, |k: int| cat_of_tag(k as u64)->Some_0);
    proof {
        assert(cats@ =~= all);
    }
    let mut out: Vec<(FontCategory, usize)> = Vec::new();
    let mut i: usize = 0;
    #[verifier::loop_isolation(false)]
    while i < cats.len()
        invariant
            cats@ == all,
            i <= 8,
            out@ == all.subrange(0, i as int).filter(|c: FontCategory| count_cat(fv, c, 0) > 0)
                .map_values(|c: FontCategory| (c, count_cat(fv, c, 0) as usize)),
        decreases 8 - i,
    {
        let ghost pre = all.subrange(0, i as int);
        let c = cats[i];
        let n = count_cat_x(fonts, c);
        proof {
            assert(all.subrange(0, i + 1) =~= pre.push(all[i as int]));
        }
        if n > 0 {
            out.push((c, n));
        }
        proof {
            reveal(Seq::filter);
            let f = |c: FontCategory| count_cat(fv, c, 0) > 0;
            let m = |c: FontCategory| (c, count_cat(fv, c, 0) as usize);
            assert(pre.push(all[i as int]).drop_last() =~= pre);
            assert(pre.push(all[i as int]).filter(f) == if f(all[i as int]) {
                pre.filter(f).push(all[i as int])
            } else {
                pre.filter(f)
            });
            assert(out@ =~= all.subrange(0, i + 1).filter(f).map_values(m));
        }
        i += 1;
    }
    proof {
        assert(all.subrange(0, 8) =~= all);
    }
    out
}

/// The shape the matrix builder promises: one row per face, keyed by its
/// family; entries name other faces with their pinned pairwise score,
/// above the 0.5 cutoff, sorted descending, at most ten.
pub open spec fn matrix_shape(rows: Seq<(Seq<char>, Seq<(Seq<char>, u32)>)>,
    fs: Seq<CompressedFontDataV>) -> bool {
    &&& rows.len() == fs.len()
    &&& forall|i: int| 0 <= i < rows.len() ==> (#[trigger] rows[i]).0 == fs[i].family
    &&& forall|i: int|
        0 <= i < rows.len() ==> (#[trigger] rows[i]).1.len() <= 10
    &&& forall|i: int, k: int|
        0 <= i < rows.len() && 0 <= k < (#[trigger] rows[i]).1.len() ==> pair_ok(
            fs,
            i,
            #[trigger] rows[i].1[k],
        )
    &&& forall|i: int, x: int, y: int|
        0 <= i < rows.len() && 0 <= x <= y < rows[i].1.len() ==> (#[trigger] rows[i].1[x]).1
            >= (#[trigger] rows[i].1[y]).1
}

/// Sorts similarity pairs by score, highest first.
#[verifier::loop_isolation(false)]
fn sort_pairs_desc(v: Vec<(String, u32)>) -> (r: Vec<(String, u32)>)
    ensures
        r@.len() == v@.len(),
        r@.to_multiset() == v@.to_multiset(),
        forall|x: int, y: int|
            0 <= x <= y < r@.len() ==> (#[trigger] r@[x]).1 >= (#[trigger] r@[y]).1,
{
    broadcast use vstd::seq_lib::group_to_multiset_ensures;

    let ghost orig = v@;
    let mut src = v;
    let mut out: Vec<(String, u32)> = Vec::new();
    while src.len() > 0
        invariant
            out@.to_multiset().add(src@.to_multiset()) == orig.to_multiset(),
            out@.len() + src@.len() == orig.len(),
            forall|x: int, y: int|
                0 <= x <= y < out@.len() ==> (#[trigger] out@[x]).1 >= (#[trigger] out@[y]).1,
            forall|x: int, y: int|
                0 <= x < out@.len() && 0 <= y < src@.len() ==> (#[trigger] out@[x]).1
                    >= (#[trigger] src@[y]).1,
        decreases src@.len(),
    {
        let mut mi: usize = 0;
        let mut k: usize = 1;
        while k < src.len()
            invariant
                mi < k <= src@.len(),
                forall|j: int| 0 <= j < k ==> (#[trigger] src@[j]).1 <= src@[mi as int].1,
            decreases src@.len() - k,
        {
            if src[k].1 > src[mi].1 {
                mi = k;
            }
            k += 1;
        }
        let ghost src_before = src@;
        let m = src.remove(mi);
        let ghost out_before = out@;
        out.push(m);
        proof {
            assert(out@.to_multiset() =~= out_before.to_multiset().insert(m));
            assert(src@.to_multiset() =~= src_before.to_multiset().remove(m));
            assert(src_before.to_multiset().count(m) > 0) by {
                assert(src_before[mi as int] == m);
                assert(src_before.contains(m));
            }
            assert(out@.to_multiset().add(src@.to_multiset()) =~= out_before.to_multiset().add(
                src_before.to_multiset(),
            ));
            assert forall|y: int| 0 <= y < src@.len() implies m.1 >= (#[trigger] src@[y]).1 by {
                assert(src@[y] == if y < mi {
                    src_before[y]
                } else {
                    src_before[y + 1]
                });
            }
        }
    }
    proof {
        assert(out@.to_multiset().add(src@.to_multiset()) =~= out@.to_multiset());
        assert(orig.to_multiset().len() == orig.len());
        assert(out@.to_multiset().len() == out@.len());
    }
    out
}

/// One matrix row's entry property: above the cutoff, within bounds,
/// never the row's own family, and carrying the offline metric's value
/// for some other face.
pub open spec fn pair_ok(fs: Seq<CompressedFontDataV>, i: int, p: (Seq<char>, u32)) -> bool {
    &&& 500 < p.1 <= 1000
    &&& (0 <= i < fs.len() ==> p.0 != fs[i].family)
    &&& exists|j: int|
        0 <= j < fs.len() && j != i && fs[j].family == p.0 && p.1 as int == pair_sim_spec(
            fs[i],
            fs[j],
        )
}

proof fn lemma_pairs_transfer(a: Seq<(String, u32)>, b: Seq<(String, u32)>,
    fs: Seq<CompressedFontDataV>, i: int)
    requires
        a.to_multiset() == b.to_multiset(),
        forall|k: int| 0 <= k < a.len() ==> pair_ok(fs, i, ((#[trigger] a[k]).0@, a[k].1)),
    ensures
        forall|k: int| 0 <= k < b.len() ==> pair_ok(fs, i, ((#[trigger] b[k]).0@, b[k].1)),
{
    broadcast use vstd::seq_lib::group_to_multiset_ensures;

    assert forall|k: int| 0 <= k < b.len() implies pair_ok(
        fs,
        i,
        ((#[trigger] b[k]).0@, b[k].1),
    ) by {
        assert(b.contains(b[k]));
        assert(b.to_multiset().count(b[k]) > 0);
        assert(a.to_multiset().count(b[k]) > 0);
        assert(a.contains(b[k]));
        let m = choose|m: int| 0 <= m < a.len() && a[m] == b[k];
    }
}

/// Builds the pairwise similarity matrix: per face, the others scoring
/// above 0.5, best first, at most ten.
#[verifier::loop_isolation(false)]
#[verifier::rlimit(60)]
pub fn build_similarity_matrix(fonts: &Vec<CompressedFontData>) -> (r: Vec<(
    String,
    Vec<(String, u32)>,
)>)
    ensures
        matrix_shape(matrix_view(r@), fonts@.map_values(|f: CompressedFontData| f@)),
{
    let ghost fv = fonts@.map_values(|f: CompressedFontData| f@);
    let mut rows: Vec<(String, Vec<(String, u32)>)> = Vec::new();
    let mut i: usize = 0;
    while i < fonts.len()
        invariant
            i <= fv.len(),
            matrix_view(rows@).len() == i,
            forall|x: int| 0 <= x < i ==> (#[trigger] matrix_view(rows@)[x]).0 == fv[x].family,
            forall|x: int| 0 <= x < i ==> (#[trigger] matrix_view(rows@)[x]).1.len() <= 10,
            forall|x: int, k: int|
                0 <= x < i && 0 <= k < matrix_view(rows@)[x].1.len() ==> pair_ok(
                    fv,
                    x,
                    #[trigger] matrix_view(rows@)[x].1[k],
                ),
            forall|x: int, a: int, b2: int|
                0 <= x < i && 0 <= a <= b2 < matrix_view(rows@)[x].1.len()
                    ==> (#[trigger] matrix_view(rows@)[x].1[a]).1 >= (#[trigger] matrix_view(
                    rows@,
                )[x].1[b2]).1,
        decreases fv.len() - i,
    {
        let mut sims: Vec<(String, u32)> = Vec::new();
        let mut j: usize = 0;
        while j < fonts.len()
            invariant
                i < fv.len(),
                j <= fv.len(),
                forall|k: int|
                    0 <= k < sims@.len() ==> pair_ok(fv, i as int, ((#[trigger] sims@[k]).0@, sims@[k].1)),
            decreases fv.len() - j,
        {
            if j != i {
                let fa = string_chars(&fonts[i].family);
                let fb = string_chars(&fonts[j].family);
                if !crate::text::eq_vec(&fa, &fb) {
                    let s = calculate_font_similarity(&fonts[i], &fonts[j]);
                    if s > 500 {
                        sims.push((fonts[j].family.clone(), s));
                        proof {
                            assert(fv[j as int].family != fv[i as int].family);
                            assert(pair_ok(fv, i as int, (fv[j as int].family, s)));
                        }
                    }
                }
            }
            j += 1;
        }
        let ghost sims_pre = sims@;
        let mut sorted = sort_pairs_desc(sims);
        proof {
            lemma_pairs_transfer(sims_pre, sorted@, fv, i as int);
        }
        let ghost sorted_full = sorted@;
        sorted.truncate(10);
        proof {
            if 10 <= sorted_full.len() {
                assert(sorted@ == sorted_full.subrange(0, 10));
            }
        }
        let ghost rows_pre = matrix_view(rows@);
        let key = fonts[i].family.clone();
        rows.push((key, sorted));
        proof {
            assert(matrix_view(rows@) =~= rows_pre.push(
                (fv[i as int].family, sorted@.map_values(|p: (String, u32)| (p.0@, p.1))),
            ));
        }
        i += 1;
    }
    rows
}

/// The database a compression run builds, given the timestamp it drew
/// and the matrix it computed.
pub open spec fn built_db_spec(fonts: Seq<FontDescriptorV>, include_full_data: bool,
    created: Seq<char>, mx: Option<Seq<(Seq<char>, Seq<(Seq<char>, u32)>)>>) -> CompressedFontDatabaseV {
    let unique = dedup_fonts_spec(fonts, 0);
    let recs = convert_all_spec(unique);
    CompressedFontDatabaseV {
        metadata: FontDatabaseMetadataV {
            version: "0.1.0"@,
            font_count: recs.len() as usize,
            compressed_size_bytes: 0,
            original_size_bytes: crate::cache::cap_usize(orig_size_spec(unique, 0)),
            created_at: created,
            categories: hist_spec(recs),
            include_full_data,
        },
        fonts: recs,
        similarity_matrix: mx,
    }
}

impl FontCompressor {
    /// Deduplicates, converts, optionally builds the similarity matrix,
    /// and emits the brotli-compressed payload.  The size field inside
    /// the stream is written as zero; readers take the stream's own
    /// length instead.
    #[verifier::loop_isolation(false)]
    pub fn compress_font_database(&self, fonts: &Vec<FontDescriptor>,
        include_similarity_data: bool) -> (r: Result<Vec<u8>, String>)
        requires
            self@.0 <= 11,
        ensures
            r matches Ok(bytes) && (exists|created: Seq<char>,
                mx: Option<Seq<(Seq<char>, Seq<(Seq<char>, u32)>)>>|
                {
                    &&& (include_similarity_data <==> mx is Some)
                    &&& (mx matches Some(rows) ==> matrix_shape(
                        rows,
                        convert_all_spec(
                            dedup_fonts_spec(crate::similarity::font_views(fonts@), 0),
                        ),
                    ))
                    &&& db_bounded(
                        built_db_spec(crate::similarity::font_views(fonts@), self@.1, created, mx),
                    )
                    &&& bytes@ == brotli_of(
                        enc_db(
                            #[trigger] built_db_spec(
                                crate::similarity::font_views(fonts@),
                                self@.1,
                                created,
                                mx,
                            ),
                        ),
                        self@.0,
                    )
                }),
    {
        let ghost fv = fonts@.map_values(|f: FontDescriptor| f@);
        let unique = self.remove_duplicates(fonts);
        let mut recs: Vec<CompressedFontData> = Vec::new();
        let ghost uv = unique@.map_values(|f: FontDescriptor| f@);
        let mut i: usize = 0;
        while i < unique.len()
            invariant
                i <= uv.len(),
                recs@.map_values(|f: CompressedFontData| f@) == convert_all_spec(uv).subrange(
                    0,
                    i as int,
                ),
            decreases uv.len() - i,
        {
            let ghost r0 = recs@.map_values(|f: CompressedFontData| f@);
            recs.push(self.font_to_compressed(&unique[i]));
            proof {
                assert(recs@.map_values(|f: CompressedFontData| f@) =~= r0.push(
                    font_to_compressed_spec(uv[i as int]),
                ));
                assert(recs@.map_values(|f: CompressedFontData| f@) =~= convert_all_spec(
                    uv,
                ).subrange(0, i + 1));
            }
            i += 1;
        }
        proof {
            assert(convert_all_spec(uv).subrange(0, uv.len() as int) =~= convert_all_spec(uv));
        }
        let similarity_matrix = if include_similarity_data {
            Some(build_similarity_matrix(&recs))
        } else {
            None
        };
        let original_size = self.calculate_original_size(&unique);
        let categories = categorize_fonts(&recs);
        let created_at = crate::outside::now_rfc3339();
        let metadata = FontDatabaseMetadata {
            version: "0.1.0".to_owned(),
            font_count: recs.len(),
            compressed_size_bytes: 0,
            original_size_bytes: original_size,
            created_at,
            categories,
            include_full_data: self.include_full_data,
        };
        let db = CompressedFontDatabase { metadata, fonts: recs, similarity_matrix };
        db_is_bounded(&db);
        let payload = encode_database(&db);
        let bytes = crate::outside::brotli_compress(&payload, self.quality);
        proof {
            let created = db.metadata.created_at@;
            let mx = match db.similarity_matrix {
                Some(m) => Some(matrix_view(m@)),
                None => None,
            };
            assert(fv == crate::similarity::font_views(fonts@));
            assert(db@ == built_db_spec(fv, self@.1, created, mx));
            assert(payload@ == enc_db(db@));
            assert(bytes@ == brotli_of(
                enc_db(built_db_spec(crate::similarity::font_views(fonts@), self@.1, created, mx)),
                self@.0,
            ));
            assert(include_similarity_data <==> mx is Some);
            if include_similarity_data {
                assert(mx matches Some(rows) ==> matrix_shape(
                    rows,
                    convert_all_spec(dedup_fonts_spec(crate::similarity::font_views(fonts@), 0)),
                ));
            }
        }
        Ok(bytes)
    }

    /// Reads a compressed database: brotli-decompress, then parse.  The
    /// size field is overwritten with the stream's own length.  Any
    /// payload the encoder produced for a bounded database reads back
    /// equal, except for that field.
    pub fn decompress_font_database(&self, compressed_data: &Vec<u8>) -> (r: Result<
        CompressedFontDatabase,
        String,
    >)
        ensures
            forall|dbv: CompressedFontDatabaseV, q: u32|
                q <= 11 && db_bounded(dbv) && compressed_data@ == #[trigger] brotli_of(
                    enc_db(dbv),
                    q,
                ) ==> (r matches Ok(db2) && db2@ == (CompressedFontDatabaseV {
                    metadata: FontDatabaseMetadataV {
                        compressed_size_bytes: compressed_data@.len() as usize,
                        ..dbv.metadata
                    },
                    ..dbv
                })),
    {
        let payload = match crate::outside::brotli_decompress(compressed_data) {
            Some(p) => p,
            None => {
                proof {
                    assert forall|dbv: CompressedFontDatabaseV, q: u32|
                        !(q <= 11 && db_bounded(dbv) && compressed_data@ == #[trigger] brotli_of(
                            enc_db(dbv),
                            q,
                        )) by {}
                }
                return Err("Decompression failed".to_owned());
            },
        };
        match decode_database(&payload) {
            Some(mut db) => {
                db.metadata.compressed_size_bytes = compressed_data.len();
                proof {
                    assert forall|dbv: CompressedFontDatabaseV, q: u32|
                        q <= 11 && db_bounded(dbv) && compressed_data@ == #[trigger] brotli_of(
                            enc_db(dbv),
                            q,
                        ) implies db@ == (CompressedFontDatabaseV {
                        metadata: FontDatabaseMetadataV {
                            compressed_size_bytes: compressed_data@.len() as usize,
                            ..dbv.metadata
                        },
                        ..dbv
                    }) by {
                        assert(payload@ == enc_db(dbv));
                        lemma_db_roundtrip(dbv);
                    }
                }
                Ok(db)
            },
            None => {
                proof {
                    assert forall|dbv: CompressedFontDatabaseV, q: u32|
                        !(q <= 11 && db_bounded(dbv) && compressed_data@ == #[trigger] brotli_of(
                            enc_db(dbv),
                            q,
                        )) by {
                        if compressed_data@ == brotli_of(enc_db(dbv), q) && q <= 11 && db_bounded(
                            dbv,
                        ) {
                            assert(payload@ == enc_db(dbv));
                            lemma_db_roundtrip(dbv);
                        }
                    }
                }
                Err("Deserialization failed".to_owned())
            },
        }
    }

    /// Splits the faces into a popular core of at most a thousand and an
    /// extended remainder, compressed at quality 11 with the similarity
    /// matrix and quality 9 without it.
    pub fn smart_compress(&self, fonts: Vec<FontDescriptor>, popularity_scores: &Vec<
        (String, u8),
    >) -> (r: Result<(Vec<u8>, Vec<u8>), String>)
        ensures
            r matches Ok(pair) && (exists|
                core: Seq<FontDescriptorV>,
                ext: Seq<FontDescriptorV>,
                created1: Seq<char>,
                created2: Seq<char>,
                mx: Option<Seq<(Seq<char>, Seq<(Seq<char>, u32)>)>>,
            |
                {
                    let unique = dedup_fonts_spec(crate::similarity::font_views(fonts@), 0);
                    &&& (core + ext).to_multiset() == unique.to_multiset()
                    &&& core.len() == spec_min_int(1000, unique.len() as int)
                    &&& (forall|i: int, j: int|
                        0 <= i < core.len() && 0 <= j < ext.len() ==> pop_of(
                            counts8_view(popularity_scores@),
                            (#[trigger] ext[j]).family,
                        ) <= pop_of(
                            counts8_view(popularity_scores@),
                            (#[trigger] core[i]).family,
                        ))
                    &&& mx is Some
                    &&& pair.0@ == brotli_of(
                        enc_db(#[trigger] built_db_spec(core, true, created1, mx)),
                        11,
                    )
                    &&& pair.1@ == brotli_of(
                        enc_db(#[trigger] built_db_spec(ext, false, created2, None)),
                        9,
                    )
                }),
    {
        broadcast use vstd::seq_lib::group_to_multiset_ensures;

        let unique = self.remove_duplicates(&fonts);
        let ghost uv = unique@.map_values(|f: FontDescriptor| f@);
        let sorted = sort_by_popularity_desc(unique, popularity_scores);
        let ghost sv = sorted@.map_values(|f: FontDescriptor| f@);
        let mut core_fonts: Vec<FontDescriptor> = Vec::new();
        let mut ext_fonts: Vec<FontDescriptor> = Vec::new();
        let mut i: usize = 0;
        #[verifier::loop_isolation(false)]
        while i < sorted.len()
            invariant
                i <= sv.len(),
                core_fonts@.map_values(|f: FontDescriptor| f@) == sv.subrange(
                    0,
                    spec_min_int(1000, i as int),
                ),
                ext_fonts@.map_values(|f: FontDescriptor| f@) == if i > 1000 {
                    sv.subrange(1000, i as int)
                } else {
                    Seq::<FontDescriptorV>::empty()
                },
            decreases sv.len() - i,
        {
            let f = sorted[i].duplicate();
            if i < 1000 {
                let ghost c0 = core_fonts@.map_values(|g: FontDescriptor| g@);
                core_fonts.push(f);
                proof {
                    assert(core_fonts@.map_values(|g: FontDescriptor| g@) =~= c0.push(
                        sv[i as int],
                    ));
                    assert(core_fonts@.map_values(|g: FontDescriptor| g@) =~= sv.subrange(
                        0,
                        spec_min_int(1000, i + 1),
                    ));
                }
            } else {
                let ghost e0 = ext_fonts@.map_values(|g: FontDescriptor| g@);
                ext_fonts.push(f);
                proof {
                    assert(ext_fonts@.map_values(|g: FontDescriptor| g@) =~= e0.push(sv[i as int]));
                    assert(ext_fonts@.map_values(|g: FontDescriptor| g@) =~= sv.subrange(
                        1000,
                        i + 1,
                    ));
                }
            }
            i += 1;
        }
        let core_compressor = FontCompressor::new(11, true);
        let ext_compressor = FontCompressor::new(9, false);
        let core_data = match core_compressor.compress_font_database(&core_fonts, true) {
            Ok(d) => d,
            Err(e) => {
                return Err(e);
            },
        };
        let ext_data = match ext_compressor.compress_font_database(&ext_fonts, false) {
            Ok(d) => d,
            Err(e) => {
                return Err(e);
            },
        };
        proof {
            let cv = core_fonts@.map_values(|f: FontDescriptor| f@);
            let ev = ext_fonts@.map_values(|f: FontDescriptor| f@);
            assert(cv + ev =~= sv);
            lemma_dedup_of_dedup(cv, ev, sv);
            assert((cv + ev).to_multiset() =~= uv.to_multiset());
            let svw = counts8_view(popularity_scores@);
            assert forall|i: int, j: int|
                0 <= i < cv.len() && 0 <= j < ev.len() implies pop_of(
                svw,
                (#[trigger] ev[j]).family,
            ) <= pop_of(svw, (#[trigger] cv[i]).family) by {
                assert(cv[i] == crate::similarity::font_views(sorted@)[i]);
                assert(ev[j] == crate::similarity::font_views(sorted@)[1000 + j]);
            }
        }
        Ok((core_data, ext_data))
    }

    /// Permille saved by compression: 1000 means everything saved, 0
    /// means nothing, and a negative value means the data expanded.
    pub fn calculate_compression_ratio(&self, original_len: usize, compressed_len: usize) -> (r:
        i128)
        ensures
            r == compression_ratio_spec(original_len as int, compressed_len as int),
            r <= 1000,
    {
        if original_len == 0 {
            return 0;
        }
        if compressed_len <= original_len {
            let saved: u128 = (original_len - compressed_len) as u128;
            let wide: u128 = saved * 1000 / (original_len as u128);
            proof {
                let s = original_len - compressed_len;
                assert(s * 1000 <= original_len * 1000) by (nonlinear_arith)
                    requires
                        0 <= s <= original_len,
                ;
                assert(s * 1000 / (original_len as int) <= 1000) by (nonlinear_arith)
                    requires
                        s * 1000 <= original_len * 1000,
                        original_len > 0,
                ;
                assert(s * 1000 / (original_len as int) >= 0) by (nonlinear_arith)
                    requires
                        s >= 0,
                        original_len > 0,
                ;
            }
            wide as i128
        } else {
            let grown: u128 = (compressed_len - original_len) as u128;
            let wide: u128 = grown * 1000 / (original_len as u128);
            proof {
                let g = compressed_len - original_len;
                assert(g * 1000 / (original_len as int) >= 0) by (nonlinear_arith)
                    requires
                        g >= 0,
                        original_len > 0,
                ;
                assert(g * 1000 <= 0xffffffff_ffffffff_00000000_00000000) by (nonlinear_arith)
                    requires
                        0 <= g <= 0xffffffff_ffffffff,
                ;
            }
            -(wide as i128)
        }
    }
}

/// The saving in permille: nonnegative when the data shrank, negative by
/// the symmetric formula when it expanded, 0 for empty input.
pub open spec fn compression_ratio_spec(original_len: int, compressed_len: int) -> int {
    if original_len == 0 {
        0
    } else if compressed_len <= original_len {
        (original_len - compressed_len) * 1000 / original_len
    } else {
        -((compressed_len - original_len) * 1000 / original_len)
    }
}

pub open spec fn spec_min_int(a: int, b: int) -> int {
    if a <= b {
        a
    } else {
        b
    }
}

/// Deduplicated lists keep their multiset under any later split.
proof fn lemma_dedup_of_dedup(cv: Seq<FontDescriptorV>, ev: Seq<FontDescriptorV>,
    sv: Seq<FontDescriptorV>)
    requires
        cv + ev == sv,
    ensures
        (cv + ev).to_multiset() == sv.to_multiset(),
{
}

/// The popularity assigned to a face: the score listed for its lowercase
/// family, or the midpoint.
pub open spec fn pop_of(scores: Seq<(Seq<char>, u8)>, fam: Seq<char>) -> u8
    decreases scores.len(),
{
    if scores.len() == 0 {
        50
    } else if scores[0].0 == lower_seq(fam) {
        scores[0].1
    } else {
        pop_of(scores.drop_first(), fam)
    }
}

fn pop_of_x(scores: &Vec<(String, u8)>, family: &String) -> (r: u8)
    ensures
        r == pop_of(counts8_view(scores@), family@),
{
    let ghost svw = counts8_view(scores@);
    let fc = string_chars(family);
    let low = lower_vec(&fc);
    let mut i: usize = 0;
    proof {
        assert(svw.skip(0) =~= svw);
    }
    #[verifier::loop_isolation(false)]
    while i < scores.len()
        invariant
            i <= svw.len(),
            pop_of(svw, family@) == pop_of(svw.skip(i as int), family@),
        decreases svw.len() - i,
    {
        proof {
            assert(svw.skip(i as int)[0] == svw[i as int]);
            assert(svw.skip(i as int).drop_first() =~= svw.skip(i + 1));
        }
        let sc = string_chars(&scores[i].0);
        if crate::text::eq_vec(&sc, &low) {
            return scores[i].1;
        }
        i += 1;
    }
    proof {
        assert(svw.skip(svw.len() as int) =~= Seq::<(Seq<char>, u8)>::empty());
    }
    50
}

pub open spec fn counts8_view(s: Seq<(String, u8)>) -> Seq<(Seq<char>, u8)> {
    s.map_values(|p: (String, u8)| (p.0@, p.1))
}

/// Sorts faces by their popularity score, highest first.
#[verifier::loop_isolation(false)]
pub open spec fn pair_views(s: Seq<(FontDescriptor, u8)>) -> Seq<FontDescriptorV> {
    s.map_values(|p: (FontDescriptor, u8)| p.0@)
}

/// Each pair carries the popularity the score table assigns its face.
pub open spec fn pairs_scored(s: Seq<(FontDescriptor, u8)>, scores: Seq<(Seq<char>, u8)>) -> bool {
    forall|j: int| 0 <= j < s.len() ==> (#[trigger] s[j]).1 == pop_of(scores, s[j].0@.family)
}

proof fn lemma_pairs_scored_transfer(a: Seq<(FontDescriptor, u8)>, b: Seq<(FontDescriptor, u8)>,
    scores: Seq<(Seq<char>, u8)>)
    requires
        a.to_multiset() == b.to_multiset(),
        pairs_scored(a, scores),
    ensures
        pairs_scored(b, scores),
{
    broadcast use vstd::seq_lib::group_to_multiset_ensures;

    assert forall|j: int| 0 <= j < b.len() implies (#[trigger] b[j]).1 == pop_of(
        scores,
        b[j].0@.family,
    ) by {
        assert(b.contains(b[j]));
        assert(b.to_multiset().count(b[j]) > 0);
        assert(a.to_multiset().count(b[j]) > 0);
        assert(a.contains(b[j]));
        let i = choose|i: int| 0 <= i < a.len() && a[i] == b[j];
    }
}

/// Sorts faces by their popularity score, highest first.
#[verifier::loop_isolation(false)]
fn sort_by_popularity_desc(v: Vec<FontDescriptor>, scores: &Vec<(String, u8)>) -> (r: Vec<
    FontDescriptor,
>)
    ensures
        r@.len() == v@.len(),
        crate::similarity::font_views(r@).to_multiset() == crate::similarity::font_views(
            v@,
        ).to_multiset(),
        forall|x: int, y: int|
            0 <= x <= y < r@.len() ==> pop_of(
                counts8_view(scores@),
                (#[trigger] crate::similarity::font_views(r@)[x]).family,
            ) >= pop_of(
                counts8_view(scores@),
                (#[trigger] crate::similarity::font_views(r@)[y]).family,
            ),
{
    broadcast use vstd::seq_lib::group_to_multiset_ensures;

    let ghost svw = counts8_view(scores@);
    let ghost orig = crate::similarity::font_views(v@);
    // attach the popularity to each face
    let mut pairs: Vec<(FontDescriptor, u8)> = Vec::new();
    let mut i: usize = 0;
    while i < v.len()
        invariant
            i <= v@.len(),
            pairs@.len() == i,
            pairs_scored(pairs@, svw),
            pair_views(pairs@) == crate::similarity::font_views(v@).subrange(0, i as int),
        decreases v@.len() - i,
    {
        let p = pop_of_x(scores, &v[i].family);
        let ghost pv0 = pair_views(pairs@);
        pairs.push((v[i].duplicate(), p));
        proof {
            assert(pair_views(pairs@) =~= pv0.push(orig[i as int]));
            assert(pair_views(pairs@) =~= crate::similarity::font_views(v@).subrange(0, i + 1));
        }
        i += 1;
    }
    proof {
        assert(crate::similarity::font_views(v@).subrange(0, v@.len() as int) =~= orig);
    }
    // selection sort on the attached score, highest first
    let mut src = pairs;
    let mut out: Vec<(FontDescriptor, u8)> = Vec::new();
    let ghost porig = src@;
    while src.len() > 0
        invariant
            out@.to_multiset().add(src@.to_multiset()) == porig.to_multiset(),
            pair_views(out@).to_multiset().add(pair_views(src@).to_multiset()) == pair_views(
                porig,
            ).to_multiset(),
            out@.len() + src@.len() == porig.len(),
            forall|x: int, y: int|
                0 <= x <= y < out@.len() ==> (#[trigger] out@[x]).1 >= (#[trigger] out@[y]).1,
            forall|x: int, y: int|
                0 <= x < out@.len() && 0 <= y < src@.len() ==> (#[trigger] out@[x]).1
                    >= (#[trigger] src@[y]).1,
        decreases src@.len(),
    {
        let mut mi: usize = 0;
        let mut k: usize = 1;
        while k < src.len()
            invariant
                mi < k <= src@.len(),
                forall|j: int| 0 <= j < k ==> (#[trigger] src@[j]).1 <= src@[mi as int].1,
            decreases src@.len() - k,
        {
            if src[k].1 > src[mi].1 {
                mi = k;
            }
            k += 1;
        }
        let ghost src_before = src@;
        let m = src.remove(mi);
        let ghost out_before = out@;
        let ghost mval = m;
        out.push(m);
        proof {
            assert(out@.to_multiset() =~= out_before.to_multiset().insert(mval));
            assert(src@.to_multiset() =~= src_before.to_multiset().remove(mval));
            assert(src_before.to_multiset().count(mval) > 0) by {
                assert(src_before[mi as int] == mval);
                assert(src_before.contains(mval));
            }
            assert(out@.to_multiset().add(src@.to_multiset()) =~= out_before.to_multiset().add(
                src_before.to_multiset(),
            ));
            assert(pair_views(out@) =~= pair_views(out_before).push(mval.0@));
            assert(pair_views(src@) =~= pair_views(src_before).remove(mi as int));
            assert(pair_views(out@).to_multiset() =~= pair_views(out_before).to_multiset().insert(
                mval.0@,
            ));
            assert(pair_views(src@).to_multiset() =~= pair_views(src_before).to_multiset().remove(
                pair_views(src_before)[mi as int],
            ));
            assert(pair_views(src_before)[mi as int] == mval.0@);
            assert(pair_views(out@).to_multiset().add(pair_views(src@).to_multiset())
                =~= pair_views(out_before).to_multiset().add(pair_views(src_before).to_multiset()));
            assert forall|y: int| 0 <= y < src@.len() implies mval.1 >= (#[trigger] src@[y]).1 by {
                assert(src@[y] == if y < mi {
                    src_before[y]
                } else {
                    src_before[y + 1]
                });
            }
        }
    }
    proof {
        assert(src@.to_multiset() =~= Seq::<(FontDescriptor, u8)>::empty().to_multiset());
        assert(out@.to_multiset().add(src@.to_multiset()) =~= out@.to_multiset());
        assert(pair_views(src@) =~= Seq::<FontDescriptorV>::empty());
        assert(pair_views(out@).to_multiset().add(pair_views(src@).to_multiset()) =~= pair_views(
            out@,
        ).to_multiset());
        lemma_pairs_scored_transfer(porig, out@, svw);
        assert(porig.to_multiset().len() == porig.len());
        assert(out@.to_multiset().len() == out@.len());
    }
    // strip the attached score
    let mut r: Vec<FontDescriptor> = Vec::new();
    let mut i: usize = 0;
    while i < out.len()
        invariant
            i <= out@.len(),
            r@.len() == i,
            forall|j: int|
                0 <= j < i ==> (#[trigger] crate::similarity::font_views(r@)[j]) == pair_views(
                    out@,
                )[j],
        decreases out@.len() - i,
    {
        let ghost rv0 = crate::similarity::font_views(r@);
        r.push(out[i].0.duplicate());
        proof {
            assert(crate::similarity::font_views(r@) =~= rv0.push(pair_views(out@)[i as int]));
        }
        i += 1;
    }
    proof {
        assert(crate::similarity::font_views(r@) =~= pair_views(out@));
        assert forall|x: int, y: int|
            0 <= x <= y < r@.len() implies pop_of(
            svw,
            (#[trigger] crate::similarity::font_views(r@)[x]).family,
        ) >= pop_of(svw, (#[trigger] crate::similarity::font_views(r@)[y]).family) by {
            assert(out@[x].1 == pop_of(svw, out@[x].0@.family));
            assert(out@[y].1 == pop_of(svw, out@[y].0@.family));
            assert(crate::similarity::font_views(r@)[x] == out@[x].0@);
            assert(crate::similarity::font_views(r@)[y] == out@[y].0@);
        }
    }
    r
}

// ----- the simple fallback format ------------------------------------------

/// The magic that opens a simple-format database.
pub open spec fn magic_bytes() -> Seq<u8> {
    vstd::utf8::encode_utf8("FONTDBv1.0"@)
}

/// Lowercase with spaces turned into hyphens.
pub open spec fn sp2dash_lower(s: Seq<char>) -> Seq<char> {
    Seq::new(
        s.len(),
        |i: int|
            if s[i] == ' ' {
                '-'
            } else {
                crate::text::spec_lower_char(s[i])
            },
    )
}

pub open spec fn simple_cat(name: Seq<char>) -> FontCategory {
    let low = lower_seq(name);
    if contains_sub(low, "courier"@) || contains_sub(low, "console"@) {
        FontCategory::Monospace
    } else if contains_sub(low, "times"@) || contains_sub(low, "serif"@) {
        FontCategory::Serif
    } else {
        FontCategory::SansSerif
    }
}

/// The (name, weight, italic) triples read from the simple format:
/// one-byte name length, UTF-8 name, LE u16 weight, italic flag.
/// Reading stops at a short record; a name that is not UTF-8 is skipped.
pub open spec fn simple_entries(b: Seq<u8>, off: int, n: int) -> Seq<(Seq<char>, u16, bool)>
    decreases n,
{
    if n <= 0 || off < 0 || off >= b.len() {
        Seq::empty()
    } else {
        let nl = b[off] as int;
        if off + 1 + nl + 3 > b.len() {
            Seq::empty()
        } else {
            let nb = b.subrange(off + 1, off + 1 + nl);
            let rest = simple_entries(b, off + 1 + nl + 3, n - 1);
            if vstd::utf8::valid_utf8(nb) {
                seq![
                    (
                        vstd::utf8::decode_utf8(nb),
                        u16_of_bytes(b[off + 1 + nl], b[off + 2 + nl]),
                        b[off + 3 + nl] != 0,
                    ),
                ] + rest
            } else {
                rest
            }
        }
    }
}

/// The record built from one simple-format triple.
pub open spec fn simple_record(name: Seq<char>, weight: u16, italic: bool) -> CompressedFontDataV {
    CompressedFontDataV {
        family: name,
        postscript_name: sp2dash_lower(name),
        weight,
        italic,
        monospaced: false,
        metrics: None,
        license: CompressedLicenseV {
            name: "System Font"@,
            url: Seq::empty(),
            allows_embedding: true,
            allows_modification: false,
            requires_attribution: false,
            allows_commercial_use: true,
        },
        category: simple_cat(name),
        similar_fonts: Seq::empty(),
        download_urls: Seq::empty(),
        file_size_kb: 50,
        popularity: 50,
    }
}

pub open spec fn simple_records(es: Seq<(Seq<char>, u16, bool)>) -> Seq<CompressedFontDataV> {
    es.map_values(|e: (Seq<char>, u16, bool)| simple_record(e.0, e.1, e.2))
}

/// Does the blob open as a simple-format database with at least one face?
pub open spec fn simple_db_ok(b: Seq<u8>) -> bool {
    &&& b.len() >= 14
    &&& b.subrange(0, 10) == magic_bytes()
    &&& simple_entries(b, 14, u32_of_bytes(b[10], b[11], b[12], b[13]) as int).len() > 0
}

pub open spec fn simple_db_spec(b: Seq<u8>, created: Seq<char>) -> CompressedFontDatabaseV {
    let es = simple_entries(b, 14, u32_of_bytes(b[10], b[11], b[12], b[13]) as int);
    let recs = simple_records(es);
    CompressedFontDatabaseV {
        metadata: FontDatabaseMetadataV {
            version: "1.0.0-simple"@,
            font_count: recs.len() as usize,
            compressed_size_bytes: b.len() as usize,
            original_size_bytes: crate::cache::cap_usize(recs.len() * 51200int),
            created_at: created,
            categories: hist_spec(recs),
            include_full_data: false,
        },
        fonts: recs,
        similarity_matrix: None,
    }
}

fn simple_record_x(name: String, weight: u16, italic: bool) -> (r: CompressedFontData)
    ensures
        r@ == simple_record(name@, weight, italic),
{
    let chars = string_chars(&name);
    let mut ps: Vec<char> = Vec::new();
    let mut i: usize = 0;
    #[verifier::loop_isolation(false)]
    while i < chars.len()
        invariant
            i <= chars@.len(),
            ps@.len() == i,
            forall|j: int| 0 <= j < i ==> ps@[j] == sp2dash_lower(chars@)[j],
        decreases chars@.len() - i,
    {
        let c = chars[i];
        if c == ' ' {
            ps.push('-');
        } else {
            ps.push(crate::text::lower_char(c));
        }
        i += 1;
    }
    proof {
        assert(ps@ =~= sp2dash_lower(name@));
    }
    let cl = lower_vec(&chars);
    let category = if has_sub_lower(&cl, "courier") || has_sub_lower(&cl, "console") {
        FontCategory::Monospace
    } else if has_sub_lower(&cl, "times") || has_sub_lower(&cl, "serif") {
        FontCategory::Serif
    } else {
        FontCategory::SansSerif
    };
    let r = CompressedFontData {
        family: name,
        postscript_name: crate::text::chars_string(&ps),
        weight,
        italic,
        monospaced: false,
        metrics: None,
        license: CompressedLicense {
            name: "System Font".to_owned(),
            url: String::new(),
            allows_embedding: true,
            allows_modification: false,
            requires_attribution: false,
            allows_commercial_use: true,
        },
        category,
        similar_fonts: Vec::new(),
        download_urls: Vec::new(),
        file_size_kb: 50,
        popularity: 50,
    };
    proof {
        assert(r@.similar_fonts =~= Seq::<Seq<char>>::empty());
        assert(r@.download_urls =~= Seq::<(FontFormat, Seq<char>)>::empty());
        assert(r@.license.url =~= Seq::<char>::empty());
    }
    r
}

/// Probes for the simple fallback format and loads it.
#[verifier::loop_isolation(false)]
#[verifier::rlimit(60)]
pub fn try_load_simple_database(data: &Vec<u8>) -> (r: Option<CompressedFontDatabase>)
    ensures
        r is Some <==> simple_db_ok(data@),
        r matches Some(db) ==> exists|created: Seq<char>|
            db@ == #[trigger] simple_db_spec(data@, created),
{
    if data.len() < 14 {
        return None;
    }
    let magic = "FONTDBv1.0".as_bytes_vec();
    proof {
        reveal_strlit("FONTDBv1.0");
        broadcast use vstd::string::is_ascii_spec_bytes;

        assert("FONTDBv1.0"@.len() == 10);
        assert(magic@.len() == 10) by {
            assert(magic@ == magic_bytes());
            vstd::utf8::is_ascii_chars_encode_utf8("FONTDBv1.0"@);
        }
    }
    let mut k: usize = 0;
    while k < 10
        invariant
            data@.len() >= 14,
            magic@.len() == 10,
            magic@ == magic_bytes(),
            k <= 10,
            forall|j: int| 0 <= j < k ==> data@[j] == magic@[j],
        decreases 10 - k,
    {
        if data[k] != magic[k] {
            proof {
                assert(data@.subrange(0, 10)[k as int] != magic_bytes()[k as int]);
            }
            return None;
        }
        k += 1;
    }
    proof {
        assert(data@.subrange(0, 10) =~= magic_bytes());
    }
    let count = match dec_u32(data, 10) {
        Some((c, _)) => c,
        None => {
            return None;
        },
    };
    let ghost total = count as int;
    let mut recs: Vec<CompressedFontData> = Vec::new();
    let mut off: usize = 14;
    let mut i: u32 = 0;
    proof {
        assert(recs@.map_values(|f: CompressedFontData| f@) + simple_records(
            simple_entries(data@, 14, total),
        ) =~= simple_records(simple_entries(data@, 14, total)));
    }
    while i < count
        invariant
            simple_records(simple_entries(data@, 14, total)) == recs@.map_values(
                |f: CompressedFontData| f@,
            ) + simple_records(simple_entries(data@, off as int, total - i)),
            i <= count,
        decreases count - i,
    {
        if off >= data.len() {
            proof {
                assert(simple_entries(data@, off as int, total - i) =~= Seq::<
                    (Seq<char>, u16, bool),
                >::empty());
                assert(simple_records(Seq::<(Seq<char>, u16, bool)>::empty()) =~= Seq::<
                    CompressedFontDataV,
                >::empty());
            }
            break ;
        }
        let nl = data[off] as usize;
        if nl + 3 > data.len() - (off + 1) {
            proof {
                assert(simple_entries(data@, off as int, total - i) =~= Seq::<
                    (Seq<char>, u16, bool),
                >::empty());
                assert(simple_records(Seq::<(Seq<char>, u16, bool)>::empty()) =~= Seq::<
                    CompressedFontDataV,
                >::empty());
            }
            break ;
        }
        let mut namebytes: Vec<u8> = Vec::new();
        let mut j: usize = 0;
        while j < nl
            invariant
                off + 1 + nl + 3 <= data@.len(),
                j <= nl,
                namebytes@ == data@.subrange(off + 1, off + 1 + j as int),
            decreases nl - j,
        {
            namebytes.push(data[off + 1 + j]);
            proof {
                assert(data@.subrange(off + 1, off + 1 + (j + 1) as int) =~= data@.subrange(
                    off + 1,
                    off + 1 + j as int,
                ).push(data@[off + 1 + j]));
            }
            j += 1;
        }
        let ghost nb = data@.subrange(off + 1, off + 1 + nl as int);
        let weight = {
            let b0 = data[off + 1 + nl];
            let b1 = data[off + 2 + nl];
            u16_from(b0, b1)
        };
        let italic = data[off + 3 + nl] != 0;
        let ghost recs0 = recs@.map_values(|f: CompressedFontData| f@);
        match crate::outside::string_from_utf8(namebytes) {
            Some(name) => {
                recs.push(simple_record_x(name, weight, italic));
                proof {
                    assert(recs@.map_values(|f: CompressedFontData| f@) =~= recs0.push(
                        simple_record(vstd::utf8::decode_utf8(nb), weight, italic),
                    ));
                    assert(simple_records(simple_entries(data@, off as int, total - i)) =~= seq![
                        simple_record(vstd::utf8::decode_utf8(nb), weight, italic),
                    ] + simple_records(simple_entries(data@, off + 4 + nl as int, total - i - 1)));
                }
            },
            None => {
                proof {
                    assert(simple_records(simple_entries(data@, off as int, total - i))
                        =~= simple_records(
                        simple_entries(data@, off + 4 + nl as int, total - i - 1),
                    ));
                }
            },
        }
        off = off + 4 + nl;
        i += 1;
    }
    proof {
        if i == count {
            assert(simple_entries(data@, off as int, 0) =~= Seq::<(Seq<char>, u16, bool)>::empty());
            assert(simple_records(Seq::<(Seq<char>, u16, bool)>::empty()) =~= Seq::<
                CompressedFontDataV,
            >::empty());
        }
        assert(recs@.map_values(|f: CompressedFontData| f@) =~= simple_records(
            simple_entries(data@, 14, total),
        ));
    }
    if recs.len() == 0 {
        proof {
            assert(simple_records(simple_entries(data@, 14, total)).len() == 0);
        }
        return None;
    }
    let categories = categorize_fonts(&recs);
    let n = recs.len();
    let orig_wide: u128 = (n as u128) * 51200;
    let original_size: usize = if orig_wide > usize::MAX as u128 {
        usize::MAX
    } else {
        orig_wide as usize
    };
    let created_at = crate::outside::now_rfc3339();
    let metadata = FontDatabaseMetadata {
        version: "1.0.0-simple".to_owned(),
        font_count: n,
        compressed_size_bytes: data.len(),
        original_size_bytes: original_size,
        created_at,
        categories,
        include_full_data: false,
    };
    let db = CompressedFontDatabase { metadata, fonts: recs, similarity_matrix: None };
    proof {
        assert(db@ == simple_db_spec(data@, db.metadata.created_at@));
    }
    Some(db)
}

/// Estimated size sum of the faces from `i` on, in bytes.
pub open spec fn orig_size_spec(fs: Seq<FontDescriptorV>, i: int) -> int
    decreases fs.len() - i,
{
    if i < 0 || i >= fs.len() {
        0
    } else {
        estimate_file_size_spec(fs[i].weight, fs[i].variable) * 1024 + orig_size_spec(fs, i + 1)
    }
}

proof fn lemma_orig_size_bounds(fs: Seq<FontDescriptorV>, i: int)
    requires
        0 <= i <= fs.len(),
    ensures
        0 <= orig_size_spec(fs, i) <= (fs.len() - i) * 1024000,
    decreases fs.len() - i,
{
    if i < fs.len() {
        lemma_orig_size_bounds(fs, i + 1);
        assert(estimate_file_size_spec(fs[i].weight, fs[i].variable) <= 1000);
        assert((fs.len() - i) * 1024000 == (fs.len() - i - 1) * 1024000 + 1024000)
            by (nonlinear_arith);
    }
}

} // verus!
