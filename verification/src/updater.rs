//! Incremental database updates: checksum verification and the merge of
//! an update into the current database.  The download itself is network
//! I/O and runs in the embedding program.

use vstd::prelude::*;

use crate::compressor::{CompressedFontData, CompressedFontDataV, CompressedFontDatabase,
    FontDatabaseMetadata, hist_spec, categorize_fonts};
use crate::outside::{sha256, sha256_of};
use crate::text::{chars_string, eq_vec, string_chars, dec_seq};

verus! {

pub struct UpdateManifestV {
    pub version: Seq<char>,
    pub font_count: usize,
    pub total_size_bytes: usize,
    pub compressed_size_bytes: usize,
    pub created_at: Seq<char>,
    pub checksum: Seq<char>,
    pub incremental_from: Option<Seq<char>>,
    pub changes: UpdateChangesV,
}

/// What an update server advertises.
#[derive(Debug, Clone)]
pub struct UpdateManifest {
    pub version: String,
    pub font_count: usize,
    pub total_size_bytes: usize,
    pub compressed_size_bytes: usize,
    pub created_at: String,
    pub checksum: String,
    pub incremental_from: Option<String>,
    pub changes: UpdateChanges,
}

impl View for UpdateManifest {
    type V = UpdateManifestV;

    open spec fn view(&self) -> UpdateManifestV {
        UpdateManifestV {
            version: self.version@,
            font_count: self.font_count,
            total_size_bytes: self.total_size_bytes,
            compressed_size_bytes: self.compressed_size_bytes,
            created_at: self.created_at@,
            checksum: self.checksum@,
            incremental_from: match self.incremental_from {
                Some(s) => Some(s@),
                None => None,
            },
            changes: self.changes@,
        }
    }
}

pub struct UpdateChangesV {
    pub added_fonts: Seq<Seq<char>>,
    pub removed_fonts: Seq<Seq<char>>,
    pub updated_fonts: Seq<Seq<char>>,
    pub security_fixes: Seq<Seq<char>>,
}

#[derive(Debug, Clone)]
pub struct UpdateChanges {
    pub added_fonts: Vec<String>,
    pub removed_fonts: Vec<String>,
    pub updated_fonts: Vec<String>,
    pub security_fixes: Vec<String>,
}

impl View for UpdateChanges {
    type V = UpdateChangesV;

    open spec fn view(&self) -> UpdateChangesV {
        UpdateChangesV {
            added_fonts: self.added_fonts@.map_values(|s: String| s@),
            removed_fonts: self.removed_fonts@.map_values(|s: String| s@),
            updated_fonts: self.updated_fonts@.map_values(|s: String| s@),
            security_fixes: self.security_fixes@.map_values(|s: String| s@),
        }
    }
}

// ----- checksum -------------------------------------------------------------

/// The lowercase hex spelling of a byte sequence.
pub open spec fn hex_of(b: Seq<u8>, i: int) -> Seq<char>
    decreases b.len() - i,
{
    if i < 0 || i >= b.len() {
        Seq::empty()
    } else {
        seq![hex_digit((b[i] >> 4) as nat), hex_digit((b[i] & 0xf) as nat)] + hex_of(b, i + 1)
    }
}

pub open spec fn hex_digit(d: nat) -> char {
    if d < 10 {
        crate::text::digit_char(d)
    } else {
        (((d % 16) - 10 + 97) as u32) as char
    }
}

fn hex_digit_x(d: u8) -> (r: char)
    requires
        d < 16,
    ensures
        r == hex_digit(d as nat),
{
    if d < 10 {
        ((0x30 + d)) as char
    } else {
        ((87 + d)) as char
    }
}

/// Renders bytes as lowercase hex.
#[verifier::loop_isolation(false)]
pub fn to_hex(b: &Vec<u8>) -> (r: String)
    ensures
        r@ == hex_of(b@, 0),
{
    let mut out: Vec<char> = Vec::new();
    proof {
        assert(out@ + hex_of(b@, 0) =~= hex_of(b@, 0));
    }
    let mut i: usize = 0;
    while i < b.len()
        invariant
            i <= b@.len(),
            hex_of(b@, 0) == out@ + hex_of(b@, i as int),
        decreases b@.len() - i,
    {
        let hi = b[i] >> 4;
        let lo = b[i] & 0xf;
        proof {
            let bi = b@[i as int];
            assert(bi >> 4 < 16 && bi & 0xf < 16) by (bit_vector);
        }
        out.push(hex_digit_x(hi));
        out.push(hex_digit_x(lo));
        proof {
            assert(hex_of(b@, i as int) =~= seq![
                hex_digit((b@[i as int] >> 4) as nat),
                hex_digit((b@[i as int] & 0xf) as nat),
            ] + hex_of(b@, i + 1));
            assert(out@ + hex_of(b@, i + 1) =~= hex_of(b@, 0));
        }
        i += 1;
    }
    proof {
        assert(out@ =~= hex_of(b@, 0));
    }
    chars_string(&out)
}

/// The lowercase hex SHA-256 digest of the data.
pub fn calculate_checksum(data: &Vec<u8>) -> (r: String)
    ensures
        r@ == hex_of(sha256_of(data@), 0),
{
    let digest = sha256(data);
    to_hex(&digest)
}

/// Whether the downloaded bytes carry the advertised SHA-256 digest.
pub fn checksum_matches(data: &Vec<u8>, expected_hex: &String) -> (r: bool)
    ensures
        r == (hex_of(sha256_of(data@), 0) == expected_hex@),
{
    let actual = calculate_checksum(data);
    let av = string_chars(&actual);
    let ev = string_chars(expected_hex);
    eq_vec(&av, &ev)
}

// ----- merging --------------------------------------------------------------

pub open spec fn fam_index(fs: Seq<CompressedFontDataV>, fam: Seq<char>, i: int) -> int
    decreases fs.len() - i,
{
    if i < 0 || i >= fs.len() {
        -1
    } else if fs[i].family == fam {
        i
    } else {
        fam_index(fs, fam, i + 1)
    }
}

/// The merge of one update face: replace the same family in place, or
/// append.
pub open spec fn merge_step(cur: Seq<CompressedFontDataV>, f: CompressedFontDataV) -> Seq<
    CompressedFontDataV,
> {
    let k = fam_index(cur, f.family, 0);
    if k >= 0 {
        cur.update(k, f)
    } else {
        cur.push(f)
    }
}

pub open spec fn merge_all(cur: Seq<CompressedFontDataV>, upd: Seq<CompressedFontDataV>,
    i: int) -> Seq<CompressedFontDataV>
    decreases upd.len() - i,
{
    if i < 0 || i >= upd.len() {
        cur
    } else {
        merge_all(merge_step(cur, upd[i]), upd, i + 1)
    }
}

/// The families an update adds (no same-family face yet) and updates
/// (replacing one), in update order, tracking the evolving merge state.
pub open spec fn merge_report(cur: Seq<CompressedFontDataV>, upd: Seq<CompressedFontDataV>,
    i: int) -> (Seq<Seq<char>>, Seq<Seq<char>>)
    decreases upd.len() - i,
{
    if i < 0 || i >= upd.len() {
        (Seq::empty(), Seq::empty())
    } else {
        let hit = fam_index(cur, upd[i].family, 0) >= 0;
        let rest = merge_report(merge_step(cur, upd[i]), upd, i + 1);
        if hit {
            (rest.0, seq![upd[i].family] + rest.1)
        } else {
            (seq![upd[i].family] + rest.0, rest.1)
        }
    }
}

proof fn lemma_fam_chain(fs: Seq<CompressedFontDataV>, fam: Seq<char>, j: int, i: int)
    requires
        0 <= j <= i <= fs.len(),
        forall|k: int| j <= k < i ==> (#[trigger] fs[k]).family != fam,
        i < fs.len() ==> fs[i].family == fam,
    ensures
        i < fs.len() ==> fam_index(fs, fam, j) == i,
        i == fs.len() ==> fam_index(fs, fam, j) == -1,
    decreases i - j,
{
    if j < i {
        lemma_fam_chain(fs, fam, j + 1, i);
    }
}

/// Merges the update database into the current one: update faces replace
/// the same family and new families are appended.  The similarity matrix
/// is dropped, to be recomputed later.  The report names the added and
/// the updated families.
#[verifier::loop_isolation(false)]
pub fn merge_databases(current: &CompressedFontDatabase, update: &CompressedFontDatabase) -> (r: (
    CompressedFontDatabase,
    UpdateChanges,
))
    ensures
        r.0@.fonts == merge_all(
            current@.fonts,
            update@.fonts,
            0,
        ),
        r.0@.similarity_matrix is None,
        r.0@.metadata.version == update@.metadata.version,
        r.0@.metadata.font_count == r.0@.fonts.len(),
        r.0@.metadata.include_full_data == (current@.metadata.include_full_data
            || update@.metadata.include_full_data),
        r.0@.metadata.categories == hist_spec(r.0@.fonts),
        r.1@.added_fonts == merge_report(current@.fonts, update@.fonts, 0).0,
        r.1@.updated_fonts == merge_report(current@.fonts, update@.fonts, 0).1,
        r.1@.removed_fonts.len() == 0,
        r.1@.security_fixes.len() == 0,
{
    let mut merged: Vec<CompressedFontData> = Vec::new();
    let mut i: usize = 0;
    while i < current.fonts.len()
        invariant
            i <= current@.fonts.len(),
            merged@.map_values(|f: CompressedFontData| f@) == current@.fonts.subrange(0, i as int),
        decreases current@.fonts.len() - i,
    {
        let ghost m0 = merged@.map_values(|f: CompressedFontData| f@);
        merged.push(current.fonts[i].duplicate());
        proof {
            assert(merged@.map_values(|f: CompressedFontData| f@) =~= m0.push(
                current@.fonts[i as int],
            ));
            assert(merged@.map_values(|f: CompressedFontData| f@) =~= current@.fonts.subrange(
                0,
                i + 1,
            ));
        }
        i += 1;
    }
    proof {
        assert(current@.fonts.subrange(0, current@.fonts.len() as int) =~= current@.fonts);
    }
    let mut added: Vec<String> = Vec::new();
    let mut updated: Vec<String> = Vec::new();
    proof {
        assert(added@.map_values(|n: String| n@) =~= Seq::<Seq<char>>::empty());
        assert(updated@.map_values(|n: String| n@) =~= Seq::<Seq<char>>::empty());
    }
    let mut u: usize = 0;
    while u < update.fonts.len()
        invariant
            u <= update@.fonts.len(),
            merge_all(current@.fonts, update@.fonts, 0) == merge_all(
                merged@.map_values(|f: CompressedFontData| f@),
                update@.fonts,
                u as int,
            ),
            merge_report(current@.fonts, update@.fonts, 0).0 == added@.map_values(|n: String| n@)
                + merge_report(
                merged@.map_values(|f: CompressedFontData| f@),
                update@.fonts,
                u as int,
            ).0,
            merge_report(current@.fonts, update@.fonts, 0).1 == updated@.map_values(
                |n: String| n@,
            ) + merge_report(
                merged@.map_values(|f: CompressedFontData| f@),
                update@.fonts,
                u as int,
            ).1,
        decreases update@.fonts.len() - u,
    {
        let uf = &update.fonts[u];
        let ghost mv = merged@.map_values(|f: CompressedFontData| f@);
        let ufc = string_chars(&uf.family);
        let mut found: Option<usize> = None;
        let mut j: usize = 0;
        while j < merged.len()
            invariant
                j <= mv.len(),
                mv == merged@.map_values(|f: CompressedFontData| f@),
                found is None,
                forall|k: int| 0 <= k < j ==> (#[trigger] mv[k]).family != update@.fonts[
                    u as int].family,
            decreases mv.len() - j,
        {
            let mc = string_chars(&merged[j].family);
            if eq_vec(&mc, &ufc) {
                proof {
                    lemma_fam_chain(mv, update@.fonts[u as int].family, 0, j as int);
                }
                found = Some(j);
                break ;
            }
            j += 1;
        }
        match found {
            Some(k) => {
                let ghost m0 = merged@.map_values(|f: CompressedFontData| f@);
                let ghost up0 = updated@.map_values(|n: String| n@);
                let _ = merged.remove(k);
                merged.insert(k, uf.duplicate());
                updated.push(uf.family.clone());
                proof {
                    assert(merged@.map_values(|f: CompressedFontData| f@) =~= m0.update(
                        k as int,
                        update@.fonts[u as int],
                    ));
                    assert(merge_step(m0, update@.fonts[u as int]) == m0.update(
                        k as int,
                        update@.fonts[u as int],
                    ));
                    assert(updated@.map_values(|n: String| n@) =~= up0.push(
                        update@.fonts[u as int].family,
                    ));
                    assert(fam_index(m0, update@.fonts[u as int].family, 0) >= 0);
                    assert(updated@.map_values(|n: String| n@) + merge_report(
                        merge_step(m0, update@.fonts[u as int]),
                        update@.fonts,
                        u + 1,
                    ).1 =~= up0 + merge_report(m0, update@.fonts, u as int).1);
                }
            },
            None => {
                proof {
                    lemma_fam_chain(mv, update@.fonts[u as int].family, 0, mv.len() as int);
                }
                let ghost m0 = merged@.map_values(|f: CompressedFontData| f@);
                let ghost ad0 = added@.map_values(|n: String| n@);
                merged.push(uf.duplicate());
                added.push(uf.family.clone());
                proof {
                    assert(merged@.map_values(|f: CompressedFontData| f@) =~= m0.push(
                        update@.fonts[u as int],
                    ));
                    assert(merge_step(m0, update@.fonts[u as int]) == m0.push(
                        update@.fonts[u as int],
                    ));
                    assert(added@.map_values(|n: String| n@) =~= ad0.push(
                        update@.fonts[u as int].family,
                    ));
                    assert(fam_index(m0, update@.fonts[u as int].family, 0) == -1);
                    assert(added@.map_values(|n: String| n@) + merge_report(
                        merge_step(m0, update@.fonts[u as int]),
                        update@.fonts,
                        u + 1,
                    ).0 =~= ad0 + merge_report(m0, update@.fonts, u as int).0);
                }
            },
        }
        u += 1;
    }
    let categories = categorize_fonts(&merged);
    let n = merged.len();
    let orig_wide: u128 = (n as u128) * 51200;
    let original_size: usize = if orig_wide > usize::MAX as u128 {
        usize::MAX
    } else {
        orig_wide as usize
    };
    let created_at = crate::outside::now_rfc3339();
    let metadata = FontDatabaseMetadata {
        version: update.metadata.version.clone(),
        font_count: n,
        compressed_size_bytes: 0,
        original_size_bytes: original_size,
        created_at,
        categories,
        include_full_data: current.metadata.include_full_data
            || update.metadata.include_full_data,
    };
    let db = CompressedFontDatabase { metadata, fonts: merged, similarity_matrix: None };
    let changes = UpdateChanges {
        added_fonts: added,
        removed_fonts: Vec::new(),
        updated_fonts: updated,
        security_fixes: Vec::new(),
    };
    proof {
        assert(changes@.removed_fonts =~= Seq::<Seq<char>>::empty());
        assert(changes@.security_fixes =~= Seq::<Seq<char>>::empty());
    }
    (db, changes)
}

} // verus!
