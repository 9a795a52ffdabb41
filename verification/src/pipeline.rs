//! Stage routing of the generation pipeline and digests of stage outputs.

use vstd::prelude::*;
use vstd::string::StringSliceAdditionalSpecFns;
use crate::error::WorldgenError;
use crate::hex::{hash_hex, hex_chars};
use crate::seed::{is_ancestral_partition_request, is_ancestral_partition_spec};

verus! {

/// Generator that produces the modern tectonic model for a request.
#[derive(Clone, Copy, Debug, PartialEq, Eq)]
pub enum TectonicsSource {
    /// The raw plate partition generator, run directly on the request.
    RawPartition,
    /// The historical lithosphere, evolved through its epochs and projected
    /// onto the modern plates.
    HistoricalProjection,
}

/// Chooses how the modern tectonic model of a request with `seed` is made:
/// inside a raw-tectonics scope (`raw_scope_active`), or for a seed that
/// encodes the ancestral partition, the raw partition generator runs;
/// otherwise the historical lithosphere is generated and projected.
pub fn generate_tectonics(raw_scope_active: bool, seed: &str) -> (source: TectonicsSource)
    ensures
        source == (if raw_scope_active || is_ancestral_partition_spec(seed.spec_bytes()) {
            TectonicsSource::RawPartition
        } else {
            TectonicsSource::HistoricalProjection
        }),
{
    if raw_scope_active || is_ancestral_partition_request(seed) {
        TectonicsSource::RawPartition
    } else {
        TectonicsSource::HistoricalProjection
    }
}

/// Lithosphere stage output, as far as its digests are concerned.
#[derive(Clone, Copy, Debug, PartialEq, Eq)]
pub struct LithosphericModel {
    /// Digest of the tectonic orogen provinces.
    pub orogen_province_hash: u64,
}

impl LithosphericModel {
    /// The orogen province digest as sixteen lowercase hex digits.
    pub fn orogen_province_hash_hex(&self) -> (text: String)
        ensures
            text@ == hex_chars(self.orogen_province_hash as nat, 16),
    {
        hash_hex(self.orogen_province_hash)
    }
}

/// Whether `c` has the Unicode `White_Space` property (PropList.txt): the
/// controls U+0009 to U+000D, the space U+0020, U+0085, the no-break space
/// U+00A0, U+1680, the spaces U+2000 to U+200A, the line and paragraph
/// separators U+2028 and U+2029, U+202F, U+205F and the ideographic space
/// U+3000.
pub open spec fn unicode_white_space(c: char) -> bool {
    let u = c as u32;
    ||| 0x9 <= u <= 0xd
    ||| u == 0x20
    ||| u == 0x85
    ||| u == 0xa0
    ||| u == 0x1680
    ||| 0x2000 <= u <= 0x200a
    ||| u == 0x2028
    ||| u == 0x2029
    ||| u == 0x202f
    ||| u == 0x205f
    ||| u == 0x3000
}

/// `char::is_whitespace`: true exactly for the characters with the Unicode
/// `White_Space` property, listed in `unicode_white_space`.
#[verifier::external_body]
fn char_is_whitespace(c: char) -> (white: bool)
    ensures
        white == unicode_white_space(c),
{
    c.is_whitespace()
}

/// A seed is blank when it is empty or all its characters are white space,
/// that is when trimming its white space leaves nothing.
pub open spec fn seed_blank(seed: Seq<char>) -> bool {
    forall|i: int| 0 <= i < seed.len() ==> unicode_white_space(#[trigger] seed[i])
}

/// Whether a seed is blank (empty once its white space is trimmed).
pub fn seed_is_blank(seed: &str) -> (blank: bool)
    ensures
        blank == seed_blank(seed@),
{
    broadcast use vstd::string::axiom_spec_iter;
    for c in it: seed.chars()
        invariant
            it.seq() == seed@,
            forall|j: int| 0 <= j < it.index() ==> unicode_white_space(#[trigger] seed@[j]),
    {
        if !char_is_whitespace(c) {
            return false;
        }
    }
    true
}

/// The crust stage refuses a blank seed.
pub fn validate_geology_seed(seed: &str) -> (result: Result<(), WorldgenError>)
    ensures
        result == if seed_blank(seed@) {
            Err::<(), WorldgenError>(WorldgenError::InvalidGeology("geology seed must not be empty"))
        } else {
            Ok(())
        },
{
    if seed_is_blank(seed) {
        Err(WorldgenError::InvalidGeology("geology seed must not be empty"))
    } else {
        Ok(())
    }
}

/// The lithosphere stage refuses a blank seed.
pub fn validate_lithosphere_seed(seed: &str) -> (result: Result<(), WorldgenError>)
    ensures
        result == if seed_blank(seed@) {
            Err::<(), WorldgenError>(WorldgenError::InvalidLithosphere("lithosphere seed must not be empty"))
        } else {
            Ok(())
        },
{
    if seed_is_blank(seed) {
        Err(WorldgenError::InvalidLithosphere("lithosphere seed must not be empty"))
    } else {
        Ok(())
    }
}

/// Whether two `u16` rasters are equal.
fn same_u16s(a: &Vec<u16>, b: &Vec<u16>) -> (same: bool)
    ensures
        same == (a@ == b@),
{
    if a.len() != b.len() {
        return false;
    }
    let mut i: usize = 0;
    while i < a.len()
        invariant
            a@.len() == b@.len(),
            i <= a@.len(),
            forall|j: int| 0 <= j < i ==> #[trigger] a@[j] == b@[j],
        decreases a@.len() - i,
    {
        if a[i] != b[i] {
            return false;
        }
        i = i + 1;
    }
    proof {
        assert(a@ =~= b@);
    }
    true
}

/// Whether two `u8` rasters are equal.
fn same_u8s(a: &Vec<u8>, b: &Vec<u8>) -> (same: bool)
    ensures
        same == (a@ == b@),
{
    if a.len() != b.len() {
        return false;
    }
    let mut i: usize = 0;
    while i < a.len()
        invariant
            a@.len() == b@.len(),
            i <= a@.len(),
            forall|j: int| 0 <= j < i ==> #[trigger] a@[j] == b@[j],
        decreases a@.len() - i,
    {
        if a[i] != b[i] {
            return false;
        }
        i = i + 1;
    }
    proof {
        assert(a@ =~= b@);
    }
    true
}

/// The crust stage accepts the supplied modern tectonics only when the
/// tectonics projected from the material history has the same digest and
/// the same per-sample plate ids.
pub fn check_crust_tectonic_ancestry(
    projected_tectonic_hash: u64,
    projected_plate_ids: &Vec<u16>,
    supplied_tectonic_hash: u64,
    supplied_plate_ids: &Vec<u16>,
) -> (result: Result<(), WorldgenError>)
    ensures
        result == if projected_tectonic_hash == supplied_tectonic_hash && projected_plate_ids@
            == supplied_plate_ids@ {
            Ok::<(), WorldgenError>(())
        } else {
            Err(WorldgenError::InvalidGeology("WG-3 historical material does not match supplied modern tectonic ancestry"))
        },
{
    if projected_tectonic_hash != supplied_tectonic_hash || !same_u16s(projected_plate_ids, supplied_plate_ids) {
        return Err(
            WorldgenError::InvalidGeology("WG-3 historical material does not match supplied modern tectonic ancestry"),
        );
    }
    Ok(())
}

/// The lithosphere stage accepts the supplied modern tectonics only when the
/// tectonics projected from the material history has the same digest and
/// the same per-sample plate ids.
pub fn check_lithosphere_tectonic_ancestry(
    projected_tectonic_hash: u64,
    projected_plate_ids: &Vec<u16>,
    supplied_tectonic_hash: u64,
    supplied_plate_ids: &Vec<u16>,
) -> (result: Result<(), WorldgenError>)
    ensures
        result == if projected_tectonic_hash == supplied_tectonic_hash && projected_plate_ids@
            == supplied_plate_ids@ {
            Ok::<(), WorldgenError>(())
        } else {
            Err(
                WorldgenError::InvalidLithosphere(
                    "WG-3.5 historical material does not match supplied modern tectonic ancestry",
                ),
            )
        },
{
    if projected_tectonic_hash != supplied_tectonic_hash || !same_u16s(projected_plate_ids, supplied_plate_ids) {
        return Err(
            WorldgenError::InvalidLithosphere(
                "WG-3.5 historical material does not match supplied modern tectonic ancestry",
            ),
        );
    }
    Ok(())
}

/// The lithosphere stage accepts the supplied crust only when the crust
/// projected from the material history has the same digest, crust kinds and
/// crust provinces.
pub fn check_lithosphere_crust_projection(
    projected_geology_hash: u64,
    projected_crust_kind: &Vec<u8>,
    projected_province_ids: &Vec<u16>,
    supplied_geology_hash: u64,
    supplied_crust_kind: &Vec<u8>,
    supplied_province_ids: &Vec<u16>,
) -> (result: Result<(), WorldgenError>)
    ensures
        result == if projected_geology_hash == supplied_geology_hash && projected_crust_kind@ == supplied_crust_kind@
            && projected_province_ids@ == supplied_province_ids@ {
            Ok::<(), WorldgenError>(())
        } else {
            Err(
                WorldgenError::InvalidLithosphere(
                    "WG-3.5 historical material does not match supplied WG-3 crust projection",
                ),
            )
        },
{
    if projected_geology_hash != supplied_geology_hash || !same_u8s(projected_crust_kind, supplied_crust_kind)
        || !same_u16s(projected_province_ids, supplied_province_ids) {
        return Err(
            WorldgenError::InvalidLithosphere("WG-3.5 historical material does not match supplied WG-3 crust projection"),
        );
    }
    Ok(())
}

} // verus!
