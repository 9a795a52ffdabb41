//! Plate bookkeeping of the forward plate evolution: removal of plates that
//! no longer own any sample, with dense renumbering of the survivors.

use vstd::prelude::*;
use crate::error::WorldgenError;
use crate::graph::count_true;

verus! {

/// Plate `p` owns at least one sample.
pub open spec fn plate_active(owners: Seq<u16>, p: int) -> bool {
    exists|i: int| 0 <= i < owners.len() && owners[i] == p
}

/// Which of the `plate_count` plates own at least one sample.
pub open spec fn active_plates(owners: Seq<u16>, plate_count: nat) -> Seq<bool> {
    Seq::new(plate_count, |p: int| plate_active(owners, p))
}

/// The entries of `values` whose plate is marked in `keep`, in order.
pub open spec fn kept_entries<V>(values: Seq<V>, keep: Seq<bool>) -> Seq<V>
    decreases values.len(),
{
    if values.len() == 0 {
        Seq::empty()
    } else {
        let rest = kept_entries(values.drop_last(), keep);
        if keep[values.len() - 1] {
            rest.push(values.last())
        } else {
            rest
        }
    }
}

proof fn lemma_kept_entries_len<V>(values: Seq<V>, keep: Seq<bool>)
    requires
        keep.len() == values.len(),
    ensures
        kept_entries(values, keep).len() == count_true(keep),
    decreases values.len(),
{
    if values.len() > 0 {
        lemma_kept_entries_len(values.drop_last(), keep.drop_last());
        lemma_kept_entries_prefix(values.drop_last(), keep, keep.drop_last());
    }
}

proof fn lemma_kept_entries_prefix<V>(values: Seq<V>, keep: Seq<bool>, other: Seq<bool>)
    requires
        values.len() <= keep.len(),
        values.len() <= other.len(),
        forall|i: int| 0 <= i < values.len() ==> keep[i] == other[i],
    ensures
        kept_entries(values, keep) == kept_entries(values, other),
    decreases values.len(),
{
    if values.len() > 0 {
        lemma_kept_entries_prefix(values.drop_last(), keep, other);
    }
}

proof fn lemma_count_true_all(s: Seq<bool>)
    requires
        forall|i: int| 0 <= i < s.len() ==> s[i],
    ensures
        count_true(s) == s.len(),
    decreases s.len(),
{
    if s.len() > 0 {
        lemma_count_true_all(s.drop_last());
    }
}

proof fn lemma_kept_entries_all<V>(values: Seq<V>, keep: Seq<bool>)
    requires
        values.len() <= keep.len(),
        forall|i: int| 0 <= i < keep.len() ==> keep[i],
    ensures
        kept_entries(values, keep) == values,
    decreases values.len(),
{
    if values.len() > 0 {
        lemma_kept_entries_all(values.drop_last(), keep);
        assert(values.drop_last().push(values.last()) =~= values);
    }
}

/// Removes the plates that own no sample: the surviving plates keep their
/// order and are renumbered densely, every owner id is renumbered with them
/// (ids outside the plate list are left as they are), and the number of
/// removed plates is returned. Nothing changes when every plate owns a sample.
pub fn compact_extinct_plates<V: Copy>(owners: &mut Vec<u16>, velocities: &mut Vec<V>) -> (removed: usize)
    requires
        (exists|p: int| 0 <= p < old(velocities)@.len() && !plate_active(old(owners)@, p)) ==> forall|i: int|
            0 <= i < old(owners)@.len() ==> (#[trigger] old(owners)@[i]) < old(velocities)@.len(),
    ensures
        final(velocities)@ == kept_entries(
            old(velocities)@,
            active_plates(old(owners)@, old(velocities)@.len()),
        ),
        final(velocities)@.len() == count_true(active_plates(old(owners)@, old(velocities)@.len())),
        removed == old(velocities)@.len() - final(velocities)@.len(),
        final(owners)@.len() == old(owners)@.len(),
        forall|i: int|
            0 <= i < old(owners)@.len() ==> #[trigger] final(owners)@[i] == if old(owners)@[i] < old(velocities)@.len() {
                count_true(active_plates(old(owners)@, old(velocities)@.len()).take(old(owners)@[i] as int)) as int
            } else {
                old(owners)@[i] as int
            },
{
    let ghost o0 = owners@;
    let ghost v0 = velocities@;
    let plate_count = velocities.len();
    let ghost mask = active_plates(o0, plate_count as nat);
    let mut active: Vec<bool> = vec![false; plate_count];
    let mut i: usize = 0;
    while i < owners.len()
        invariant
            owners@ == o0,
            velocities@ == v0,
            plate_count == v0.len(),
            i <= o0.len(),
            active@.len() == plate_count,
            forall|p: int|
                0 <= p < plate_count ==> #[trigger] active@[p] == exists|j: int| 0 <= j < i && o0[j] == p,
        decreases o0.len() - i,
    {
        let index = owners[i] as usize;
        if index < plate_count {
            active.set(index, true);
        }
        proof {
            assert forall|p: int| 0 <= p < plate_count implies #[trigger] active@[p] == exists|j: int|
                0 <= j < i + 1 && o0[j] == p by {
                if active@[p] && p != index {
                    let j = choose|j: int| 0 <= j < i && o0[j] == p;
                    assert(0 <= j < i + 1 && o0[j] == p);
                }
                if p == index {
                    assert(o0[i as int] == p);
                }
            }
        }
        i = i + 1;
    }
    proof {
        assert(active@ =~= mask);
    }
    let mut all_active = true;
    let mut p: usize = 0;
    while p < plate_count
        invariant
            plate_count == active@.len(),
            p <= plate_count,
            all_active <==> forall|q: int| 0 <= q < p ==> active@[q],
        decreases plate_count - p,
    {
        if !active[p] {
            all_active = false;
        }
        p = p + 1;
    }
    if all_active {
        proof {
            lemma_count_true_all(mask);
            lemma_kept_entries_all(v0, mask);
            assert forall|q: int| 0 <= q <= plate_count implies #[trigger] count_true(mask.take(q)) == q by {
                lemma_count_true_all(mask.take(q));
            }
        }
        return 0;
    }
    let mut remap: Vec<u16> = vec![0xffffu16; plate_count];
    let mut compact: Vec<V> = Vec::new();
    let mut q: usize = 0;
    while q < plate_count
        invariant
            owners@ == o0,
            velocities@ == v0,
            plate_count == v0.len(),
            active@ == mask,
            mask == active_plates(o0, plate_count as nat),
            mask.len() == plate_count,
            q <= plate_count,
            remap@.len() == plate_count,
            compact@ == kept_entries(v0.take(q as int), mask),
            compact@.len() == count_true(mask.take(q as int)),
            compact@.len() <= q,
            forall|r: int| 0 <= r < q && mask[r] ==> #[trigger] remap@[r] == count_true(mask.take(r)),
        decreases plate_count - q,
    {
        proof {
            assert(mask.take(q + 1).drop_last() =~= mask.take(q as int));
            assert(v0.take(q + 1).drop_last() =~= v0.take(q as int));
            lemma_kept_entries_prefix(v0.take(q as int), mask, mask);
        }
        if active[q] {
            proof {
                // an active plate is some owner's id, so it fits in u16
                let j = choose|j: int| 0 <= j < o0.len() && o0[j] == q;
                assert(o0[j] == q);
            }
            remap.set(q, compact.len() as u16);
            compact.push(velocities[q]);
        }
        q = q + 1;
    }
    proof {
        assert(v0.take(plate_count as int) =~= v0);
        assert(mask.take(plate_count as int) =~= mask);
        lemma_kept_entries_len(v0, mask);
    }
    let mut k: usize = 0;
    while k < owners.len()
        invariant
            plate_count == v0.len(),
            active@ == mask,
            mask == active_plates(o0, plate_count as nat),
            mask.len() == plate_count,
            remap@.len() == plate_count,
            owners@.len() == o0.len(),
            k <= o0.len(),
            forall|j: int| 0 <= j < o0.len() ==> (#[trigger] o0[j]) < plate_count,
            forall|r: int| 0 <= r < plate_count && mask[r] ==> #[trigger] remap@[r] == count_true(mask.take(r)),
            forall|j: int| k <= j < o0.len() ==> #[trigger] owners@[j] == o0[j],
            forall|j: int|
                0 <= j < k ==> #[trigger] owners@[j] == count_true(mask.take(o0[j] as int)),
        decreases o0.len() - k,
    {
        let owner = owners[k];
        proof {
            assert(mask[owner as int]) by {
                assert(o0[k as int] == owner);
            }
        }
        owners.set(k, remap[owner as usize]);
        k = k + 1;
    }
    let removed = plate_count - compact.len();
    *velocities = compact;
    removed
}

/// After removing extinct plates, two samples share a plate exactly when they
/// shared one before, and every surviving plate id stays below the plate count.
pub proof fn lemma_compaction_keeps_ownership(owners: Seq<u16>, plate_count: nat, i: int, j: int)
    requires
        0 <= i < owners.len(),
        0 <= j < owners.len(),
        owners[i] < plate_count,
        owners[j] < plate_count,
    ensures
        count_true(active_plates(owners, plate_count).take(owners[i] as int)) == count_true(
            active_plates(owners, plate_count).take(owners[j] as int),
        ) <==> owners[i] == owners[j],
        count_true(active_plates(owners, plate_count).take(owners[i] as int)) < count_true(
            active_plates(owners, plate_count),
        ),
{
    let mask = active_plates(owners, plate_count);
    let a = owners[i] as int;
    let b = owners[j] as int;
    assert(plate_active(owners, a));
    assert(plate_active(owners, b));
    assert(mask[a]);
    assert(mask[b]);
    crate::drainage::lemma_count_true_take_mono(mask, a, plate_count as int);
    assert(mask.take(plate_count as int) =~= mask);
    if a < b {
        crate::drainage::lemma_count_true_take_mono(mask, a, b);
    } else if b < a {
        crate::drainage::lemma_count_true_take_mono(mask, b, a);
    }
}

/// Shape of the per-sample rasters and plate motions left by the forward
/// evolution, with the verdicts of the floating-point range checks.
#[derive(Clone, Copy, Debug, PartialEq, Eq)]
pub struct ForwardRasterShape {
    pub crust_kind_len: usize,
    pub crust_birth_age_len: usize,
    pub weakness_len: usize,
    /// Every weakness value is finite and within `0..=1`.
    pub weakness_in_unit_interval: bool,
    pub plate_velocity_count: usize,
    /// Every angular velocity component is finite.
    pub velocities_finite: bool,
}

/// Ownership record of a fragment: its ancestral and current plate.
#[derive(Clone, Copy, Debug, PartialEq, Eq)]
pub struct FragmentOwnership {
    pub origin_plate_id: u16,
    pub current_plate_id: u16,
}

/// Every raster has one entry per sample, the values passed their range
/// checks, and there is one motion per modern plate.
pub open spec fn forward_rasters_complete(
    sample_count: nat,
    origin_plate_ids: Seq<u16>,
    fragment_ids: Seq<u16>,
    current_plate_ids: Seq<u16>,
    shape: ForwardRasterShape,
    modern_plate_count: nat,
) -> bool {
    &&& origin_plate_ids.len() == sample_count
    &&& fragment_ids.len() == sample_count
    &&& current_plate_ids.len() == sample_count
    &&& shape.crust_kind_len == sample_count
    &&& shape.crust_birth_age_len == sample_count
    &&& shape.weakness_len == sample_count
    &&& shape.weakness_in_unit_interval
    &&& shape.plate_velocity_count == modern_plate_count
    &&& shape.velocities_finite
}

/// Sample `k` names a modern plate, an ancestral plate and a fragment that exist.
pub open spec fn forward_ids_valid(
    k: int,
    origin_plate_ids: Seq<u16>,
    fragment_ids: Seq<u16>,
    current_plate_ids: Seq<u16>,
    fragments: Seq<FragmentOwnership>,
    ancestral_plate_count: nat,
    modern_plate_count: nat,
) -> bool {
    &&& current_plate_ids[k] < modern_plate_count
    &&& origin_plate_ids[k] < ancestral_plate_count
    &&& fragment_ids[k] < fragments.len()
}

/// Sample `k` agrees with its fragment on both plates.
pub open spec fn forward_ownership_consistent(
    k: int,
    origin_plate_ids: Seq<u16>,
    fragment_ids: Seq<u16>,
    current_plate_ids: Seq<u16>,
    fragments: Seq<FragmentOwnership>,
) -> bool {
    &&& fragments[fragment_ids[k] as int].origin_plate_id == origin_plate_ids[k]
    &&& fragments[fragment_ids[k] as int].current_plate_id == current_plate_ids[k]
}

/// Sample `k` passes both per-sample checks.
pub open spec fn forward_sample_ok(
    k: int,
    origin_plate_ids: Seq<u16>,
    fragment_ids: Seq<u16>,
    current_plate_ids: Seq<u16>,
    fragments: Seq<FragmentOwnership>,
    ancestral_plate_count: nat,
    modern_plate_count: nat,
) -> bool {
    &&& forward_ids_valid(
        k,
        origin_plate_ids,
        fragment_ids,
        current_plate_ids,
        fragments,
        ancestral_plate_count,
        modern_plate_count,
    )
    &&& forward_ownership_consistent(k, origin_plate_ids, fragment_ids, current_plate_ids, fragments)
}

/// Error reported for a sample that fails a per-sample check.
pub open spec fn forward_sample_error(
    k: int,
    origin_plate_ids: Seq<u16>,
    fragment_ids: Seq<u16>,
    current_plate_ids: Seq<u16>,
    fragments: Seq<FragmentOwnership>,
    ancestral_plate_count: nat,
    modern_plate_count: nat,
) -> WorldgenError {
    if !forward_ids_valid(
        k,
        origin_plate_ids,
        fragment_ids,
        current_plate_ids,
        fragments,
        ancestral_plate_count,
        modern_plate_count,
    ) {
        WorldgenError::InvalidTectonics("forward plate evolution produced an invalid material/owner id")
    } else {
        WorldgenError::InvalidLithosphere("forward plate evolution lost fragment/material ownership consistency")
    }
}

/// Checks the material state left by the forward plate evolution: complete
/// rasters first, then each sample in order (ids, then agreement with its
/// fragment), then that every modern plate still owns a sample.
pub fn validate_forward_state(
    sample_count: u32,
    origin_plate_ids: &Vec<u16>,
    fragment_ids: &Vec<u16>,
    current_plate_ids: &Vec<u16>,
    shape: ForwardRasterShape,
    fragments: &Vec<FragmentOwnership>,
    ancestral_plate_count: usize,
    modern_plate_count: u16,
) -> (result: Result<(), WorldgenError>)
    ensures
        ({
            let complete = forward_rasters_complete(
                sample_count as nat,
                origin_plate_ids@,
                fragment_ids@,
                current_plate_ids@,
                shape,
                modern_plate_count as nat,
            );
            let all_ok = forall|k: int|
                0 <= k < sample_count ==> #[trigger] forward_sample_ok(
                    k,
                    origin_plate_ids@,
                    fragment_ids@,
                    current_plate_ids@,
                    fragments@,
                    ancestral_plate_count as nat,
                    modern_plate_count as nat,
                );
            let all_owned = forall|p: int| 0 <= p < modern_plate_count ==> #[trigger] plate_active(current_plate_ids@, p);
            &&& !complete ==> result == Err::<(), WorldgenError>(
                WorldgenError::InvalidTectonics("forward plate evolution produced incomplete material rasters"),
            )
            &&& complete ==> (result is Ok <==> all_ok && all_owned)
            &&& result is Ok ==> forall|k: int|
                #![trigger fragment_ids@[k]]
                0 <= k < sample_count ==> {
                    &&& current_plate_ids@[k] < modern_plate_count
                    &&& origin_plate_ids@[k] < ancestral_plate_count
                    &&& fragment_ids@[k] < fragments@.len()
                    &&& fragments@[fragment_ids@[k] as int].origin_plate_id == origin_plate_ids@[k]
                    &&& fragments@[fragment_ids@[k] as int].current_plate_id == current_plate_ids@[k]
                }
            &&& complete && !all_ok ==> exists|k: int|
                0 <= k < sample_count && !forward_sample_ok(
                    k,
                    origin_plate_ids@,
                    fragment_ids@,
                    current_plate_ids@,
                    fragments@,
                    ancestral_plate_count as nat,
                    modern_plate_count as nat,
                ) && (forall|j: int|
                    0 <= j < k ==> #[trigger] forward_sample_ok(
                        j,
                        origin_plate_ids@,
                        fragment_ids@,
                        current_plate_ids@,
                        fragments@,
                        ancestral_plate_count as nat,
                        modern_plate_count as nat,
                    )) && result == Err::<(), WorldgenError>(
                    forward_sample_error(
                        k,
                        origin_plate_ids@,
                        fragment_ids@,
                        current_plate_ids@,
                        fragments@,
                        ancestral_plate_count as nat,
                        modern_plate_count as nat,
                    ),
                )
            &&& complete && all_ok && !all_owned ==> result == Err::<(), WorldgenError>(
                WorldgenError::InvalidTectonics("forward plate evolution retained an empty plate id after compaction"),
            )
        }),
{
    let count = sample_count as usize;
    if origin_plate_ids.len() != count || fragment_ids.len() != count || current_plate_ids.len() != count
        || shape.crust_kind_len != count || shape.crust_birth_age_len != count || shape.weakness_len != count
        || !shape.weakness_in_unit_interval || shape.plate_velocity_count != modern_plate_count as usize
        || !shape.velocities_finite {
        return Err(WorldgenError::InvalidTectonics("forward plate evolution produced incomplete material rasters"));
    }
    let plate_count = modern_plate_count as usize;
    let mut owned: Vec<bool> = vec![false; plate_count];
    let mut k: usize = 0;
    while k < count
        invariant
            forward_rasters_complete(
                sample_count as nat,
                origin_plate_ids@,
                fragment_ids@,
                current_plate_ids@,
                shape,
                modern_plate_count as nat,
            ),
            count == sample_count,
            origin_plate_ids@.len() == count,
            fragment_ids@.len() == count,
            current_plate_ids@.len() == count,
            plate_count == modern_plate_count,
            owned@.len() == plate_count,
            k <= count,
            forall|j: int|
                0 <= j < k ==> #[trigger] forward_sample_ok(
                    j,
                    origin_plate_ids@,
                    fragment_ids@,
                    current_plate_ids@,
                    fragments@,
                    ancestral_plate_count as nat,
                    modern_plate_count as nat,
                ),
            forall|p: int|
                0 <= p < plate_count ==> #[trigger] owned@[p] == exists|j: int| 0 <= j < k && current_plate_ids@[j] == p,
        decreases count - k,
    {
        let owner = current_plate_ids[k] as usize;
        let origin = origin_plate_ids[k] as usize;
        let fragment = fragment_ids[k] as usize;
        if owner >= plate_count || origin >= ancestral_plate_count || fragment >= fragments.len() {
            proof {
                assert(!forward_sample_ok(
                    k as int,
                    origin_plate_ids@,
                    fragment_ids@,
                    current_plate_ids@,
                    fragments@,
                    ancestral_plate_count as nat,
                    modern_plate_count as nat,
                ));
            }
            return Err(WorldgenError::InvalidTectonics("forward plate evolution produced an invalid material/owner id"));
        }
        owned.set(owner, true);
        if fragments[fragment].origin_plate_id as usize != origin || fragments[fragment].current_plate_id as usize
            != owner {
            proof {
                assert(!forward_sample_ok(
                    k as int,
                    origin_plate_ids@,
                    fragment_ids@,
                    current_plate_ids@,
                    fragments@,
                    ancestral_plate_count as nat,
                    modern_plate_count as nat,
                ));
            }
            return Err(
                WorldgenError::InvalidLithosphere("forward plate evolution lost fragment/material ownership consistency"),
            );
        }
        proof {
            assert(forward_sample_ok(
                k as int,
                origin_plate_ids@,
                fragment_ids@,
                current_plate_ids@,
                fragments@,
                ancestral_plate_count as nat,
                modern_plate_count as nat,
            ));
            assert forall|p: int| 0 <= p < plate_count implies #[trigger] owned@[p] == exists|j: int|
                0 <= j < k + 1 && current_plate_ids@[j] == p by {
                if owned@[p] && p != owner {
                    let j = choose|j: int| 0 <= j < k && current_plate_ids@[j] == p;
                    assert(0 <= j < k + 1 && current_plate_ids@[j] == p);
                }
                if p == owner {
                    assert(current_plate_ids@[k as int] == p);
                }
            }
        }
        k = k + 1;
    }
    let mut p: usize = 0;
    while p < plate_count
        invariant
            forward_rasters_complete(
                sample_count as nat,
                origin_plate_ids@,
                fragment_ids@,
                current_plate_ids@,
                shape,
                modern_plate_count as nat,
            ),
            count == sample_count,
            current_plate_ids@.len() == count,
            k == count,
            plate_count == modern_plate_count,
            owned@.len() == plate_count,
            p <= plate_count,
            forall|j: int|
                0 <= j < k ==> #[trigger] forward_sample_ok(
                    j,
                    origin_plate_ids@,
                    fragment_ids@,
                    current_plate_ids@,
                    fragments@,
                    ancestral_plate_count as nat,
                    modern_plate_count as nat,
                ),
            forall|q: int|
                0 <= q < plate_count ==> #[trigger] owned@[q] == exists|j: int| 0 <= j < k && current_plate_ids@[j] == q,
            forall|q: int| 0 <= q < p ==> #[trigger] plate_active(current_plate_ids@, q),
        decreases plate_count - p,
    {
        if !owned[p] {
            proof {
                assert(!plate_active(current_plate_ids@, p as int));
            }
            return Err(
                WorldgenError::InvalidTectonics("forward plate evolution retained an empty plate id after compaction"),
            );
        }
        proof {
            assert(owned@[p as int]);
        }
        p = p + 1;
    }
    proof {
        assert forall|j: int|
            #![trigger fragment_ids@[j]]
            #![trigger current_plate_ids@[j]]
            #![trigger origin_plate_ids@[j]]
            0 <= j < sample_count implies {
            &&& current_plate_ids@[j] < modern_plate_count
            &&& origin_plate_ids@[j] < ancestral_plate_count
            &&& fragment_ids@[j] < fragments@.len()
            &&& fragments@[fragment_ids@[j] as int].origin_plate_id == origin_plate_ids@[j]
            &&& fragments@[fragment_ids@[j] as int].current_plate_id == current_plate_ids@[j]
        } by {
            assert(forward_sample_ok(
                j,
                origin_plate_ids@,
                fragment_ids@,
                current_plate_ids@,
                fragments@,
                ancestral_plate_count as nat,
                modern_plate_count as nat,
            ));
        }
    }
    Ok(())
}

} // verus!
