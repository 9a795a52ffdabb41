//! Connectivity of rigid plates after advection: the detached pieces of a
//! plate are ranked by size, and each piece but the largest either accretes
//! onto a neighbor or becomes a microplate.

use vstd::prelude::*;

verus! {

/// Smallest detached piece that can survive as a microplate.
pub const MIN_MICROPLATE_SAMPLES: usize = 16;

/// Piece `a` ranks before piece `b`: it is larger, or as large with a
/// smaller label (that is, a smaller first sample).
pub open spec fn ranks_before(sizes: Seq<u32>, a: int, b: int) -> bool {
    sizes[a] > sizes[b] || (sizes[a] == sizes[b] && a < b)
}

/// Orders the pieces of a plate from the largest down, ties by label.
pub fn pieces_by_size(sizes: &Vec<u32>) -> (order: Vec<u32>)
    requires
        sizes@.len() <= u32::MAX,
    ensures
        order@.len() == sizes@.len(),
        forall|i: int| 0 <= i < order@.len() ==> #[trigger] order@[i] < sizes@.len(),
        forall|i: int, j: int|
            0 <= i < j < order@.len() ==> ranks_before(sizes@, #[trigger] order@[i] as int, #[trigger] order@[j] as int),
{
    let mut order: Vec<u32> = Vec::new();
    let mut m: usize = 0;
    while m < sizes.len()
        invariant
            sizes@.len() <= u32::MAX,
            m <= sizes@.len(),
            order@.len() == m,
            forall|i: int| 0 <= i < order@.len() ==> #[trigger] order@[i] < m,
            forall|i: int, j: int|
                0 <= i < j < order@.len() ==> ranks_before(sizes@, #[trigger] order@[i] as int, #[trigger] order@[j] as int),
        decreases sizes@.len() - m,
    {
        let mut p: usize = 0;
        while p < order.len() && !(sizes[m] > sizes[order[p] as usize])
            invariant
                m < sizes@.len(),
                order@.len() == m,
                p <= order@.len(),
                forall|i: int| 0 <= i < order@.len() ==> #[trigger] order@[i] < m,
                forall|i: int| 0 <= i < p ==> ranks_before(sizes@, #[trigger] order@[i] as int, m as int),
            decreases order@.len() - p,
        {
            p = p + 1;
        }
        let ghost before = order@;
        order.insert(p, m as u32);
        proof {
            assert forall|i: int| 0 <= i < order@.len() implies #[trigger] order@[i] < m + 1 by {
                if i < p {
                    assert(order@[i] == before[i]);
                } else if i > p {
                    assert(order@[i] == before[i - 1]);
                }
            }
            assert forall|i: int, j: int|
                0 <= i < j < order@.len() implies ranks_before(
                sizes@,
                #[trigger] order@[i] as int,
                #[trigger] order@[j] as int,
            ) by {
                if j < p {
                    assert(order@[i] == before[i] && order@[j] == before[j]);
                } else if j == p {
                    assert(order@[i] == before[i]);
                } else if i < p {
                    assert(order@[i] == before[i] && order@[j] == before[j - 1]);
                    assert(ranks_before(sizes@, before[i] as int, m as int));
                    assert(ranks_before(sizes@, m as int, before[p as int] as int));
                    if j - 1 > p {
                        assert(ranks_before(sizes@, before[p as int] as int, before[j - 1] as int));
                    }
                } else if i == p {
                    assert(order@[j] == before[j - 1]);
                    assert(ranks_before(sizes@, m as int, before[p as int] as int));
                    if j - 1 > p {
                        assert(ranks_before(sizes@, before[p as int] as int, before[j - 1] as int));
                    }
                } else {
                    assert(order@[i] == before[i - 1] && order@[j] == before[j - 1]);
                }
            }
        }
        m = m + 1;
    }
    order
}

/// What becomes of a detached piece of a plate.
#[derive(Clone, Copy, Debug, PartialEq, Eq)]
pub enum RemnantFate {
    /// Its samples join the given plate.
    Accrete(u16),
    /// It becomes a new plate with the parent's motion.
    Microplate,
    /// It stays with its plate (no plate slot is left and it touches no other plate).
    Stays,
}

/// A detached piece is substantial when it has at least sixteen samples
/// and at least a quarter of the samples of the plate's largest piece.
pub open spec fn substantial_remnant(piece_len: nat, primary_len: nat) -> bool {
    piece_len >= MIN_MICROPLATE_SAMPLES && piece_len * 4 >= primary_len
}

/// Fate of a detached piece: a substantial piece becomes a microplate while
/// plate slots remain; a small scrap accretes onto the neighbor it converges
/// with most, else onto the neighbor it touches most; a substantial piece
/// without a free slot accretes onto the neighbor it touches most.
pub open spec fn remnant_fate_spec(
    piece_len: nat,
    primary_len: nat,
    best_convergent: Option<u16>,
    best_contact: Option<u16>,
    plate_count: nat,
    max_plates: nat,
) -> RemnantFate {
    let recipient = if substantial_remnant(piece_len, primary_len) {
        None
    } else if best_convergent is Some {
        best_convergent
    } else {
        best_contact
    };
    match recipient {
        Some(r) => RemnantFate::Accrete(r),
        None => if plate_count < max_plates {
            RemnantFate::Microplate
        } else {
            match best_contact {
                Some(r) => RemnantFate::Accrete(r),
                None => RemnantFate::Stays,
            }
        },
    }
}

/// Decides the fate of a detached piece of `piece_len` samples of a plate
/// whose largest piece has `primary_len` samples (at least one). The
/// neighbor it converges with most and the neighbor it touches most come
/// from the floating-point motion of the plates.
pub fn remnant_fate(
    piece_len: usize,
    primary_len: usize,
    best_convergent: Option<u16>,
    best_contact: Option<u16>,
    plate_count: usize,
    max_plates: usize,
) -> (fate: RemnantFate)
    ensures
        fate == remnant_fate_spec(
            piece_len as nat,
            primary_len as nat,
            best_convergent,
            best_contact,
            plate_count as nat,
            max_plates as nat,
        ),
{
    let substantial = piece_len >= MIN_MICROPLATE_SAMPLES && (piece_len > usize::MAX / 4 || piece_len * 4
        >= primary_len);
    let recipient = if substantial {
        None
    } else if best_convergent.is_some() {
        best_convergent
    } else {
        best_contact
    };
    match recipient {
        Some(r) => RemnantFate::Accrete(r),
        None => if plate_count < max_plates {
            RemnantFate::Microplate
        } else {
            match best_contact {
                Some(r) => RemnantFate::Accrete(r),
                None => RemnantFate::Stays,
            }
        },
    }
}

/// A piece with fewer than sixteen samples, or with fewer than a quarter of
/// the samples of the plate's largest piece, is a scrap: when it has a
/// neighbor it accretes, onto the neighbor it converges with most if there
/// is one, else onto the neighbor it touches most.
pub proof fn lemma_scrap_accretes(
    piece_len: nat,
    primary_len: nat,
    best_convergent: Option<u16>,
    best_contact: Option<u16>,
    plate_count: nat,
    max_plates: nat,
)
    requires
        piece_len < 16 || piece_len * 4 < primary_len,
    ensures
        best_convergent matches Some(r) ==> remnant_fate_spec(
            piece_len,
            primary_len,
            best_convergent,
            best_contact,
            plate_count,
            max_plates,
        ) == RemnantFate::Accrete(r),
        best_convergent is None ==> (best_contact matches Some(r) ==> remnant_fate_spec(
            piece_len,
            primary_len,
            best_convergent,
            best_contact,
            plate_count,
            max_plates,
        ) == RemnantFate::Accrete(r)),
{
}

/// A piece of at least sixteen samples and at least a quarter of the largest
/// piece becomes a microplate while plate slots remain; without a slot it
/// accretes onto the neighbor it touches most, or stays when it touches none.
pub proof fn lemma_substantial_piece(
    piece_len: nat,
    primary_len: nat,
    best_convergent: Option<u16>,
    best_contact: Option<u16>,
    plate_count: nat,
    max_plates: nat,
)
    requires
        piece_len >= 16,
        piece_len * 4 >= primary_len,
    ensures
        ({
            let fate = remnant_fate_spec(piece_len, primary_len, best_convergent, best_contact, plate_count, max_plates);
            &&& plate_count < max_plates ==> fate == RemnantFate::Microplate
            &&& plate_count >= max_plates ==> fate == match best_contact {
                Some(r) => RemnantFate::Accrete(r),
                None => RemnantFate::Stays,
            }
        }),
{
}

/// A microplate is born only in a free plate slot, and only from a
/// substantial piece or from a piece that touches no other plate.
pub proof fn lemma_microplate_birth(
    piece_len: nat,
    primary_len: nat,
    best_convergent: Option<u16>,
    best_contact: Option<u16>,
    plate_count: nat,
    max_plates: nat,
)
    ensures
        remnant_fate_spec(piece_len, primary_len, best_convergent, best_contact, plate_count, max_plates)
            == RemnantFate::Microplate ==> plate_count < max_plates && ((piece_len >= 16 && piece_len * 4 >= primary_len)
            || (best_convergent is None && best_contact is None)),
        remnant_fate_spec(piece_len, primary_len, best_convergent, best_contact, plate_count, max_plates)
            == RemnantFate::Stays ==> best_contact is None && plate_count >= max_plates,
{
}

} // verus!
