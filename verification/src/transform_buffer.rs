//! The transform mirror buffer: a contiguous, grow-only array holding one
//! fixed-width record per entity slot, rebuilt from the entity store on
//! demand so a host can read every live entity's kinematic state without
//! a per-field boundary crossing.
//!
//! Records are placed at `slot index * stride`: dead slots inside the
//! addressed range keep whatever was last written there (they are never
//! addressed through a live handle), and the buffer never shrinks, so a
//! non-decreasing maximum live slot index never forces a reallocation.
use vstd::arithmetic::mul::lemma_mul_inequality;
use vstd::prelude::*;

use crate::math::Dim;
use crate::rigid_body_set::{RawRigidBodySet, RigidBody, Slot};

verus! {

/// Highest live slot index among the first `n` slots, `-1` when none.
pub open spec fn spec_max_live(s: Seq<Slot>, n: int) -> int
    decreases n,
{
    if n <= 0 {
        -1
    } else if s[n - 1].body is Some {
        n - 1
    } else {
        spec_max_live(s, n - 1)
    }
}

pub proof fn lemma_max_live(s: Seq<Slot>, n: int)
    requires
        0 <= n <= s.len(),
    ensures
        -1 <= spec_max_live(s, n) < n,
        spec_max_live(s, n) >= 0 ==> s[spec_max_live(s, n)].body is Some,
        forall|i: int|
            0 <= i < n && (#[trigger] s[i]).body is Some ==> i <= spec_max_live(s, n),
    decreases n,
{
    if n > 0 {
        lemma_max_live(s, n - 1);
    }
}

/// Scalars the mirror must hold: one record per slot up to and including
/// the highest live one; nothing when no entity is live.
pub open spec fn spec_required_len(s: Seq<Slot>, stride: int) -> int {
    (spec_max_live(s, s.len() as int) + 1) * stride
}

/// Position `k` of the buffer lies inside the record of a live slot
/// below `n`.
pub open spec fn spec_covered_below(s: Seq<Slot>, stride: int, k: int, n: int) -> bool {
    exists|i: int|
        0 <= i < n && (#[trigger] s[i]).body is Some && i * stride <= k < (i + 1) * stride
}

/// Position `k` of the buffer lies inside the record of some live slot.
pub open spec fn spec_covered(s: Seq<Slot>, stride: int, k: int) -> bool {
    spec_covered_below(s, stride, k, s.len() as int)
}

/// Copies `src` into `data` starting at `off`; returns the position just
/// past the copy. Nothing outside the copied range moves.
fn copy_into(data: &mut Vec<u32>, off: usize, src: &Vec<u32>) -> (end: usize)
    requires
        off + src@.len() <= old(data)@.len(),
    ensures
        end == off + src@.len(),
        final(data)@.len() == old(data)@.len(),
        final(data)@.subrange(off as int, end as int) == src@,
        forall|k: int|
            0 <= k < old(data)@.len() && !(off <= k < end) ==> final(data)@[k] == old(data)@[k],
{
    let dlen = data.len();
    let mut j: usize = 0;
    while j < src.len()
        invariant
            j <= src@.len(),
            dlen == data@.len(),
            off + src@.len() <= data@.len(),
            data@.len() == old(data)@.len(),
            forall|m: int| 0 <= m < j ==> data@[off + m] == src@[m],
            forall|k: int|
                0 <= k < data@.len() && !(off <= k < off + src@.len()) ==> data@[k] == old(data)@[k],
        decreases src@.len() - j,
    {
        data.set(off + j, src[j]);
        j = j + 1;
    }
    proof {
        assert(data@.subrange(off as int, off + src@.len()) =~= src@);
    }
    off + src.len()
}

/// Writes one entity's record — translation, orientation, linear
/// velocity, angular velocity — at `off`, leaving the rest of the buffer
/// untouched.
fn write_record(data: &mut Vec<u32>, off: usize, body: &RigidBody, dim: Dim)
    requires
        body.wf(dim),
        off + dim.spec_stride() <= old(data)@.len(),
    ensures
        final(data)@.len() == old(data)@.len(),
        final(data)@.subrange(off as int, off + dim.spec_stride()) == body.spec_record(),
        forall|k: int|
            0 <= k < old(data)@.len() && !(off <= k < off + dim.spec_stride()) ==> final(data)@[k] == old(data)@[k],
{
    let o1 = copy_into(data, off, &body.translation);
    let o2 = copy_into(data, o1, &body.rotation);
    let o3 = copy_into(data, o2, &body.linvel);
    copy_into(data, o3, &body.angvel);
    proof {
        let stride = dim.spec_stride();
        let rec = body.spec_record();
        let t = body.translation@.len() as int;
        let r = body.rotation@.len() as int;
        let lv = body.linvel@.len() as int;
        assert(rec.len() == stride);
        assert forall|m: int| 0 <= m < stride implies data@[off + m] == rec[m] by {
            if m < t {
                assert(data@[off + m] == body.translation@[m]);
            } else if m < t + r {
                assert(data@[off + m] == body.rotation@[m - t]);
            } else if m < t + r + lv {
                assert(data@[off + m] == body.linvel@[m - t - r]);
            } else {
                assert(data@[off + m] == body.angvel@[m - t - r - lv]);
            }
        }
        assert(data@.subrange(off as int, off + stride) =~= rec);
    }
}

/// Rebuilds the mirror from the store's slots: finds the highest live
/// slot, grows the buffer to cover it (never shrinking, padding fresh
/// space with zero bits), then writes every live entity's record at
/// `slot index * stride`. Positions outside every live record keep the
/// value they had.
pub fn fill_transforms(data: &mut Vec<u32>, slots: &Vec<Slot>, dim: Dim)
    requires
        forall|i: int|
            0 <= i < slots@.len() && (#[trigger] slots@[i]).body is Some ==> slots@[i].body->0.wf(
                dim,
            ),
        slots@.len() * dim.spec_stride() <= usize::MAX,
    ensures
        final(data)@.len() == (if old(data)@.len() >= spec_required_len(
            slots@,
            dim.spec_stride(),
        ) {
            old(data)@.len() as int
        } else {
            spec_required_len(slots@, dim.spec_stride())
        }),
        final(data)@.len() >= old(data)@.len(),
        forall|i: int|
            0 <= i < slots@.len() && (#[trigger] slots@[i]).body is Some ==> (i + 1)
                * dim.spec_stride() <= final(data)@.len() && final(data)@.subrange(
                i * dim.spec_stride(),
                (i + 1) * dim.spec_stride(),
            ) == slots@[i].body->0.spec_record(),
        forall|k: int|
            0 <= k < final(data)@.len() && !spec_covered(slots@, dim.spec_stride(), k) ==> final(data)@[k] == (if k < old(data)@.len() {
                old(data)@[k]
            } else {
                0u32
            }),
{
    let stride = dim.stride();
    let n_slots = slots.len();
    let mut max_index: usize = 0;
    let mut any_live: bool = false;
    let mut i: usize = 0;
    while i < n_slots
        invariant
            i <= n_slots,
            n_slots == slots@.len(),
            stride as int == dim.spec_stride(),
            any_live <==> spec_max_live(slots@, i as int) >= 0,
            any_live ==> max_index as int == spec_max_live(slots@, i as int) && max_index < n_slots,
        decreases n_slots - i,
    {
        if slots[i].body.is_some() {
            max_index = i;
            any_live = true;
        }
        i = i + 1;
    }
    proof {
        lemma_max_live(slots@, slots@.len() as int);
        if any_live {
            lemma_mul_inequality(max_index as int + 1, slots@.len() as int, stride as int);
        }
    }
    let required: usize = if any_live {
        (max_index + 1) * stride
    } else {
        0
    };
    proof {
        let m = spec_max_live(slots@, slots@.len() as int);
        if any_live {
            assert(m == max_index as int);
            assert(required as int == (m + 1) * dim.spec_stride());
        } else {
            assert(m == -1);
            assert((m + 1) * dim.spec_stride() == 0) by (nonlinear_arith)
                requires
                    m == -1,
            {
            }
        }
        assert(required as int == spec_required_len(slots@, dim.spec_stride()));
    }
    while data.len() < required
        invariant
            data@.len() >= old(data)@.len(),
            old(data)@.len() < required ==> data@.len() <= required,
            old(data)@.len() >= required ==> data@.len() == old(data)@.len(),
            forall|k: int| 0 <= k < old(data)@.len() ==> data@[k] == old(data)@[k],
            forall|k: int| old(data)@.len() <= k < data@.len() ==> data@[k] == 0u32,
        decreases required - data@.len(),
    {
        data.push(0u32);
    }
    let buf_len = data.len();
    let ghost base = data@;
    proof {
        assert(base.len() == buf_len as int);
        assert forall|j: int|
            0 <= j < slots@.len() && (#[trigger] slots@[j]).body is Some implies (j + 1) * (
        stride as int) <= base.len() by {
            lemma_mul_inequality(j + 1, spec_max_live(slots@, slots@.len() as int) + 1, stride as int);
        }
    }
    let mut i: usize = 0;
    while i < n_slots
        invariant
            i <= n_slots,
            n_slots == slots@.len(),
            stride as int == dim.spec_stride(),
            data@.len() == base.len(),
            base.len() == buf_len as int,
            forall|j: int|
                0 <= j < slots@.len() && (#[trigger] slots@[j]).body is Some ==> slots@[j].body
                    ->0.wf(dim),
            forall|j: int|
                0 <= j < slots@.len() && (#[trigger] slots@[j]).body is Some ==> (j + 1) * (
                stride as int) <= base.len(),
            forall|j: int|
                0 <= j < i && (#[trigger] slots@[j]).body is Some ==> data@.subrange(
                    j * stride as int,
                    (j + 1) * stride as int,
                ) == slots@[j].body->0.spec_record(),
            forall|k: int|
                0 <= k < data@.len() && !spec_covered_below(slots@, stride as int, k, i as int)
                    ==> data@[k] == base[k],
        decreases n_slots - i,
    {
        let ghost prev = data@;
        let has_body = slots[i].body.is_some();
        if has_body {
            proof {
                assert((i + 1) * (stride as int) <= base.len());
                assert(i * (stride as int) + stride as int == (i + 1) * (stride as int))
                    by (nonlinear_arith);
                lemma_mul_inequality(i as int, i as int + 1, stride as int);
            }
            let off = i * stride;
            match &slots[i].body {
                Some(b) => {
                    write_record(data, off, b, dim);
                },
                None => {},
            }
        }
        proof {
            let st = stride as int;
            assert forall|j: int|
                0 <= j < i + 1 && (#[trigger] slots@[j]).body is Some implies data@.subrange(
                j * st,
                (j + 1) * st,
            ) == slots@[j].body->0.spec_record() by {
                if j < i && has_body {
                    assert((j + 1) * st <= i * st) by {
                        lemma_mul_inequality(j + 1, i as int, st);
                    }
                    assert(0 <= j * st) by {
                        lemma_mul_inequality(0, j, st);
                    }
                    assert((j + 1) * st == j * st + st) by (nonlinear_arith);
                    assert forall|m: int| j * st <= m < (j + 1) * st implies data@[m]
                        == prev[m] by {
                        assert(m < i * st <= i * st + st);
                    }
                    assert(data@.subrange(j * st, (j + 1) * st) =~= prev.subrange(
                        j * st,
                        (j + 1) * st,
                    ));
                }
            }
            assert forall|k: int|
                0 <= k < data@.len() && !spec_covered_below(slots@, st, k, i + 1) implies data@[k]
                == base[k] by {
                assert(!spec_covered_below(slots@, st, k, i as int)) by {
                    if spec_covered_below(slots@, st, k, i as int) {
                        let w = choose|w: int|
                            0 <= w < i && (#[trigger] slots@[w]).body is Some && w * st <= k < (w
                                + 1) * st;
                        assert(spec_covered_below(slots@, st, k, i + 1));
                    }
                }
                if has_body {
                    assert(!(i * st <= k < (i + 1) * st)) by {
                        if i * st <= k < (i + 1) * st {
                            assert(spec_covered_below(slots@, st, k, i + 1));
                        }
                    }
                }
            }
        }
        i = i + 1;
    }
    proof {
        assert forall|k: int|
            0 <= k < data@.len() && !spec_covered(slots@, stride as int, k) implies data@[k] == (
        if k < old(data)@.len() {
            old(data)@[k]
        } else {
            0u32
        }) by {
            assert(data@[k] == base[k]);
        }
    }
}

/// A store-independent mirror buffer: the same grow-only, slot-indexed
/// record array, owned outside the entity store and refreshed from it at
/// each synchronization point.
pub struct RawBodyTransformBuffer {
    pub dim: Dim,
    pub data: Vec<u32>,
}

impl RawBodyTransformBuffer {
    /// An empty buffer for a world of the given dimensionality.
    pub fn new(dim: Dim) -> (r: RawBodyTransformBuffer)
        ensures
            r.dim == dim,
            r.data@.len() == 0,
    {
        RawBodyTransformBuffer { dim, data: Vec::new() }
    }

    /// Scalars per entity record.
    pub fn stride(&self) -> (r: usize)
        ensures
            r == self.dim.spec_stride(),
    {
        self.dim.stride()
    }

    /// Refreshes the mirror from the store: after the call the buffer
    /// covers every live slot, each live entity's record sits at
    /// `slot index * stride` and equals its current state bit-for-bit,
    /// the buffer never shrinks, and positions no live record addresses
    /// keep their previous contents (fresh growth is zero bits).
    pub fn sync(&mut self, bodies: &RawRigidBodySet)
        requires
            bodies.wf(),
            old(self).dim == bodies.dim,
            bodies.slots@.len() * bodies.dim.spec_stride() <= usize::MAX,
        ensures
            final(self).dim == old(self).dim,
            final(self).data@.len() >= old(self).data@.len(),
            final(self).data@.len() == (if old(self).data@.len() >= spec_required_len(
                bodies.slots@,
                bodies.dim.spec_stride(),
            ) {
                old(self).data@.len() as int
            } else {
                spec_required_len(bodies.slots@, bodies.dim.spec_stride())
            }),
            forall|i: int|
                #[trigger] bodies.spec_live(i) ==> (i + 1) * bodies.dim.spec_stride() <= final(self).data@.len() && final(self).data@.subrange(
                    i * bodies.dim.spec_stride(),
                    (i + 1) * bodies.dim.spec_stride(),
                ) == bodies.spec_body(i).spec_record(),
            forall|k: int|
                0 <= k < final(self).data@.len() && !spec_covered(
                    bodies.slots@,
                    bodies.dim.spec_stride(),
                    k,
                ) ==> final(self).data@[k] == (if k < old(self).data@.len() {
                    old(self).data@[k]
                } else {
                    0u32
                }),
    {
        proof {
            assert forall|i: int|
                0 <= i < bodies.slots@.len() && (#[trigger] bodies.slots@[i]).body
                    is Some implies bodies.slots@[i].body->0.wf(bodies.dim) by {
                assert(bodies.spec_live(i));
            }
        }
        fill_transforms(&mut self.data, &bodies.slots, bodies.dim);
    }

    /// A direct view of the mirrored contents: valid only until the next
    /// synchronization grows the buffer, so callers re-acquire it every
    /// cycle.
    pub fn view_data(&self) -> (r: &Vec<u32>)
        ensures
            r@ == self.data@,
    {
        &self.data
    }
}

} // verus!
