//! Grouping the layout's quads, in drawing order, into draw batches: consecutive quads
//! that share a batch key are drawn together, each quad as two triangles over its four
//! corners.

use vstd::prelude::*;

verus! {

/// One draw batch: the quads `first .. first + count` of the drawing order, their
/// shared key, the triangle indices into the batch's vertices (four per quad), and
/// the pane and piece each quad belongs to.
pub struct BatchPlan {
    pub first: usize,
    pub count: usize,
    pub key: u64,
    pub indices: Vec<u32>,
    pub piece_keys: Vec<(usize, usize)>,
}

pub struct PlanView {
    pub first: usize,
    pub count: usize,
    pub key: u64,
    pub indices: Seq<u32>,
    pub piece_keys: Seq<(usize, usize)>,
}

impl View for BatchPlan {
    type V = PlanView;

    open spec fn view(&self) -> PlanView {
        PlanView {
            first: self.first,
            count: self.count,
            key: self.key,
            indices: self.indices@,
            piece_keys: self.piece_keys@,
        }
    }
}

pub open spec fn plans_view(p: Seq<BatchPlan>) -> Seq<PlanView> {
    p.map_values(|b: BatchPlan| b@)
}

/// The indices of the first `count` quads of a batch: quad `m` is the triangles
/// `4m, 4m+1, 4m+2` and `4m+1, 4m+3, 4m+2`.
pub open spec fn batch_indices(count: nat) -> Seq<u32>
    decreases count,
{
    if count == 0 {
        Seq::empty()
    } else {
        let m = (count - 1) as int;
        batch_indices((count - 1) as nat) + seq![
            (4 * m) as u32,
            (4 * m + 1) as u32,
            (4 * m + 2) as u32,
            (4 * m + 1) as u32,
            (4 * m + 3) as u32,
            (4 * m + 2) as u32,
        ]
    }
}

/// The batches for the first `n` quads: each quad joins the last batch where it has
/// that batch's key, and starts a new batch otherwise.
pub open spec fn plans_upto(keys: Seq<u64>, pieces: Seq<(usize, usize)>, n: nat) -> Seq<PlanView>
    decreases n,
{
    if n == 0 {
        Seq::empty()
    } else {
        let prev = plans_upto(keys, pieces, (n - 1) as nat);
        let j = n - 1;
        if prev.len() > 0 && prev.last().key == keys[j] {
            let b = prev.last();
            prev.drop_last().push(
                PlanView {
                    count: (b.count + 1) as usize,
                    indices: batch_indices((b.count + 1) as nat),
                    piece_keys: b.piece_keys.push(pieces[j]),
                    ..b
                },
            )
        } else {
            prev.push(
                PlanView {
                    first: j as usize,
                    count: 1,
                    key: keys[j],
                    indices: batch_indices(1),
                    piece_keys: seq![pieces[j]],
                },
            )
        }
    }
}

/// Groups quads with batch keys `keys` and pane and piece `piece_keys`, in drawing
/// order, into batches; see `plans_upto`.
pub fn plan_batches(keys: &Vec<u64>, piece_keys: &Vec<(usize, usize)>) -> (r: Vec<BatchPlan>)
    requires
        keys@.len() == piece_keys@.len(),
        keys@.len() < 0x4000_0000,
    ensures
        plans_view(r@) == plans_upto(keys@, piece_keys@, keys@.len()),
{
    let n = keys.len();
    let mut out: Vec<BatchPlan> = Vec::new();
    let mut j: usize = 0;
    while j < n
        invariant
            j <= n,
            n == keys@.len(),
            n == piece_keys@.len(),
            n < 0x4000_0000,
            plans_view(out@) == plans_upto(keys@, piece_keys@, j as nat),
            forall|i: int| 0 <= i < out@.len() ==> #[trigger] out@[i].count <= j,
        decreases n - j,
    {
        let key = keys[j];
        let piece = piece_keys[j];
        let ghost prev = plans_view(out@);
        let len = out.len();
        proof {
            law_batches_partition(keys@, piece_keys@, j as nat);
            if len > 0 {
                assert(prev.last() == out@[len - 1]@);
                assert(prev[prev.len() - 1].indices == batch_indices(prev[prev.len() - 1].count as nat));
            }
        }
        if len > 0 && out[len - 1].key == key {
            let mut b = out.pop().unwrap();
            assert(b@ == prev.last());
            assert(b.count <= j);
            let m = b.count as u32;
            let ghost bi = b.indices@;
            assert(bi == batch_indices(b.count as nat));
            b.indices.push(4 * m);
            b.indices.push(4 * m + 1);
            b.indices.push(4 * m + 2);
            b.indices.push(4 * m + 1);
            b.indices.push(4 * m + 3);
            b.indices.push(4 * m + 2);
            b.count = b.count + 1;
            b.piece_keys.push(piece);
            assert(b.indices@ =~= bi + seq![
                (4 * m) as u32,
                (4 * m + 1) as u32,
                (4 * m + 2) as u32,
                (4 * m + 1) as u32,
                (4 * m + 3) as u32,
                (4 * m + 2) as u32,
            ]);
            assert(b.indices@ == batch_indices(b.count as nat));
            out.push(b);
            assert(plans_view(out@) =~= prev.drop_last().push(b@));
        } else {
            let b = BatchPlan {
                first: j,
                count: 1,
                key,
                indices: vec![0, 1, 2, 1, 3, 2],
                piece_keys: vec![piece],
            };
            assert(batch_indices(0) =~= Seq::<u32>::empty());
            assert(b.indices@ =~= batch_indices(1));
            assert(b.piece_keys@ =~= seq![piece]);
            out.push(b);
            assert(plans_view(out@) =~= prev.push(b@));
        }
        assert forall|i: int| 0 <= i < out@.len() implies #[trigger] out@[i].count <= j + 1 by {
            if i < out@.len() - 1 {
                assert(plans_view(out@)[i] == out@[i]@);
            }
        }
        j = j + 1;
    }
    out
}

/// The batches split the drawing order: they are non-empty, follow one another from
/// the first quad to the last, every quad in a batch has the batch's key, two batches
/// in a row have different keys, and each batch's pane and piece keys are those of its
/// quads, in order, with four corners' indices per quad.
pub proof fn law_batches_partition(keys: Seq<u64>, pieces: Seq<(usize, usize)>, n: nat)
    requires
        n <= keys.len(),
        n <= pieces.len(),
        n < 0x4000_0000,
    ensures
        ({
            let b = plans_upto(keys, pieces, n);
            &&& n == 0 <==> b.len() == 0
            &&& b.len() > 0 ==> b[0].first == 0 && b.last().first + b.last().count == n
            &&& forall|i: int| 0 <= i < b.len() ==> #[trigger] b[i].count >= 1
                && b[i].indices == batch_indices(b[i].count as nat)
                && b[i].piece_keys == pieces.subrange(b[i].first as int, b[i].first + b[i].count)
                && (forall|k: int| b[i].first <= k < b[i].first + b[i].count ==> keys[k] == b[i].key)
            &&& forall|i: int| 0 <= i < b.len() - 1 ==> #[trigger] b[i + 1].first == b[i].first + b[i].count
                && b[i + 1].key != b[i].key
        }),
    decreases n,
{
    if n > 0 {
        law_batches_partition(keys, pieces, (n - 1) as nat);
        let prev = plans_upto(keys, pieces, (n - 1) as nat);
        let b = plans_upto(keys, pieces, n);
        let j = n - 1;
        if prev.len() > 0 && prev.last().key == keys[j] {
            let l = prev.last();
            assert(b.last().piece_keys =~= pieces.subrange(l.first as int, l.first + l.count + 1));
            assert forall|i: int| 0 <= i < b.len() - 1 implies #[trigger] b[i + 1].first == b[i].first + b[i].count
                && b[i + 1].key != b[i].key by {
                assert(b[i] == prev[i]);
                if i + 1 < b.len() - 1 {
                    assert(b[i + 1] == prev[i + 1]);
                }
            }
            assert forall|i: int| 0 <= i < b.len() implies #[trigger] b[i].count >= 1
                && b[i].indices == batch_indices(b[i].count as nat)
                && b[i].piece_keys == pieces.subrange(b[i].first as int, b[i].first + b[i].count)
                && (forall|k: int| b[i].first <= k < b[i].first + b[i].count ==> keys[k] == b[i].key) by {
                if i < b.len() - 1 {
                    assert(b[i] == prev[i]);
                }
            }
        } else {
            assert(b.last().piece_keys =~= pieces.subrange(j, j + 1));
            assert(batch_indices(1) =~= batch_indices(0) + seq![0u32, 1, 2, 1, 3, 2]);
            assert forall|i: int| 0 <= i < b.len() - 1 implies #[trigger] b[i + 1].first == b[i].first + b[i].count
                && b[i + 1].key != b[i].key by {
                assert(b[i] == prev[i]);
                if i + 1 < b.len() - 1 {
                    assert(b[i + 1] == prev[i + 1]);
                }
            }
            assert forall|i: int| 0 <= i < b.len() implies #[trigger] b[i].count >= 1
                && b[i].indices == batch_indices(b[i].count as nat)
                && b[i].piece_keys == pieces.subrange(b[i].first as int, b[i].first + b[i].count)
                && (forall|k: int| b[i].first <= k < b[i].first + b[i].count ==> keys[k] == b[i].key) by {
                if i < b.len() - 1 {
                    assert(b[i] == prev[i]);
                }
            }
        }
    }
}

} // verus!
