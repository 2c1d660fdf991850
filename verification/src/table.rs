//! The dense value table: one cell per grid coordinate and action.
//!
//! The cells live in an `ndarray` array of dynamic rank. A cell holds the
//! bit pattern of a single-precision number, so a fresh table of zero
//! patterns is a table of zeros.

use vstd::prelude::*;
use ndarray::{ArrayD, ArrayView1, IxDyn, SliceInfo, SliceInfoElem};

verus! {

/// Size of one cell in bytes.
pub const CELL_BYTES: usize = 4;

/// An `ndarray::ArrayD` of cells. Verus sees none of it: what it holds is
/// named by `cells_shape` and `cells_content`.
#[verifier::external_body]
pub struct Cells {
    array: ArrayD<u32>,
}

/// A one-dimensional `ndarray::ArrayView1` into a table: the cells of all
/// actions in one state, borrowed and not copied. What it shows is named by
/// `row_items`.
#[verifier::external_body]
pub struct Row<'a> {
    view: ArrayView1<'a, u32>,
}

/// The axis lengths of the array.
pub uninterp spec fn cells_shape(cells: Cells) -> Seq<usize>;

/// The cells of the array by index.
pub uninterp spec fn cells_content(cells: Cells) -> Map<Seq<usize>, u32>;

/// The items that a row shows, in order.
pub uninterp spec fn row_items(row: Row<'_>) -> Seq<u32>;

/// An index with one coordinate per axis, each within its axis.
pub open spec fn within(idx: Seq<usize>, shape: Seq<usize>) -> bool {
    &&& idx.len() == shape.len()
    &&& forall|k: int| 0 <= k < idx.len() ==> idx[k] < shape[k]
}

/// The number of cells of an array with the given axis lengths.
pub open spec fn volume(shape: Seq<usize>) -> int
    decreases shape.len(),
{
    if shape.len() == 0 {
        1
    } else {
        volume(shape.drop_last()) * shape.last()
    }
}

/// The content of a table of the given shape that holds 0 in every cell.
pub open spec fn zero_content(shape: Seq<usize>) -> Map<Seq<usize>, u32> {
    Map::new(|idx: Seq<usize>| within(idx, shape), |idx: Seq<usize>| 0u32)
}

/// No axis is empty.
pub open spec fn positive(shape: Seq<usize>) -> bool {
    forall|k: int| 0 <= k < shape.len() ==> shape[k] >= 1
}

/// `ArrayD::zeros` on the given axis lengths: an array of that shape whose
/// every cell is 0. The call panics when the cell count overflows `isize`,
/// and the allocation behind it when the byte count does; `requires` keeps
/// both out.
#[verifier::external_body]
fn cells_zeros(shape: &Vec<usize>) -> (r: Cells)
    requires
        positive(shape@),
        volume(shape@) * CELL_BYTES <= isize::MAX,
    ensures
        cells_shape(r) == shape@,
        cells_content(r) == zero_content(shape@),
{
    Cells { array: ArrayD::zeros(IxDyn(shape.as_slice())) }
}

/// Indexing of the array by a slice of coordinates: the cell at `idx`. The
/// outside call panics on an index that is not within the shape.
#[verifier::external_body]
fn cells_get(cells: &Cells, idx: &Vec<usize>) -> (r: u32)
    requires
        within(idx@, cells_shape(*cells)),
    ensures
        r == cells_content(*cells)[idx@],
{
    cells.array[idx.as_slice()]
}

/// Assignment through the array's mutable indexing: the cell at `idx`
/// becomes `val`, the shape and every other cell stay.
#[verifier::external_body]
fn cells_set(cells: &mut Cells, idx: &Vec<usize>, val: u32)
    requires
        within(idx@, cells_shape(*old(cells))),
    ensures
        cells_shape(*final(cells)) == cells_shape(*old(cells)),
        cells_content(*final(cells)) == cells_content(*old(cells)).insert(idx@, val),
{
    cells.array[idx.as_slice()] = val;
}

/// `ArrayBase::slice` with one index per leading axis and the whole of the
/// last axis: a view of as many items as the last axis is long, item `j`
/// being the cell at `state` followed by `j`.
#[verifier::external_body]
fn cells_row<'a>(cells: &'a Cells, state: &Vec<usize>) -> (r: Row<'a>)
    requires
        cells_shape(*cells).len() == state@.len() + 1,
        within(state@, cells_shape(*cells).drop_last()),
    ensures
        row_items(r).len() == cells_shape(*cells).last(),
        forall|j: int|
            0 <= j < row_items(r).len() ==> #[trigger] row_items(r)[j] == cells_content(
                *cells,
            )[state@.push(j as usize)],
{
    let mut elems: Vec<SliceInfoElem> = state.iter().map(|i| SliceInfoElem::from(*i)).collect();
    elems.push(SliceInfoElem::from(..));
    let info: SliceInfo<Vec<SliceInfoElem>, IxDyn, IxDyn> = SliceInfo::try_from(elems).unwrap();
    Row { view: cells.array.slice(info).into_dimensionality().unwrap() }
}

/// `ArrayBase::len` of the view: the number of items.
#[verifier::external_body]
pub(crate) fn row_len(row: &Row<'_>) -> (r: usize)
    ensures
        r == row_items(*row).len(),
{
    row.view.len()
}

/// Indexing of the view: item `j`. The outside call panics past the end.
#[verifier::external_body]
pub(crate) fn row_at(row: &Row<'_>, j: usize) -> (r: u32)
    requires
        j < row_items(*row).len(),
    ensures
        r == row_items(*row)[j as int],
{
    row.view[j]
}

/// The product of a prefix of positive axis lengths is at most the product
/// of all of them.
pub proof fn lemma_volume_prefix(shape: Seq<usize>, n: int)
    requires
        positive(shape),
        0 <= n <= shape.len(),
    ensures
        1 <= volume(shape.subrange(0, n)) <= volume(shape),
    decreases shape.len() - n,
{
    if n == shape.len() {
        assert(shape.subrange(0, n) =~= shape);
        lemma_volume_positive(shape);
    } else {
        lemma_volume_prefix(shape, n + 1);
        let longer = shape.subrange(0, n + 1);
        assert(longer.drop_last() =~= shape.subrange(0, n));
        assert(longer.last() == shape[n]);
        lemma_volume_positive(shape.subrange(0, n));
        assert(volume(shape.subrange(0, n)) <= volume(longer)) by (nonlinear_arith)
            requires
                volume(longer) == volume(shape.subrange(0, n)) * shape[n],
                shape[n] >= 1,
                volume(shape.subrange(0, n)) >= 1,
        ;
    }
}

/// One more axis multiplies the number of cells by its length.
pub proof fn lemma_volume_push(shape: Seq<usize>, axis: usize)
    ensures
        volume(shape.push(axis)) == volume(shape) * axis,
{
    assert(shape.push(axis).drop_last() =~= shape);
}

/// An array without an empty axis has at least one cell.
pub proof fn lemma_volume_positive(shape: Seq<usize>)
    requires
        positive(shape),
    ensures
        volume(shape) >= 1,
    decreases shape.len(),
{
    if shape.len() > 0 {
        lemma_volume_positive(shape.drop_last());
        assert(volume(shape) >= 1) by (nonlinear_arith)
            requires
                volume(shape) == volume(shape.drop_last()) * shape.last(),
                volume(shape.drop_last()) >= 1,
                shape.last() >= 1,
        ;
    }
}

/// The value table. Its last axis is the action axis; the axes before it
/// are the grid.
pub struct QTable {
    cells: Cells,
    shape: Vec<usize>,
}

impl QTable {
    /// The axis lengths: the bucket count of each dimension, then the
    /// number of actions.
    pub closed spec fn shape(&self) -> Seq<usize> {
        self.shape@
    }

    /// Every cell by its index.
    pub closed spec fn content(&self) -> Map<Seq<usize>, u32> {
        cells_content(self.cells)
    }

    /// The array has the recorded shape, which has an action axis and no
    /// empty axis.
    pub closed spec fn wf(&self) -> bool {
        &&& cells_shape(self.cells) == self.shape@
        &&& self.shape@.len() >= 1
        &&& positive(self.shape@)
    }

    /// The bucket counts: all axes but the last.
    pub open spec fn grid(&self) -> Seq<usize> {
        self.shape().drop_last()
    }

    /// The number of actions: the last axis.
    pub open spec fn actions(&self) -> usize {
        self.shape().last()
    }

    /// The cell of `action` in `state`.
    pub open spec fn spec_value(&self, state: Seq<usize>, action: usize) -> u32 {
        self.content()[state.push(action)]
    }

    /// The cells of all actions in `state`, by action index.
    pub open spec fn spec_row(&self, state: Seq<usize>) -> Seq<u32> {
        Seq::new(self.actions() as nat, |j: int| self.spec_value(state, j as usize))
    }

    /// Axis lengths for which a table can be built: no empty axis, at least
    /// one action, and a byte count that fits in `isize`.
    pub open spec fn buildable(buckets: Seq<usize>, actions: usize) -> bool {
        &&& positive(buckets.push(actions))
        &&& volume(buckets.push(actions)) * CELL_BYTES <= isize::MAX
    }

    /// A well-formed table has a positive number of actions and no empty
    /// grid axis.
    pub proof fn lemma_wf(&self)
        requires
            self.wf(),
        ensures
            self.shape().len() >= 1,
            self.actions() >= 1,
            positive(self.shape()),
            positive(self.grid()),
            self.shape() == self.grid().push(self.actions()),
    {
        assert(self.shape() =~= self.grid().push(self.actions()));
    }

    /// A table of zeros over the given grid and number of actions.
    pub fn zeros(buckets: &Vec<usize>, actions: usize) -> (t: QTable)
        requires
            QTable::buildable(buckets@, actions),
        ensures
            t.wf(),
            t.shape() == buckets@.push(actions),
            t.content() == zero_content(t.shape()),
    {
        let mut shape: Vec<usize> = buckets.clone();
        shape.push(actions);
        assert(shape@ =~= buckets@.push(actions));
        QTable { cells: cells_zeros(&shape), shape }
    }

    /// The cell count after one more axis, or `None` where the axis is empty
    /// or the count passes `limit`.
    fn grow(cells: usize, axis: usize, limit: usize) -> (r: Option<usize>)
        ensures
            r is Some <==> axis >= 1 && cells * axis <= limit,
            r matches Some(product) ==> product == cells * axis,
    {
        if axis == 0 {
            return None;
        }
        match cells.checked_mul(axis) {
            Some(product) if product <= limit => Some(product),
            _ => None,
        }
    }

    /// Whether a table over the given grid and number of actions can be
    /// built.
    pub fn can_build(buckets: &Vec<usize>, actions: usize) -> (r: bool)
        ensures
            r == QTable::buildable(buckets@, actions),
    {
        let ghost shape = buckets@.push(actions);
        let limit: usize = (isize::MAX as usize) / CELL_BYTES;
        let mut cells: usize = 1;
        let mut i: usize = 0;
        assert(buckets@.subrange(0, 0) =~= Seq::<usize>::empty());
        while i < buckets.len()
            invariant
                i <= buckets@.len(),
                shape == buckets@.push(actions),
                limit == (isize::MAX as usize) / CELL_BYTES,
                cells == volume(buckets@.subrange(0, i as int)),
                cells <= limit,
                positive(buckets@.subrange(0, i as int)),
            decreases buckets@.len() - i,
        {
            let ghost shorter = buckets@.subrange(0, i as int);
            let ghost longer = buckets@.subrange(0, i + 1);
            proof {
                assert(longer =~= shape.subrange(0, i + 1));
                assert(longer.drop_last() =~= shorter);
                assert(longer.last() == buckets@[i as int]);
                assert(shape[i as int] == buckets@[i as int]);
            }
            match Self::grow(cells, buckets[i], limit) {
                Some(product) => {
                    cells = product;
                },
                None => {
                    proof {
                        if positive(shape) {
                            lemma_volume_prefix(shape, i + 1);
                        }
                    }
                    return false;
                },
            }
            proof {
                assert forall|k: int| 0 <= k < longer.len() implies longer[k] >= 1 by {
                    if k < i {
                        assert(longer[k] == shorter[k]);
                    }
                }
            }
            i = i + 1;
        }
        proof {
            assert(buckets@.subrange(0, i as int) =~= buckets@);
            assert(shape.drop_last() =~= buckets@);
            assert(shape.last() == actions);
        }
        match Self::grow(cells, actions, limit) {
            Some(product) => {
                proof {
                    assert forall|k: int| 0 <= k < shape.len() implies shape[k] >= 1 by {
                        if k < buckets@.len() {
                            assert(shape[k] == buckets@[k]);
                        }
                    }
                }
                true
            },
            None => false,
        }
    }

    /// A table of zeros over the given grid and number of actions, or
    /// `None` where no such table can be built.
    pub fn new(buckets: &Vec<usize>, actions: usize) -> (r: Option<QTable>)
        ensures
            r is Some <==> QTable::buildable(buckets@, actions),
            r matches Some(t) ==> {
                &&& t.wf()
                &&& t.shape() == buckets@.push(actions)
                &&& t.content() == zero_content(t.shape())
            },
    {
        if QTable::can_build(buckets, actions) {
            Some(QTable::zeros(buckets, actions))
        } else {
            None
        }
    }

    /// The value of `action` in `state`.
    pub fn value(&self, state: &Vec<usize>, action: usize) -> (r: u32)
        requires
            self.wf(),
            within(state@, self.grid()),
            action < self.actions(),
        ensures
            r == self.spec_value(state@, action),
    {
        let mut idx = state.clone();
        idx.push(action);
        assert(idx@ =~= state@.push(action));
        cells_get(&self.cells, &idx)
    }

    /// The values of all actions in `state`, as a view into the table.
    pub fn row(&self, state: &Vec<usize>) -> (r: Row<'_>)
        requires
            self.wf(),
            within(state@, self.grid()),
        ensures
            row_items(r) == self.spec_row(state@),
    {
        let r = cells_row(&self.cells, state);
        assert(row_items(r) =~= self.spec_row(state@));
        r
    }

    /// Writes `val` into the cell at `idx`, which names a state and an
    /// action. No other cell changes.
    pub fn set(&mut self, idx: &Vec<usize>, val: u32)
        requires
            old(self).wf(),
            within(idx@, old(self).shape()),
        ensures
            final(self).wf(),
            final(self).shape() == old(self).shape(),
            final(self).content() == old(self).content().insert(idx@, val),
    {
        cells_set(&mut self.cells, idx, val);
    }
}

} // verus!
