use crate::errors::DbError;
use crate::pager::Pager;
use crate::record::{
    decode_record, lemma_varint_len_some, parse_varint, spec_be_uint, spec_record_matches,
    spec_varint_len, spec_varint_value,
};
use crate::types::{CursorResult, Record, SpecValue};
use vstd::prelude::*;

verus! {

/// Depth bound on a descent from a root page: a deeper chain of interior
/// pages is reported as `Corrupt` (it would otherwise allow a page that
/// names itself as a child to loop forever).
pub const MAX_DEPTH: usize = 20;

/// Page type byte of a leaf table page.
pub const LEAF_PAGE: u8 = 0x0d;

/// Page type byte of an interior table page.
pub const INTERIOR_PAGE: u8 = 0x05;

/// Offset of the page header: page 1 also carries the 100-byte file header.
pub open spec fn spec_hdr(pgno: int) -> int {
    if pgno == 1 {
        100int
    } else {
        0int
    }
}

/// The page-type byte.
pub open spec fn spec_page_type(b: Seq<u8>, pgno: int) -> u8 {
    b[spec_hdr(pgno)]
}

/// The cell count, big-endian at offset 3 of the page header.
pub open spec fn spec_ncells(b: Seq<u8>, pgno: int) -> int {
    spec_be_uint(b, spec_hdr(pgno) + 3, 2) as int
}

/// Start of the cell-pointer array: past the 8-byte leaf header, or past
/// the 12-byte interior header (which ends in the right-most child).
pub open spec fn spec_cell_base(b: Seq<u8>, pgno: int) -> int {
    spec_hdr(pgno) + if spec_page_type(b, pgno) == INTERIOR_PAGE {
        12int
    } else {
        8int
    }
}

/// The `k`-th cell pointer: a 2-byte big-endian offset into the page.
pub open spec fn spec_cell_ptr(b: Seq<u8>, pgno: int, k: int) -> int {
    spec_be_uint(b, spec_cell_base(b, pgno) + 2 * k, 2) as int
}

/// The `k`-th child of an interior page: for `k < ncells` the 4-byte page
/// number at the head of cell `k`; for `k == ncells` the right-most child
/// in the page header.
pub open spec fn spec_child(b: Seq<u8>, pgno: int, k: int) -> int {
    if k == spec_ncells(b, pgno) {
        spec_be_uint(b, spec_hdr(pgno) + 8, 4) as int
    } else {
        spec_be_uint(b, spec_cell_ptr(b, pgno, k), 4) as int
    }
}

/// What it means for `(rowid, row)` to be the content of cell `cell` of
/// leaf page `pgno` with bytes `b`: the cell pointer leads to a
/// payload-length varint, a rowid varint, then a record payload of that
/// length, all within the page.
pub open spec fn spec_leaf_cell_decodes(
    b: Seq<u8>,
    pgno: int,
    cell: int,
    rowid: i64,
    row: Seq<SpecValue>,
) -> bool {
    let cp = spec_cell_ptr(b, pgno, cell);
    &&& spec_varint_len(b, cp, 0) is Some
    &&& {
        let l0 = spec_varint_len(b, cp, 0)->Some_0;
        let plen = spec_varint_value(b, cp, l0) as int;
        &&& spec_varint_len(b, cp + l0, 0) is Some
        &&& {
            let l1 = spec_varint_len(b, cp + l0, 0)->Some_0;
            &&& rowid == spec_varint_value(b, cp + l0, l1) as i64
            &&& {
                let pstart = cp + l0 + l1;
                &&& pstart + plen <= b.len()
                &&& spec_record_matches(b, pstart, pstart + plen, row)
            }
        }
    }
}

/// The cell-pointer slot of cell `cell` lies inside the page and the page
/// carries a readable non-interior header: the bounds under which the
/// cell reader owes an answer.
pub open spec fn spec_leaf_cell_in_range(b: Seq<u8>, pgno: int, cell: int) -> bool {
    &&& spec_hdr(pgno) + 8 <= b.len()
    &&& spec_page_type(b, pgno) != INTERIOR_PAGE
    &&& cell <= 0xffff
    &&& spec_hdr(pgno) + 8 + 2 * cell + 2 <= b.len()
}

/// Some row is decodable from cell `cell` of the page.
pub open spec fn spec_leaf_cell_present(b: Seq<u8>, pgno: int, cell: int) -> bool {
    exists|rid: i64, row: Seq<SpecValue>| spec_leaf_cell_decodes(b, pgno, cell, rid, row)
}

/// Read the 2-byte big-endian integer at `i`.
pub fn read_be_u16(b: &Vec<u8>, i: usize) -> (r: u64)
    requires
        i + 2 <= b@.len(),
    ensures
        r == spec_be_uint(b@, i as int, 2),
        r <= 0xffff,
{
    // binds the length as a usize so the index sums stay in range
    let _len: usize = b.len();
    let x: u64 = b[i] as u64;
    let y: u64 = b[i + 1] as u64;
    let r: u64 = (x << 8) | y;
    proof {
        assert(spec_be_uint(b@, i as int, 0) == 0u64);
        assert(spec_be_uint(b@, i as int, 1) == (0u64 << 8) | x);
        assert((0u64 << 8) | x == x) by (bit_vector);
        assert(spec_be_uint(b@, i as int, 2) == (x << 8) | y);
        assert(x <= 0xff && y <= 0xff ==> ((x << 8) | y) <= 0xffff) by (bit_vector);
    }
    r
}

/// Read the 4-byte big-endian integer at `i`.
pub fn read_be_u32(b: &Vec<u8>, i: usize) -> (r: u64)
    requires
        i + 4 <= b@.len(),
    ensures
        r == spec_be_uint(b@, i as int, 4),
        r <= 0xffff_ffff,
{
    // binds the length as a usize so the index sums stay in range
    let _len: usize = b.len();
    let x0: u64 = b[i] as u64;
    let x1: u64 = b[i + 1] as u64;
    let x2: u64 = b[i + 2] as u64;
    let x3: u64 = b[i + 3] as u64;
    let r: u64 = (((((x0 << 8) | x1) << 8) | x2) << 8) | x3;
    proof {
        assert(spec_be_uint(b@, i as int, 0) == 0u64);
        assert(spec_be_uint(b@, i as int, 1) == (0u64 << 8) | x0);
        assert((0u64 << 8) | x0 == x0) by (bit_vector);
        assert(spec_be_uint(b@, i as int, 2) == (x0 << 8) | x1);
        assert(spec_be_uint(b@, i as int, 3) == (((x0 << 8) | x1) << 8) | x2);
        assert(spec_be_uint(b@, i as int, 4) == (((((x0 << 8) | x1) << 8) | x2) << 8) | x3);
        assert(x0 <= 0xff && x1 <= 0xff && x2 <= 0xff && x3 <= 0xff ==> ((((((x0 << 8) | x1) << 8)
            | x2) << 8) | x3) <= 0xffff_ffff) by (bit_vector);
    }
    r
}

/// Decode the `cell`-th cell of a leaf table page: rowid and record.
/// Succeeds whenever the cell-pointer slot is in range and the cell it
/// names decodes as some row; fails with `Corrupt` (or the decoder's
/// error) otherwise.
pub fn read_leaf_cell(pb: &Vec<u8>, pgno: usize, cell: usize) -> (r: Result<(i64, Record), DbError>)
    ensures
        r matches Ok(p) ==> spec_leaf_cell_decodes(pb@, pgno as int, cell as int, p.0, p.1@),
        (spec_leaf_cell_in_range(pb@, pgno as int, cell as int) && spec_leaf_cell_present(
            pb@,
            pgno as int,
            cell as int,
        )) ==> r is Ok,
{
    let pl: usize = pb.len();
    let hdr: usize = if pgno == 1 {
        100
    } else {
        0
    };
    if hdr + 8 > pl {
        return Err(DbError::Corrupt);
    }
    if pb[hdr] == INTERIOR_PAGE {
        return Err(DbError::Corrupt);
    }
    let base = hdr + 8;
    if cell > 0xffff || base + 2 * cell + 2 > pl {
        return Err(DbError::Corrupt);
    }
    let cp64 = read_be_u16(pb, base + 2 * cell);
    let cp = cp64 as usize;
    proof {
        assert(hdr as int == spec_hdr(pgno as int));
        assert(cp as int == spec_cell_ptr(pb@, pgno as int, cell as int));
    }
    let (plen, l0) = match parse_varint(pb, cp, pl) {
        None => {
            proof {
                if exists|rid: i64, row: Seq<SpecValue>| spec_leaf_cell_decodes(
                    pb@,
                    pgno as int,
                    cell as int,
                    rid,
                    row,
                ) {
                    lemma_varint_len_some(pb@, cp as int, 0);
                    assert(false);
                }
            }
            return Err(DbError::Corrupt);
        },
        Some(p) => p,
    };
    let (rid_u, l1) = match parse_varint(pb, cp + l0, pl) {
        None => {
            proof {
                if exists|rid: i64, row: Seq<SpecValue>| spec_leaf_cell_decodes(
                    pb@,
                    pgno as int,
                    cell as int,
                    rid,
                    row,
                ) {
                    lemma_varint_len_some(pb@, cp + l0, 0);
                    assert(false);
                }
            }
            return Err(DbError::Corrupt);
        },
        Some(p) => p,
    };
    let pstart = cp + l0 + l1;
    if plen > (pl - pstart) as u64 {
        proof {
            if exists|rid: i64, row: Seq<SpecValue>| spec_leaf_cell_decodes(
                pb@,
                pgno as int,
                cell as int,
                rid,
                row,
            ) {
                assert(false);
            }
        }
        return Err(DbError::Corrupt);
    }
    let pend = pstart + plen as usize;
    let rec = match decode_record(pb, pstart, pend) {
        Err(e) => {
            proof {
                if exists|rid: i64, row: Seq<SpecValue>| spec_leaf_cell_decodes(
                    pb@,
                    pgno as int,
                    cell as int,
                    rid,
                    row,
                ) {
                    let (rid, row): (i64, Seq<SpecValue>) = choose|rid: i64, row: Seq<SpecValue>|
                        spec_leaf_cell_decodes(pb@, pgno as int, cell as int, rid, row);
                    assert(spec_record_matches(pb@, pstart as int, pend as int, row));
                    assert(false);
                }
            }
            return Err(e);
        },
        Ok(rec) => rec,
    };
    let rid: i64 = #[verifier::truncate] (rid_u as i64);
    Ok((rid, rec))
}

/// Position of an open cursor.
pub enum CursorState {
    /// Just opened: no traversal has happened yet.
    Unpositioned,
    /// Positioned on a leaf cell. `path` is the chain of (page, child or
    /// cell index) pairs from the root down to the leaf, whose entry is
    /// last; `rowid` and `row` are the decoded content of that cell.
    At { path: Vec<(usize, usize)>, rowid: i64, row: Record },
    /// Past the last row (or the tree is empty).
    Exhausted,
}

/// A positioned iterator over one B-Tree, identified by its root page.
///
/// Operations that may fetch pages return `CursorResult::IO` after
/// enqueueing the fetch, leaving the cursor exactly as it was, so that
/// re-running the same operation after the page arrives continues
/// deterministically: suspension is replaced by restartable operations.
pub struct BTreeCursor {
    root_page: usize,
    state: CursorState,
}

/// Outcome of a leftmost descent.
enum Descend {
    IO,
    Leaf { path: Vec<(usize, usize)>, rowid: i64, row: Record },
    Empty,
}

impl BTreeCursor {
    pub closed spec fn spec_root(self) -> int {
        self.root_page as int
    }

    pub closed spec fn is_at(self) -> bool {
        self.state is At
    }

    pub closed spec fn is_exhausted(self) -> bool {
        self.state is Exhausted
    }

    pub closed spec fn is_unpositioned(self) -> bool {
        self.state is Unpositioned
    }

    /// The leaf page the cursor stands on.
    pub closed spec fn leaf_page(self) -> int {
        self.state->At_path@.last().0 as int
    }

    /// The cell index within that leaf.
    pub closed spec fn leaf_cell(self) -> int {
        self.state->At_path@.last().1 as int
    }

    /// The rowid of the current cell.
    pub closed spec fn cur_rowid(self) -> i64 {
        self.state->At_rowid
    }

    /// The decoded record of the current cell.
    pub closed spec fn cur_row(self) -> Seq<SpecValue> {
        self.state->At_row@
    }

    /// The traversal path held by a positioned cursor is never empty.
    pub closed spec fn path_nonempty(self) -> bool {
        self.state->At_path@.len() >= 1
    }

    /// Length of the traversal path of a positioned cursor: 1 when the
    /// leaf it stands on is the root itself.
    pub closed spec fn path_len(self) -> int {
        self.state->At_path@.len() as int
    }

    /// A positioned cursor stands on a real cell of a resident leaf page,
    /// and its cached rowid and record are that cell's decoded content.
    pub open spec fn valid_at(self, pager: Pager) -> bool {
        self.is_at() ==> {
            &&& self.path_nonempty()
            &&& pager.ready(self.leaf_page())
            &&& spec_page_type(pager.page_at(self.leaf_page()), self.leaf_page()) == LEAF_PAGE
            &&& 0 <= self.leaf_cell() < spec_ncells(
                pager.page_at(self.leaf_page()),
                self.leaf_page(),
            )
            &&& spec_leaf_cell_decodes(
                pager.page_at(self.leaf_page()),
                self.leaf_page(),
                self.leaf_cell(),
                self.cur_rowid(),
                self.cur_row(),
            )
        }
    }

    /// A cursor that stands on a valid cell keeps standing on it when the
    /// page cache grows: ready pages are never evicted and never change.
    pub proof fn lemma_valid_at_extended(c: BTreeCursor, p1: Pager, p2: Pager)
        requires
            c.valid_at(p1),
            p1.extended_by(p2),
        ensures
            c.valid_at(p2),
    {
        if c.is_at() {
            assert(p1.ready(c.leaf_page()));
            assert(p2.page_at(c.leaf_page()) == p1.page_at(c.leaf_page()));
        }
    }

    /// A cursor that has not been positioned stands on no cell at all, so
    /// it is trivially valid against any page cache.
    pub proof fn lemma_unpositioned_valid(c: BTreeCursor, p: Pager)
        requires
            c.is_unpositioned(),
        ensures
            c.valid_at(p),
    {
    }

    /// Open a cursor on the B-Tree rooted at `root_page`. No I/O happens;
    /// any needed page fetch is deferred to the first traversal.
    pub fn new(root_page: usize) -> (c: Self)
        ensures
            c.spec_root() == root_page,
            c.is_unpositioned(),
    {
        BTreeCursor { root_page, state: CursorState::Unpositioned }
    }

    /// Position the cursor on the first row: descend from the root along
    /// leftmost children to a leaf. On `IO` the cursor is unchanged and
    /// the same call is re-run after the page arrives; on `Ready` the
    /// cursor stands on the first cell, or is exhausted when the tree is
    /// empty.
    pub fn rewind(&mut self, pager: &mut Pager) -> (r: Result<CursorResult, DbError>)
        requires
            old(pager).wf(),
        ensures
            final(pager).wf(),
            old(pager).extended_by(*final(pager)),
            final(self).spec_root() == old(self).spec_root(),
            r matches Ok(CursorResult::IO) ==> *final(self) == *old(self),
            r is Err ==> *final(self) == *old(self),
            r matches Ok(CursorResult::Ready) ==> {
                &&& final(self).is_at() || final(self).is_exhausted()
                &&& final(self).valid_at(*final(pager))
            },
            (final(pager).ready(old(self).spec_root()) && spec_page_type(
                final(pager).page_at(old(self).spec_root()),
                old(self).spec_root(),
            ) == LEAF_PAGE) ==> !(r matches Ok(CursorResult::IO)),
            (final(pager).ready(old(self).spec_root()) && spec_page_type(
                final(pager).page_at(old(self).spec_root()),
                old(self).spec_root(),
            ) == LEAF_PAGE && spec_ncells(
                final(pager).page_at(old(self).spec_root()),
                old(self).spec_root(),
            ) == 0) ==> r == Ok::<CursorResult, DbError>(CursorResult::Ready)
                && final(self).is_exhausted(),
            (final(pager).ready(old(self).spec_root()) && spec_page_type(
                final(pager).page_at(old(self).spec_root()),
                old(self).spec_root(),
            ) == LEAF_PAGE && 0 < spec_ncells(
                final(pager).page_at(old(self).spec_root()),
                old(self).spec_root(),
            ) && spec_leaf_cell_in_range(
                final(pager).page_at(old(self).spec_root()),
                old(self).spec_root(),
                0,
            ) && spec_leaf_cell_present(
                final(pager).page_at(old(self).spec_root()),
                old(self).spec_root(),
                0,
            )) ==> r == Ok::<CursorResult, DbError>(CursorResult::Ready) && final(self).is_at()
                && final(self).leaf_page() == old(self).spec_root() && final(self).leaf_cell()
                == 0,
            (r matches Ok(CursorResult::Ready) && final(pager).ready(old(self).spec_root())
                && spec_page_type(
                final(pager).page_at(old(self).spec_root()),
                old(self).spec_root(),
            ) == LEAF_PAGE) ==> {
                &&& (final(self).is_exhausted() <==> spec_ncells(
                    final(pager).page_at(old(self).spec_root()),
                    old(self).spec_root(),
                ) == 0)
                &&& (final(self).is_at() ==> final(self).leaf_page() == old(self).spec_root()
                    && final(self).leaf_cell() == 0)
            },
    {
        let root = self.root_page;
        match descend_to_first(pager, root, Vec::new(), MAX_DEPTH) {
            Err(e) => Err(e),
            Ok(Descend::IO) => Ok(CursorResult::IO),
            Ok(Descend::Leaf { path, rowid, row }) => {
                self.state = CursorState::At { path, rowid, row };
                Ok(CursorResult::Ready)
            },
            Ok(Descend::Empty) => {
                self.state = CursorState::Exhausted;
                Ok(CursorResult::Ready)
            },
        }
    }

    /// Finalize the preceding asynchronous traversal step. The restartable
    /// operations commit their state as soon as no fetch is pending, so
    /// there is nothing left to do here.
    pub fn wait_for_completion(&mut self) -> (r: Result<(), DbError>)
        ensures
            *final(self) == *old(self),
            r is Ok,
    {
        Ok(())
    }

    /// True when the cursor does not stand on a valid cell.
    pub fn is_empty(&self) -> (b: bool)
        ensures
            b == !self.is_at(),
    {
        match &self.state {
            CursorState::At { .. } => false,
            _ => true,
        }
    }

    /// The current record, when positioned.
    pub fn record(&self) -> (r: Option<&Record>)
        ensures
            r matches Some(rec) ==> self.is_at() && rec@ == self.cur_row(),
            r is None <==> !self.is_at(),
    {
        match &self.state {
            CursorState::At { row, .. } => Some(row),
            _ => None,
        }
    }

    /// The current rowid, when positioned.
    pub fn rowid(&self) -> (r: Option<i64>)
        ensures
            r matches Some(rid) ==> self.is_at() && rid == self.cur_rowid(),
            r is None <==> !self.is_at(),
    {
        match &self.state {
            CursorState::At { rowid, .. } => Some(*rowid),
            _ => None,
        }
    }

    /// Advance to the next row. Within a leaf the cell index moves one
    /// step; at the end of a leaf the cursor ascends to the nearest
    /// ancestor with a further child and descends leftmost into it;
    /// running out of ancestors exhausts the cursor. On `IO` the cursor
    /// is unchanged and the same call is re-run after the page arrives.
    pub fn next(&mut self, pager: &mut Pager) -> (r: Result<CursorResult, DbError>)
        requires
            old(pager).wf(),
            old(self).valid_at(*old(pager)),
        ensures
            final(pager).wf(),
            old(pager).extended_by(*final(pager)),
            final(self).spec_root() == old(self).spec_root(),
            r matches Ok(CursorResult::IO) ==> *final(self) == *old(self),
            r is Err ==> *final(self) == *old(self),
            r matches Ok(CursorResult::Ready) ==> {
                &&& final(self).is_at() || final(self).is_exhausted()
                &&& final(self).valid_at(*final(pager))
            },
            old(self).is_exhausted() ==> r == Ok::<CursorResult, DbError>(CursorResult::Ready)
                && final(self).is_exhausted(),
            old(self).is_unpositioned() ==> r == Err::<CursorResult, DbError>(DbError::Internal),
            (r matches Ok(CursorResult::Ready) && old(self).is_at() && old(self).leaf_cell() + 1
                < spec_ncells(old(pager).page_at(old(self).leaf_page()), old(self).leaf_page()))
                ==> {
                &&& final(self).is_at()
                &&& final(self).leaf_page() == old(self).leaf_page()
                &&& final(self).leaf_cell() == old(self).leaf_cell() + 1
            },
            (r matches Ok(CursorResult::Ready) && old(self).is_at() && old(self).leaf_cell() + 1
                >= spec_ncells(old(pager).page_at(old(self).leaf_page()), old(self).leaf_page())
                && old(self).path_len() == 1) ==> final(self).is_exhausted(),
            (old(self).is_at() && old(self).leaf_cell() + 1 < spec_ncells(
                old(pager).page_at(old(self).leaf_page()),
                old(self).leaf_page(),
            ) && spec_leaf_cell_in_range(
                old(pager).page_at(old(self).leaf_page()),
                old(self).leaf_page(),
                old(self).leaf_cell() + 1,
            ) && spec_leaf_cell_present(
                old(pager).page_at(old(self).leaf_page()),
                old(self).leaf_page(),
                old(self).leaf_cell() + 1,
            )) ==> r == Ok::<CursorResult, DbError>(CursorResult::Ready),
    {
        let (leaf, cell) = match &self.state {
            CursorState::Unpositioned => {
                return Err(DbError::Internal);
            },
            CursorState::Exhausted => {
                return Ok(CursorResult::Ready);
            },
            CursorState::At { path, .. } => path[path.len() - 1],
        };
        // The leaf is resident: a positioned cursor keeps its page pinned.
        let pb = pager.page(leaf);
        let pl = pb.len();
        let hdr: usize = if leaf == 1 {
            100
        } else {
            0
        };
        if hdr + 8 > pl {
            return Err(DbError::Corrupt);
        }
        let ncells64 = read_be_u16(pb, hdr + 3);
        let ncells = ncells64 as usize;
        if cell + 1 < ncells {
            // advance within the leaf
            let (rowid, row) = match read_leaf_cell(pb, leaf, cell + 1) {
                Err(e) => {
                    return Err(e);
                },
                Ok(p) => p,
            };
            let path = match &self.state {
                CursorState::At { path, .. } => copy_path(path),
                _ => vstd::pervasive::unreached(),
            };
            let mut path = path;
            let n = path.len();
            path.set(n - 1, (leaf, cell + 1));
            proof {
                assert(path@.last() == (leaf, (cell + 1) as usize));
            }
            self.state = CursorState::At { path, rowid, row };
            return Ok(CursorResult::Ready);
        }
        // ascend to the nearest ancestor with a further child
        let mut path = match &self.state {
            CursorState::At { path, .. } => copy_path(path),
            _ => vstd::pervasive::unreached(),
        };
        path.pop();
        loop
            invariant
                pager.wf(),
                old(pager).extended_by(*pager),
                *self == *old(self),
                old(self).is_at(),
                old(self).valid_at(*old(pager)),
                old(self).leaf_cell() + 1 >= spec_ncells(
                    old(pager).page_at(old(self).leaf_page()),
                    old(self).leaf_page(),
                ),
                path@.len() <= old(self).path_len() - 1,
            decreases path@.len(),
        {
            let (pg, k) = match path.pop() {
                None => {
                    self.state = CursorState::Exhausted;
                    return Ok(CursorResult::Ready);
                },
                Some(e) => e,
            };
            if !pager.request_page(pg) {
                return Ok(CursorResult::IO);
            }
            let pb = pager.page(pg);
            let pl = pb.len();
            let hdr: usize = if pg == 1 {
                100
            } else {
                0
            };
            if hdr + 12 > pl {
                return Err(DbError::Corrupt);
            }
            if pb[hdr] != INTERIOR_PAGE {
                return Err(DbError::Corrupt);
            }
            let ncells = read_be_u16(pb, hdr + 3) as usize;
            if k < ncells {
                // descend into the next child of this ancestor
                let child = match interior_child(pb, pg, k + 1) {
                    Err(e) => {
                        return Err(e);
                    },
                    Ok(c) => c,
                };
                path.push((pg, k + 1));
                match descend_to_first(pager, child, path, MAX_DEPTH) {
                    Err(e) => {
                        return Err(e);
                    },
                    Ok(Descend::IO) => {
                        return Ok(CursorResult::IO);
                    },
                    Ok(Descend::Leaf { path, rowid, row }) => {
                        self.state = CursorState::At { path, rowid, row };
                        return Ok(CursorResult::Ready);
                    },
                    Ok(Descend::Empty) => {
                        self.state = CursorState::Exhausted;
                        return Ok(CursorResult::Ready);
                    },
                }
            }
        }
    }
}

/// Byte-for-byte copy of a traversal path.
fn copy_path(p: &Vec<(usize, usize)>) -> (r: Vec<(usize, usize)>)
    ensures
        r@ == p@,
{
    let mut r: Vec<(usize, usize)> = Vec::new();
    let mut i: usize = 0;
    while i < p.len()
        invariant
            i <= p@.len(),
            r@ == p@.subrange(0, i as int),
        decreases p@.len() - i,
    {
        r.push(p[i]);
        i = i + 1;
        proof {
            assert(r@ =~= p@.subrange(0, i as int));
        }
    }
    proof {
        assert(r@ =~= p@);
    }
    r
}

/// The `k`-th child page number of an interior page, for `k <= ncells`.
fn interior_child(pb: &Vec<u8>, pg: usize, k: usize) -> (r: Result<usize, DbError>)
    requires
        pb@.len() >= spec_hdr(pg as int) + 12,
        spec_page_type(pb@, pg as int) == INTERIOR_PAGE,
    ensures
        r matches Ok(c) ==> k as int <= spec_ncells(pb@, pg as int) && c == spec_child(
            pb@,
            pg as int,
            k as int,
        ) && 1 <= c,
{
    let pl = pb.len();
    let hdr: usize = if pg == 1 {
        100
    } else {
        0
    };
    let ncells = read_be_u16(pb, hdr + 3) as usize;
    if k > ncells {
        return Err(DbError::Corrupt);
    }
    let c64: u64 = if k == ncells {
        read_be_u32(pb, hdr + 8)
    } else {
        if hdr + 12 + 2 * k + 2 > pl {
            return Err(DbError::Corrupt);
        }
        let cp = read_be_u16(pb, hdr + 12 + 2 * k) as usize;
        if cp + 4 > pl {
            return Err(DbError::Corrupt);
        }
        read_be_u32(pb, cp)
    };
    if c64 == 0 {
        return Err(DbError::Corrupt);
    }
    Ok(c64 as usize)
}

/// Descend from `page_no` along leftmost children until a leaf, extending
/// `path`. `Leaf` carries the grown path, positioned on cell 0 of the
/// leaf, with that cell decoded; `Empty` means the first leaf has no
/// cells; `IO` means a page fetch was enqueued and nothing was decided.
fn descend_to_first(pager: &mut Pager, page_no: usize, path: Vec<(usize, usize)>, fuel: usize) -> (r:
    Result<Descend, DbError>)
    requires
        old(pager).wf(),
    ensures
        final(pager).wf(),
        old(pager).extended_by(*final(pager)),
        r matches Ok(Descend::Leaf { path: p2, rowid, row }) ==> {
            &&& p2@.len() >= 1
            &&& final(pager).ready(p2@.last().0 as int)
            &&& spec_page_type(final(pager).page_at(p2@.last().0 as int), p2@.last().0 as int)
                == LEAF_PAGE
            &&& p2@.last().1 == 0
            &&& 0 < spec_ncells(final(pager).page_at(p2@.last().0 as int), p2@.last().0 as int)
            &&& spec_leaf_cell_decodes(
                final(pager).page_at(p2@.last().0 as int),
                p2@.last().0 as int,
                0,
                rowid,
                row@,
            )
        },
        (final(pager).ready(page_no as int) && spec_page_type(
            final(pager).page_at(page_no as int),
            page_no as int,
        ) == LEAF_PAGE) ==> {
            &&& !(r matches Ok(Descend::IO))
            &&& (r matches Ok(Descend::Empty) ==> spec_ncells(
                final(pager).page_at(page_no as int),
                page_no as int,
            ) == 0)
            &&& ((fuel > 0 && spec_ncells(final(pager).page_at(page_no as int), page_no as int)
                == 0) ==> r matches Ok(Descend::Empty))
            &&& ((fuel > 0 && 0 < spec_ncells(final(pager).page_at(page_no as int), page_no as int)
                && spec_leaf_cell_in_range(final(pager).page_at(page_no as int), page_no as int, 0)
                && spec_leaf_cell_present(
                final(pager).page_at(page_no as int),
                page_no as int,
                0,
            )) ==> r matches Ok(Descend::Leaf { .. }))
            &&& (r matches Ok(Descend::Leaf { path: p2, .. }) ==> p2@.last().0 == page_no)
        },
    decreases fuel,
{
    if fuel == 0 {
        return Err(DbError::Corrupt);
    }
    if !pager.request_page(page_no) {
        return Ok(Descend::IO);
    }
    let pb = pager.page(page_no);
    let pl = pb.len();
    proof {
        assert(pager.ready(page_no as int));
        pager.lemma_ready_page_size(page_no as int);
    }
    let hdr: usize = if page_no == 1 {
        100
    } else {
        0
    };
    if hdr + 8 > pl {
        return Err(DbError::Corrupt);
    }
    let ptype = pb[hdr];
    let ncells = read_be_u16(pb, hdr + 3) as usize;
    if ptype == LEAF_PAGE {
        if ncells == 0 {
            return Ok(Descend::Empty);
        }
        let (rowid, row) = match read_leaf_cell(pb, page_no, 0) {
            Err(e) => {
                return Err(e);
            },
            Ok(p) => p,
        };
        let mut path = path;
        path.push((page_no, 0));
        proof {
            assert(path@.last() == (page_no, 0usize));
        }
        return Ok(Descend::Leaf { path, rowid, row });
    }
    if ptype != INTERIOR_PAGE {
        return Err(DbError::Corrupt);
    }
    if hdr + 12 > pl {
        return Err(DbError::Corrupt);
    }
    let child = match interior_child(pb, page_no, 0) {
        Err(e) => {
            return Err(e);
        },
        Ok(c) => c,
    };
    let mut path = path;
    path.push((page_no, 0));
    descend_to_first(pager, child, path, fuel - 1)
}

} // verus!
