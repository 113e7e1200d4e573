use vstd::prelude::*;

verus! {

/// Readiness state of one cached page frame.
pub enum FrameState {
    /// No fetch has been requested for this page.
    Empty,
    /// A fetch has been enqueued; the bytes have not arrived yet.
    Loading,
    /// The page bytes are resident and stable.
    Ready(Vec<u8>),
}

/// The page cache and fetcher.
///
/// Pages are 1-indexed, as in the on-disk format. A cache miss does not
/// block: `request_page` records the page as `Loading` and the caller's
/// I/O backend later delivers the bytes through `complete_page`. Ready
/// frames are never evicted and never change, so every operation that
/// observed a page as ready can be re-driven to the same outcome.
pub struct Pager {
    page_size: usize,
    frames: Vec<FrameState>,
}

impl Pager {
    /// The fixed page size, a multiple of 512.
    pub closed spec fn spec_page_size(self) -> int {
        self.page_size as int
    }

    /// True when the bytes of page `idx` are resident.
    pub closed spec fn ready(self, idx: int) -> bool {
        0 <= idx < self.frames@.len() && self.frames@[idx] is Ready
    }

    /// The resident bytes of page `idx`.
    pub closed spec fn page_at(self, idx: int) -> Seq<u8> {
        self.frames@[idx]->Ready_0@
    }

    /// True when a fetch of page `idx` has been enqueued and not completed.
    pub closed spec fn loading(self, idx: int) -> bool {
        0 <= idx < self.frames@.len() && self.frames@[idx] is Loading
    }

    /// Every resident page holds exactly one page worth of bytes.
    pub closed spec fn wf(self) -> bool {
        &&& 512 <= self.page_size
        &&& forall|i: int| self.ready(i) ==> #[trigger] self.page_at(i).len() == self.page_size
    }

    /// `other` holds every page `self` holds, unchanged, and no page has
    /// gone back from enqueued to unrequested.
    pub open spec fn extended_by(self, other: Pager) -> bool {
        &&& other.spec_page_size() == self.spec_page_size()
        &&& forall|i: int| #[trigger] self.ready(i) ==> other.ready(i) && other.page_at(i)
            == self.page_at(i)
        &&& forall|i: int| #[trigger] self.loading(i) ==> other.ready(i) || other.loading(i)
    }

    /// A resident page of a well-formed pager holds exactly one page
    /// worth of bytes, and pages are at least 512 bytes.
    pub proof fn lemma_ready_page_size(self, idx: int)
        requires
            self.wf(),
            self.ready(idx),
        ensures
            self.page_at(idx).len() == self.spec_page_size(),
            512 <= self.spec_page_size(),
    {
    }

    /// Growing the cache is transitive: whatever survives one step and
    /// then another survives both.
    pub proof fn lemma_extended_trans(a: Pager, b: Pager, c: Pager)
        requires
            a.extended_by(b),
            b.extended_by(c),
        ensures
            a.extended_by(c),
    {
        assert forall|i: int| a.ready(i) implies #[trigger] c.ready(i) && c.page_at(i)
            == a.page_at(i) by {
            assert(b.ready(i) && b.page_at(i) == a.page_at(i));
        }
        assert forall|i: int| a.loading(i) implies #[trigger] c.ready(i) || c.loading(i) by {
            assert(b.ready(i) || b.loading(i));
        }
    }

    pub fn new(page_size: usize) -> (p: Pager)
        requires
            512 <= page_size,
        ensures
            p.wf(),
            p.spec_page_size() == page_size,
            forall|i: int| !p.ready(i) && !p.loading(i),
    {
        Pager { page_size, frames: Vec::new() }
    }

    pub fn page_size(&self) -> (n: usize)
        ensures
            n == self.spec_page_size(),
    {
        self.page_size
    }

    /// Ask for page `idx`. Returns true when the page is resident; when it
    /// is not, the page is recorded as `Loading` (idempotently) and false
    /// is returned, meaning I/O is pending.
    pub fn request_page(&mut self, idx: usize) -> (ready: bool)
        requires
            old(self).wf(),
        ensures
            final(self).wf(),
            old(self).extended_by(*final(self)),
            ready == old(self).ready(idx as int),
            !ready ==> final(self).loading(idx as int) && !final(self).ready(idx as int),
            final(self).loading(idx as int) == (!ready && (old(self).loading(idx as int) || !old(self).ready(idx as int))),
            forall|j: int| j != idx ==> #[trigger] final(self).ready(j) == old(self).ready(j)
                && final(self).loading(j) == old(self).loading(j),
            forall|j: int| final(self).ready(j) ==> #[trigger] final(self).page_at(j) == old(self).page_at(j),
    {
        while self.frames.len() <= idx
            invariant
                old(self).wf(),
                self.page_size == old(self).page_size,
                self.frames@.len() >= old(self).frames@.len(),
                self.frames@.len() <= idx + 1 || self.frames@ == old(self).frames@,
                forall|j: int| 0 <= j < old(self).frames@.len() ==> self.frames@[j] == old(self).frames@[j],
                forall|j: int| old(self).frames@.len() <= j < self.frames@.len()
                    ==> #[trigger] self.frames@[j] is Empty,
            decreases idx + 1 - self.frames.len(),
        {
            self.frames.push(FrameState::Empty);
        }
        proof {
            if self.frames@.len() != old(self).frames@.len() {
                assert(self.frames@[idx as int] is Empty);
            } else {
                assert(self.frames@ =~= old(self).frames@);
            }
            assert forall|j: int| self.ready(j) implies #[trigger] self.page_at(j).len()
                == self.page_size as int by {
                assert(old(self).ready(j));
                assert(old(self).page_at(j).len() == old(self).page_size as int);
                assert(self.page_at(j) == old(self).page_at(j));
            }
        }
        match &self.frames[idx] {
            FrameState::Ready(_) => {
                proof {
                    assert(self.frames@ =~= old(self).frames@);
                }
                true
            },
            FrameState::Loading => {
                false
            },
            FrameState::Empty => {
                let ghost pre = *self;
                self.frames.set(idx, FrameState::Loading);
                proof {
                    assert forall|j: int| self.ready(j) implies #[trigger] self.page_at(j).len()
                        == self.page_size as int by {
                        assert(j != idx as int);
                        assert(pre.ready(j) && old(self).ready(j));
                        assert(old(self).page_at(j).len() == old(self).page_size as int);
                        assert(self.page_at(j) == old(self).page_at(j));
                    }
                    assert forall|j: int| old(self).ready(j) implies #[trigger] self.ready(j)
                        && self.page_at(j) == old(self).page_at(j) by {
                        assert(j != idx as int);
                    }
                }
                false
            },
        }
    }

    /// The resident bytes of page `idx`.
    pub fn page(&self, idx: usize) -> (b: &Vec<u8>)
        requires
            self.ready(idx as int),
        ensures
            b@ == self.page_at(idx as int),
    {
        match &self.frames[idx] {
            FrameState::Ready(b) => b,
            _ => vstd::pervasive::unreached(),
        }
    }

    /// The pages whose fetches are enqueued and not yet completed; the
    /// caller's I/O backend reads each one and hands the bytes back
    /// through `complete_page`.
    pub fn pending_pages(&self) -> (v: Vec<usize>)
        ensures
            forall|k: int| 0 <= k < v@.len() ==> #[trigger] self.loading(v@[k] as int),
            forall|i: int| #[trigger] self.loading(i) ==> exists|k: int| 0 <= k < v@.len() && v@[k] == i,
    {
        let mut v: Vec<usize> = Vec::new();
        let mut i: usize = 0;
        while i < self.frames.len()
            invariant
                i <= self.frames@.len(),
                forall|k: int| 0 <= k < v@.len() ==> #[trigger] self.loading(v@[k] as int),
                forall|j: int| 0 <= j < i && #[trigger] self.loading(j)
                    ==> exists|k: int| 0 <= k < v@.len() && v@[k] == j,
            decreases self.frames@.len() - i,
        {
            let is_loading = match &self.frames[i] {
                FrameState::Loading => true,
                _ => false,
            };
            let ghost prev = v@;
            if is_loading {
                v.push(i);
            }
            proof {
                assert forall|j: int| 0 <= j < i + 1 && #[trigger] self.loading(j)
                    implies exists|k: int| 0 <= k < v@.len() && v@[k] == j by {
                    if j == i as int {
                        assert(v@[v@.len() - 1] == j);
                    } else {
                        let k = choose|k: int| 0 <= k < prev.len() && prev[k] == j;
                        assert(v@[k] == j);
                    }
                }
            }
            i = i + 1;
        }
        v
    }

    /// Deliver the bytes of a page whose fetch was enqueued. The frame
    /// becomes `Ready` and stays so; no other frame changes.
    pub fn complete_page(&mut self, idx: usize, bytes: Vec<u8>)
        requires
            old(self).wf(),
            old(self).loading(idx as int),
            bytes@.len() == old(self).spec_page_size(),
        ensures
            final(self).wf(),
            old(self).extended_by(*final(self)),
            final(self).ready(idx as int),
            final(self).page_at(idx as int) == bytes@,
            forall|j: int| j != idx ==> #[trigger] final(self).ready(j) == old(self).ready(j)
                && final(self).loading(j) == old(self).loading(j)
                && (final(self).ready(j) ==> final(self).page_at(j) == old(self).page_at(j)),
    {
        self.frames.set(idx, FrameState::Ready(bytes));
        proof {
            assert forall|j: int| self.ready(j) implies #[trigger] self.page_at(j).len()
                == self.page_size as int by {
                if j != idx as int {
                    assert(old(self).ready(j));
                    assert(old(self).page_at(j).len() == old(self).page_size as int);
                    assert(self.page_at(j) == old(self).page_at(j));
                } else {
                    assert(self.page_at(j) == bytes@);
                }
            }
            assert forall|j: int| old(self).ready(j) implies #[trigger] self.ready(j)
                && self.page_at(j) == old(self).page_at(j) by {
                assert(j != idx as int);
            }
        }
    }
}

} // verus!
