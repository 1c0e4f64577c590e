//! Chain storage as the sync engine sees it: markers, block headers, canonical
//! state diffs and ommer (orphaned) state diffs; the reorg detector and the
//! commit router.

use crate::diff::StateDiff;
use vstd::prelude::*;

verus! {

/// Position of a block in the chain.
pub type BlockNumber = u64;

/// Identifier of a block's content.
pub type BlockHash = u64;

/// Class hash to full class body, for classes first seen in a diff.
pub type ClassDefinitions = Vec<(u64, Vec<u8>)>;

/// How an observed `(block number, hash)` pair relates to stored headers.
#[derive(Clone, Copy, Debug, PartialEq, Eq)]
pub enum Verdict {
    /// No header is stored for that number yet.
    Unknown,
    /// The stored header has the observed hash.
    Confirmed,
    /// A header with another hash is stored: the block was superseded.
    Diverged,
}

/// Why a write to the store was refused.
#[derive(Clone, Copy, Debug, PartialEq, Eq)]
pub enum StoreError {
    /// The diff is not for the next block of the state marker.
    MarkerMismatch { expected: BlockNumber, found: BlockNumber },
    /// The diff would move the state marker past the header marker.
    AheadOfHeaders { header_marker: BlockNumber, found: BlockNumber },
    /// An ommer diff with that hash is stored already.
    OmmerExists { block_hash: BlockHash },
}

/// What the commit router did with one item.
#[derive(Clone, Copy, Debug, PartialEq, Eq)]
pub enum RouteOutcome {
    /// Appended to canonical storage; the state marker advanced.
    Committed,
    /// Not diverged, but the canonical append was refused; nothing changed.
    CommitSkipped(StoreError),
    /// Diverged: recorded as an ommer keyed by its hash.
    Quarantined,
    /// Diverged, but the ommer insert was refused; nothing changed.
    QuarantineSkipped(StoreError),
}

/// A state diff committed to canonical storage.
#[derive(Debug, PartialEq, Eq)]
pub struct CanonicalStateDiff {
    pub state_diff: StateDiff,
    pub class_definitions: ClassDefinitions,
}

/// A state diff of a block that turned out not to be canonical.
#[derive(Debug, PartialEq, Eq)]
pub struct OmmerStateDiff {
    pub block_hash: BlockHash,
    pub state_diff: StateDiff,
    pub class_definitions: ClassDefinitions,
}

/// The verdict for a stored header (if any) and an observed hash.
pub open spec fn verdict_of(stored: Option<BlockHash>, observed: BlockHash) -> Verdict {
    match stored {
        None => Verdict::Unknown,
        Some(h) => if h == observed {
            Verdict::Confirmed
        } else {
            Verdict::Diverged
        },
    }
}

/// The storage the sync engine reads and writes. The header marker is the
/// number of header slots; a slot may lack the header's hash while the header
/// itself has not been stored. The state marker is the number of canonical
/// state diffs, and never exceeds the header marker.
pub struct ChainStore {
    headers: Vec<Option<BlockHash>>,
    state_diffs: Vec<CanonicalStateDiff>,
    ommers: Vec<OmmerStateDiff>,
}

impl ChainStore {
    pub closed spec fn headers_view(&self) -> Seq<Option<BlockHash>> {
        self.headers@
    }

    pub closed spec fn canonical(&self) -> Seq<CanonicalStateDiff> {
        self.state_diffs@
    }

    pub closed spec fn ommers_view(&self) -> Seq<OmmerStateDiff> {
        self.ommers@
    }

    pub open spec fn header_marker_spec(&self) -> nat {
        self.headers_view().len()
    }

    pub open spec fn state_marker_spec(&self) -> nat {
        self.canonical().len()
    }

    /// The stored header hash of block `n`, if any.
    pub open spec fn header_at(&self, n: BlockNumber) -> Option<BlockHash> {
        if n < self.header_marker_spec() {
            self.headers_view()[n as int]
        } else {
            None
        }
    }

    pub open spec fn has_ommer(&self, h: BlockHash) -> bool {
        exists|i: int| 0 <= i < self.ommers_view().len() && #[trigger] self.ommers_view()[i].block_hash == h
    }

    /// The error a canonical append at `n` meets, if any.
    pub open spec fn append_error(&self, n: BlockNumber) -> Option<StoreError> {
        if n != self.state_marker_spec() {
            Some(StoreError::MarkerMismatch { expected: self.state_marker_spec() as u64, found: n })
        } else if n >= self.header_marker_spec() {
            Some(StoreError::AheadOfHeaders { header_marker: self.header_marker_spec() as u64, found: n })
        } else {
            None
        }
    }

    /// The state marker never exceeds the header marker, and both fit in a block number.
    pub open spec fn wf(&self) -> bool {
        &&& self.state_marker_spec() <= self.header_marker_spec()
        &&& self.header_marker_spec() <= u64::MAX
    }

    /// An empty store: both markers at zero.
    pub fn new() -> (r: ChainStore)
        ensures
            r.wf(),
            r.headers_view() == Seq::<Option<BlockHash>>::empty(),
            r.canonical() == Seq::<CanonicalStateDiff>::empty(),
            r.ommers_view() == Seq::<OmmerStateDiff>::empty(),
    {
        ChainStore { headers: Vec::new(), state_diffs: Vec::new(), ommers: Vec::new() }
    }

    /// The next block whose header is not stored yet.
    pub fn get_header_marker(&self) -> (r: BlockNumber)
        requires
            self.wf(),
        ensures
            r == self.header_marker_spec(),
    {
        self.headers.len() as u64
    }

    /// The next block whose state diff is not committed yet.
    pub fn get_state_marker(&self) -> (r: BlockNumber)
        requires
            self.wf(),
        ensures
            r == self.state_marker_spec(),
    {
        self.state_diffs.len() as u64
    }

    /// The stored header hash of block `n`, if any.
    pub fn get_block_header(&self, n: BlockNumber) -> (r: Option<BlockHash>)
        requires
            self.wf(),
        ensures
            r == self.header_at(n),
    {
        if n < self.headers.len() as u64 {
            self.headers[n as usize]
        } else {
            None
        }
    }

    /// Advances the header marker by one; `block_hash` is the new header's
    /// hash, or `None` where the marker moves before the header is stored.
    pub fn append_header(&mut self, block_hash: Option<BlockHash>)
        requires
            old(self).wf(),
            old(self).header_marker_spec() < u64::MAX,
        ensures
            final(self).wf(),
            final(self).state_marker_spec() == old(self).state_marker_spec(),
            final(self).header_marker_spec() == old(self).header_marker_spec() + 1,
            final(self).headers_view() == old(self).headers_view().push(block_hash),
            final(self).canonical() == old(self).canonical(),
            final(self).ommers_view() == old(self).ommers_view(),
    {
        self.headers.push(block_hash);
    }

    /// Commits the diff of block `n` to canonical storage, advancing the state
    /// marker by one. Refused, with nothing changed, unless `n` is the state
    /// marker and lies below the header marker.
    pub fn append_state_diff(
        &mut self,
        n: BlockNumber,
        state_diff: StateDiff,
        class_definitions: ClassDefinitions,
    ) -> (r: Result<(), StoreError>)
        requires
            old(self).wf(),
        ensures
            final(self).wf(),
            final(self).state_marker_spec() >= old(self).state_marker_spec(),
            final(self).headers_view() == old(self).headers_view(),
            final(self).ommers_view() == old(self).ommers_view(),
            match old(self).append_error(n) {
                Some(e) => r == Err::<(), StoreError>(e) && final(self).canonical() == old(self).canonical(),
                None => r is Ok && final(self).canonical() == old(self).canonical().push(
                    (CanonicalStateDiff { state_diff, class_definitions }),
                ),
            },
    {
        let state_marker = self.state_diffs.len() as u64;
        let header_marker = self.headers.len() as u64;
        if n != state_marker {
            return Err(StoreError::MarkerMismatch { expected: state_marker, found: n });
        }
        if n >= header_marker {
            return Err(StoreError::AheadOfHeaders { header_marker, found: n });
        }
        self.state_diffs.push(CanonicalStateDiff { state_diff, class_definitions });
        Ok(())
    }

    /// The committed diff of block `n`, if its diff is committed.
    pub fn get_state_diff(&self, n: BlockNumber) -> (r: Option<&StateDiff>)
        requires
            self.wf(),
        ensures
            r.is_some() <==> n < self.state_marker_spec(),
            r.is_some() ==> *r.unwrap() == self.canonical()[n as int].state_diff,
    {
        if n < self.state_diffs.len() as u64 {
            Some(&self.state_diffs[n as usize].state_diff)
        } else {
            None
        }
    }

    /// The position of the ommer diff stored under `h`, if any.
    pub fn find_ommer(&self, h: BlockHash) -> (r: Option<usize>)
        ensures
            r.is_some() <==> self.has_ommer(h),
            r.is_some() ==> r.unwrap() < self.ommers_view().len()
                && self.ommers_view()[r.unwrap() as int].block_hash == h,
    {
        let mut i: usize = 0;
        while i < self.ommers.len()
            invariant
                i <= self.ommers@.len(),
                forall|j: int| 0 <= j < i ==> #[trigger] self.ommers@[j].block_hash != h,
            decreases self.ommers@.len() - i,
        {
            if self.ommers[i].block_hash == h {
                proof {
                    assert(self.ommers_view()[i as int].block_hash == h);
                }
                return Some(i);
            }
            i = i + 1;
        }
        None
    }

    /// The ommer diff stored under `h`, if any.
    pub fn get_ommer(&self, h: BlockHash) -> (r: Option<&OmmerStateDiff>)
        ensures
            r.is_some() <==> self.has_ommer(h),
            r.is_some() ==> r.unwrap().block_hash == h && self.ommers_view().contains(*r.unwrap()),
    {
        match self.find_ommer(h) {
            Some(i) => {
                proof {
                    assert(self.ommers_view()[i as int] == self.ommers@[i as int]);
                }
                Some(&self.ommers[i])
            },
            None => None,
        }
    }

    /// The number of ommer diffs stored.
    pub fn ommer_count(&self) -> (r: usize)
        ensures
            r == self.ommers_view().len(),
    {
        self.ommers.len()
    }

    /// Records the diff of a non-canonical block under its hash. Refused, with
    /// nothing changed, where an ommer diff with that hash is stored already.
    /// Canonical storage and the markers are never touched.
    pub fn insert_ommer_state_diff(
        &mut self,
        block_hash: BlockHash,
        state_diff: StateDiff,
        class_definitions: ClassDefinitions,
    ) -> (r: Result<(), StoreError>)
        requires
            old(self).wf(),
        ensures
            final(self).wf(),
            final(self).state_marker_spec() == old(self).state_marker_spec(),
            final(self).headers_view() == old(self).headers_view(),
            final(self).canonical() == old(self).canonical(),
            if old(self).has_ommer(block_hash) {
                r == Err::<(), StoreError>(StoreError::OmmerExists { block_hash })
                    && final(self).ommers_view() == old(self).ommers_view()
            } else {
                r is Ok && final(self).ommers_view() == old(self).ommers_view().push(
                    (OmmerStateDiff { block_hash, state_diff, class_definitions }),
                )
            },
    {
        if self.find_ommer(block_hash).is_some() {
            return Err(StoreError::OmmerExists { block_hash });
        }
        self.ommers.push(OmmerStateDiff { block_hash, state_diff, class_definitions });
        Ok(())
    }
}

/// Whether block `n` was reverted: `Some(true)` where a header with another
/// hash is stored, `Some(false)` where the stored header has hash `h`, `None`
/// where no header is stored for `n`.
pub fn is_reverted(store: &ChainStore, n: BlockNumber, h: BlockHash) -> (r: Option<bool>)
    requires
        store.wf(),
    ensures
        r == match store.header_at(n) {
            None => None::<bool>,
            Some(stored) => Some(stored != h),
        },
{
    match store.get_block_header(n) {
        Some(stored) => Some(stored != h),
        None => None,
    }
}

/// The reorg detector: how `(n, h)` relates to the stored header of `n`.
pub fn classify(store: &ChainStore, n: BlockNumber, h: BlockHash) -> (r: Verdict)
    requires
        store.wf(),
    ensures
        r == verdict_of(store.header_at(n), h),
{
    match is_reverted(store, n, h) {
        None => Verdict::Unknown,
        Some(false) => Verdict::Confirmed,
        Some(true) => Verdict::Diverged,
    }
}

/// The commit router. Classifies `(n, h)` again against the store as it is
/// now. Unless diverged, appends the diff canonically at `n`; where that is
/// refused the item is skipped. Where diverged, records the diff as an ommer
/// keyed by `h`, leaving canonical storage alone; where that is refused the
/// item is skipped. The header slots never change.
pub fn store_state_diff(
    store: &mut ChainStore,
    n: BlockNumber,
    h: BlockHash,
    state_diff: StateDiff,
    class_definitions: ClassDefinitions,
) -> (r: RouteOutcome)
    requires
        old(store).wf(),
    ensures
        final(store).wf(),
        final(store).headers_view() == old(store).headers_view(),
        final(store).state_marker_spec() >= old(store).state_marker_spec(),
        verdict_of(old(store).header_at(n), h) == Verdict::Diverged ==> {
            &&& final(store).canonical() == old(store).canonical()
            &&& if old(store).has_ommer(h) {
                r == RouteOutcome::QuarantineSkipped(StoreError::OmmerExists { block_hash: h })
                    && final(store).ommers_view() == old(store).ommers_view()
            } else {
                r == RouteOutcome::Quarantined && final(store).ommers_view()
                    == old(store).ommers_view().push(
                    (OmmerStateDiff { block_hash: h, state_diff, class_definitions }),
                )
            }
        },
        verdict_of(old(store).header_at(n), h) != Verdict::Diverged ==> {
            &&& final(store).ommers_view() == old(store).ommers_view()
            &&& match old(store).append_error(n) {
                Some(e) => r == RouteOutcome::CommitSkipped(e) && final(store).canonical()
                    == old(store).canonical(),
                None => r == RouteOutcome::Committed && final(store).canonical()
                    == old(store).canonical().push(
                    (CanonicalStateDiff { state_diff, class_definitions }),
                ),
            }
        },
{
    match classify(store, n, h) {
        Verdict::Diverged => match store.insert_ommer_state_diff(h, state_diff, class_definitions) {
            Ok(()) => RouteOutcome::Quarantined,
            Err(e) => RouteOutcome::QuarantineSkipped(e),
        },
        _ => match store.append_state_diff(n, state_diff, class_definitions) {
            Ok(()) => RouteOutcome::Committed,
            Err(e) => RouteOutcome::CommitSkipped(e),
        },
    }
}

/// An item whose hash differs from the stored header of its block is
/// diverged, so the commit router never appends it canonically: at most it
/// records it as an ommer under the item's own hash.
pub proof fn lemma_mismatched_hash_diverges(
    store: ChainStore,
    n: BlockNumber,
    stored: BlockHash,
    incoming: BlockHash,
)
    requires
        store.wf(),
        store.header_at(n) == Some(stored),
        stored != incoming,
    ensures
        verdict_of(store.header_at(n), incoming) == Verdict::Diverged,
{
}

/// An item for a block with no stored header is unknown, not diverged: the
/// commit router offers it to canonical storage and never quarantines it.
pub proof fn lemma_unknown_header_not_quarantined(store: ChainStore, n: BlockNumber, h: BlockHash)
    requires
        store.wf(),
        store.header_at(n) == None::<BlockHash>,
    ensures
        verdict_of(store.header_at(n), h) == Verdict::Unknown,
        verdict_of(store.header_at(n), h) != Verdict::Diverged,
{
}

} // verus!
