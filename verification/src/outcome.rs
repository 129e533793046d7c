//! Outcomes of store operations, and the store as the contracts model it.
//!
//! The backing key-value store is a remote service.  The library never talks
//! to it; it only receives what the store reported and decides the HTTP
//! answer.  For stating laws about whole exchanges, the store is modelled as
//! a map from keys to values, both raw bytes; a write inserts, a delete
//! removes, and a failure-free read finds exactly what the map holds.
//! Expiration is not part of the model: the laws speak of reads that happen
//! while a written entry is still live.

use vstd::prelude::*;

verus! {

/// What a read against the backing store reported.
pub enum ReadOutcome {
    /// The key was present; holds the stored value as raw bytes.
    Found(Vec<u8>),
    /// The key was absent.
    Absent,
    /// The transport or the store itself failed.
    Failed,
}

/// What a write or a delete against the backing store reported.
pub enum StoreAck {
    /// The store acknowledged the operation.
    Acked,
    /// The transport or the store itself failed.
    Failed,
}

/// Mathematical counterpart of `ReadOutcome`.
pub ghost enum ReadOutcomeView {
    Found(Seq<u8>),
    Absent,
    Failed,
}

impl View for ReadOutcome {
    type V = ReadOutcomeView;

    open spec fn view(&self) -> ReadOutcomeView {
        match self {
            ReadOutcome::Found(v) => ReadOutcomeView::Found(v@),
            ReadOutcome::Absent => ReadOutcomeView::Absent,
            ReadOutcome::Failed => ReadOutcomeView::Failed,
        }
    }
}

/// The store after a write of `v` at `k`: the entry is created or
/// overwritten, whatever was there before.
pub open spec fn store_after_put(m: Map<Seq<u8>, Seq<u8>>, k: Seq<u8>, v: Seq<u8>) -> Map<
    Seq<u8>,
    Seq<u8>,
> {
    m.insert(k, v)
}

/// The store after a delete of `k`: the entry is gone, if it was there.
pub open spec fn store_after_delete(m: Map<Seq<u8>, Seq<u8>>, k: Seq<u8>) -> Map<Seq<u8>, Seq<u8>> {
    m.remove(k)
}

/// What a failure-free read of `k` reports: the stored value when the key is
/// present, absence otherwise.
pub open spec fn store_read(m: Map<Seq<u8>, Seq<u8>>, k: Seq<u8>) -> ReadOutcomeView {
    if m.contains_key(k) {
        ReadOutcomeView::Found(m[k])
    } else {
        ReadOutcomeView::Absent
    }
}

} // verus!
