//! The cell asset store: the process-wide cache of decoded cell assets
//! keyed by asset identity, and the load/change events the synchronizer
//! reacts to.  A failed decode publishes nothing: the previous asset, if
//! any, stays authoritative.

use vstd::prelude::*;

use crate::decode::{decode_cell, spec_decode_cell, Cell, CellV, SkippedAttribute};
use crate::registry::AttributeRegistry;
use crate::shape::CellError;

verus! {

/// A load or change notification for one asset identity.
#[derive(Clone, Copy, Debug, PartialEq, Eq, Structural)]
pub enum AssetEvent {
    Added { id: u64 },
    Modified { id: u64 },
    LoadedWithDependencies { id: u64 },
}

pub open spec fn event_id(e: AssetEvent) -> u64 {
    match e {
        AssetEvent::Added { id } => id,
        AssetEvent::Modified { id } => id,
        AssetEvent::LoadedWithDependencies { id } => id,
    }
}

/// The asset under `id`, if the store holds one: the first entry wins, and
/// the store keeps identities unique.
pub open spec fn spec_get(entries: Seq<(u64, CellV)>, id: u64) -> Option<CellV>
    decreases entries.len(),
{
    if entries.len() == 0 {
        None
    } else if entries[0].0 == id {
        Some(entries[0].1)
    } else {
        spec_get(entries.drop_first(), id)
    }
}

/// The store itself.
pub struct CellStore {
    pub entries: Vec<(u64, Cell)>,
}

impl View for CellStore {
    type V = Seq<(u64, CellV)>;

    open spec fn view(&self) -> Seq<(u64, CellV)> {
        self.entries@.map_values(|e: (u64, Cell)| (e.0, e.1@))
    }
}

impl CellStore {
    pub open spec fn wf(self) -> bool {
        forall|i: int, j: int|
            0 <= i < j < self@.len() ==> (#[trigger] self@[i]).0 != (#[trigger] self@[j]).0
    }

    pub fn new() -> (r: CellStore)
        ensures
            r@ == Seq::<(u64, CellV)>::empty(),
            r.wf(),
    {
        let r = CellStore { entries: Vec::new() };
        proof {
            assert(r@ =~= Seq::<(u64, CellV)>::empty());
        }
        r
    }

    /// The asset under `id`, if one is loaded.
    pub fn get(&self, id: u64) -> (r: Option<&Cell>)
        ensures
            match r {
                Some(c) => spec_get(self@, id) == Some(c@),
                None => spec_get(self@, id) is None,
            },
    {
        let mut i: usize = 0;
        proof {
            assert(self@.skip(0) =~= self@);
        }
        while i < self.entries.len()
            invariant
                0 <= i <= self.entries@.len(),
                spec_get(self@.skip(i as int), id) == spec_get(self@, id),
            decreases self.entries@.len() - i,
        {
            proof {
                assert(self@.skip(i as int).len() > 0);
                assert(self@.skip(i as int)[0] == self@[i as int]);
                assert(self@.skip(i as int).drop_first() =~= self@.skip(i + 1));
            }
            if self.entries[i].0 == id {
                proof {
                    assert(self@[i as int] == (self.entries@[i as int].0,
                    self.entries@[i as int].1@));
                }
                return Some(&self.entries[i].1);
            }
            i += 1;
        }
        proof {
            assert(self@.skip(i as int) =~= Seq::<(u64, CellV)>::empty());
        }
        None
    }

    /// Publish a decoded asset atomically: afterwards `id` resolves to the
    /// new asset and every other identity resolves as before.
    pub fn publish(&mut self, id: u64, cell: Cell)
        requires
            old(self).wf(),
        ensures
            final(self).wf(),
            spec_get(final(self)@, id) == Some(cell@),
            forall|other: u64|
                other != id ==> spec_get(final(self)@, other) == spec_get(old(self)@, other),
    {
        let ghost oldv = self@;
        let mut i: usize = 0;
        proof {
            assert(self@.skip(0) =~= self@);
        }
        while i < self.entries.len()
            invariant
                0 <= i <= self.entries@.len(),
                self@ == oldv,
                oldv == old(self)@,
                self.wf(),
                forall|j: int| 0 <= j < i ==> (#[trigger] self@[j]).0 != id,
            decreases self.entries@.len() - i,
        {
            if self.entries[i].0 == id {
                let slot = &mut self.entries[i];
                *slot = (id, cell);
                proof {
                    assert(self@ =~= oldv.update(i as int, (id, cell@)));
                    lemma_get_update(oldv, i as int, id, cell@);
                    assert(spec_get(self@, id) == Some(cell@)) by {
                        assert(spec_get(oldv.update(i as int, (id, cell@)), id) == Some(cell@));
                    }
                    assert forall|other: u64| other != id implies spec_get(self@, other)
                        == spec_get(oldv, other) by {
                        assert(spec_get(oldv.update(i as int, (id, cell@)), other) == spec_get(
                            oldv,
                            other,
                        ));
                    }
                    assert forall|a: int, b: int| 0 <= a < b < self@.len() implies (
                    #[trigger] self@[a]).0 != (#[trigger] self@[b]).0 by {
                        assert(oldv[a].0 != oldv[b].0);
                        assert(self@[a].0 == oldv[a].0 && self@[b].0 == oldv[b].0);
                    }
                }
                return;
            }
            proof {
                assert(self@[i as int].0 != id);
            }
            i += 1;
        }
        self.entries.push((id, cell));
        proof {
            assert(self@ =~= oldv.push((id, cell@)));
            lemma_get_push(oldv, id, cell@);
        }
    }

    /// Decode one file and publish the asset under `id`; on a fatal decode
    /// fault nothing is published and the store is exactly as before.
    pub fn decode_and_publish(
        &mut self,
        id: u64,
        data: &Vec<u8>,
        reg: &AttributeRegistry,
    ) -> (r: Result<Vec<SkippedAttribute>, CellError>)
        requires
            old(self).wf(),
        ensures
            final(self).wf(),
            match r {
                Ok(_) => spec_decode_cell(data@, reg@) matches Ok(c) && spec_get(final(self)@, id)
                    == Some(c) && forall|other: u64|
                    other != id ==> spec_get(final(self)@, other) == spec_get(old(self)@, other),
                Err(e) => spec_decode_cell(data@, reg@) == Err::<CellV, CellError>(e)
                    && final(self)@ == old(self)@,
            },
    {
        match decode_cell(data, reg) {
            Err(e) => Err(e),
            Ok((cell, skipped)) => {
                self.publish(id, cell);
                Ok(skipped)
            },
        }
    }
}

/// Updating the entry that held `id` changes only `id`'s answer.
proof fn lemma_get_update(entries: Seq<(u64, CellV)>, i: int, id: u64, c: CellV)
    requires
        0 <= i < entries.len(),
        entries[i].0 == id,
        forall|j: int| 0 <= j < i ==> (#[trigger] entries[j]).0 != id,
    ensures
        spec_get(entries.update(i, (id, c)), id) == Some(c),
        forall|other: u64|
            other != id ==> spec_get(entries.update(i, (id, c)), other) == spec_get(
                entries,
                other,
            ),
    decreases entries.len(),
{
    let upd = entries.update(i, (id, c));
    if i == 0 {
        assert(upd[0] == (id, c));
        assert forall|other: u64| other != id implies spec_get(upd, other) == spec_get(
            entries,
            other,
        ) by {
            assert(upd.drop_first() =~= entries.drop_first());
            assert(entries[0].0 == id);
        }
    } else {
        lemma_get_update(entries.drop_first(), i - 1, id, c);
        assert(upd.drop_first() =~= entries.drop_first().update(i - 1, (id, c)));
        assert(upd[0] == entries[0]);
        assert(entries[0].0 != id);
        assert(spec_get(upd, id) == Some(c)) by {
            assert(spec_get(entries.drop_first().update(i - 1, (id, c)), id) == Some(c));
        }
        assert forall|other: u64| other != id implies spec_get(upd, other) == spec_get(
            entries,
            other,
        ) by {
            assert(spec_get(entries.drop_first().update(i - 1, (id, c)), other) == spec_get(
                entries.drop_first(),
                other,
            ));
        }
    }
}

/// Appending a fresh identity changes only that identity's answer.
proof fn lemma_get_push(entries: Seq<(u64, CellV)>, id: u64, c: CellV)
    requires
        forall|j: int| 0 <= j < entries.len() ==> (#[trigger] entries[j]).0 != id,
    ensures
        spec_get(entries.push((id, c)), id) == Some(c),
        forall|other: u64|
            other != id ==> spec_get(entries.push((id, c)), other) == spec_get(entries, other),
    decreases entries.len(),
{
    let p = entries.push((id, c));
    if entries.len() == 0 {
        assert(p[0] == (id, c));
        assert forall|other: u64| other != id implies spec_get(p, other) == spec_get(
            entries,
            other,
        ) by {
            assert(p.drop_first() =~= Seq::<(u64, CellV)>::empty());
            assert(spec_get(p.drop_first(), other) is None);
        }
    } else {
        lemma_get_push(entries.drop_first(), id, c);
        assert(p.drop_first() =~= entries.drop_first().push((id, c)));
        assert(p[0] == entries[0]);
        assert(entries[0].0 != id);
        assert(spec_get(p, id) == Some(c)) by {
            assert(spec_get(entries.drop_first().push((id, c)), id) == Some(c));
        }
        assert forall|other: u64| other != id implies spec_get(p, other) == spec_get(
            entries,
            other,
        ) by {
            assert(spec_get(entries.drop_first().push((id, c)), other) == spec_get(
                entries.drop_first(),
                other,
            ));
        }
    }
}

} // verus!
