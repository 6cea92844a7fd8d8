//! The live-variable annotation that dead store elimination consumes.
//!
//! For every code offset the annotation records which locals are live after
//! the instruction there and, for each of them, the offsets that read the
//! value it holds at that point.
use crate::bytecode::{CodeOffset, TempIndex};
use std::collections::{BTreeMap, BTreeSet};
use vstd::prelude::*;

verus! {

broadcast use vstd::std_specs::btree::group_btree_axioms;

/// What is known of one live local at one program point.
pub struct LiveVarInfo {
    /// The offsets that read the local's current value.
    pub usages: BTreeSet<CodeOffset>,
}

impl LiveVarInfo {
    /// Live-variable information with the given usage offsets.
    pub fn new(usages: BTreeSet<CodeOffset>) -> (info: LiveVarInfo)
        ensures
            info.usages@ == usages@,
    {
        LiveVarInfo { usages }
    }

    /// The offsets that read the local's current value.
    pub fn usage_offsets(&self) -> (usages: &BTreeSet<CodeOffset>)
        ensures
            usages@ == self.usages@,
    {
        &self.usages
    }
}

/// The locals that are live after the instruction at one code offset.
pub struct LiveVarInfoAtCodeOffset {
    /// For each local that is live after the instruction, its usages.
    pub after: BTreeMap<TempIndex, LiveVarInfo>,
}

impl LiveVarInfoAtCodeOffset {
    /// A program point after which no local is live.
    pub fn new() -> (info: LiveVarInfoAtCodeOffset)
        ensures
            info.after@ == Map::<TempIndex, LiveVarInfo>::empty(),
    {
        LiveVarInfoAtCodeOffset { after: BTreeMap::new() }
    }

    /// The usages of `local` after this point: `None` if it is not live.
    pub open spec fn usages_of(&self, local: TempIndex) -> Option<Set<CodeOffset>> {
        if self.after@.contains_key(local) {
            Some(self.after@[local].usages@)
        } else {
            None
        }
    }
}

/// The live-variable annotation of a function: one entry per code offset.
pub struct LiveVarAnnotation {
    /// The live locals after each annotated offset.
    pub infos: BTreeMap<CodeOffset, LiveVarInfoAtCodeOffset>,
}

impl LiveVarAnnotation {
    /// An annotation that covers no offset yet.
    pub fn new() -> (annotation: LiveVarAnnotation)
        ensures
            annotation.infos@ == Map::<CodeOffset, LiveVarInfoAtCodeOffset>::empty(),
    {
        LiveVarAnnotation { infos: BTreeMap::new() }
    }

    /// Whether the annotation has an entry for `offset`.
    pub open spec fn covers(&self, offset: CodeOffset) -> bool {
        self.infos@.contains_key(offset)
    }

    /// The usages of `local` after `offset`: `None` if the offset is not
    /// annotated or the local is not live after it.
    pub open spec fn live_after(&self, offset: CodeOffset, local: TempIndex) -> Option<
        Set<CodeOffset>,
    > {
        if self.covers(offset) {
            self.infos@[offset].usages_of(local)
        } else {
            None
        }
    }

    /// The annotation records that the value `local` holds after `offset`
    /// is read at `usage`.
    pub open spec fn uses(&self, offset: CodeOffset, local: TempIndex, usage: CodeOffset) -> bool {
        match self.live_after(offset, local) {
            Some(usages) => usages.contains(usage),
            None => false,
        }
    }

    /// The entry for `offset`.
    pub fn get_info_at(&self, offset: CodeOffset) -> (info: &LiveVarInfoAtCodeOffset)
        requires
            self.covers(offset),
        ensures
            *info == self.infos@[offset],
    {
        let found = self.infos.get(&offset);
        found.unwrap()
    }

    /// Records that `local` is live after `offset` and read at `usages`;
    /// an earlier record for the same offset and local is replaced.
    pub fn set_live_after(&mut self, offset: CodeOffset, local: TempIndex, usages: &Vec<CodeOffset>)
        ensures
            final(self).live_after(offset, local) == Some(usages@.to_set()),
            final(self).covers(offset),
            forall|o: CodeOffset|
                o != offset ==> (final(self).covers(o) <==> old(self).covers(o)),
            forall|o: CodeOffset, l: TempIndex|
                (o != offset || l != local) ==> #[trigger] final(self).live_after(o, l) == old(
                    self,
                ).live_after(o, l),
    {
        let mut set: BTreeSet<CodeOffset> = BTreeSet::new();
        let mut i: usize = 0;
        while i < usages.len()
            invariant
                i <= usages.len(),
                set@ == usages@.take(i as int).to_set(),
            decreases usages.len() - i,
        {
            proof {
                let next = usages@.take(i + 1);
                assert(next.drop_last() == usages@.take(i as int));
                assert(next.to_set() =~= usages@.take(i as int).to_set().insert(usages@[i as int]))
                    by {
                    vstd::seq_lib::seq_to_set_is_finite(next);
                    assert forall|x: CodeOffset| next.to_set().contains(x) implies usages@.take(
                        i as int,
                    ).to_set().insert(usages@[i as int]).contains(x) by {
                        let j = choose|j: int| 0 <= j < next.len() && next[j] == x;
                        if j < i {
                            assert(usages@.take(i as int)[j] == x);
                        }
                    }
                    assert forall|x: CodeOffset|
                        usages@.take(i as int).to_set().insert(usages@[i as int]).contains(
                            x,
                        ) implies next.to_set().contains(x) by {
                        if x == usages@[i as int] {
                            assert(next[i as int] == x);
                        } else {
                            let j = choose|j: int|
                                0 <= j < usages@.take(i as int).len() && usages@.take(i as int)[j]
                                    == x;
                            assert(next[j] == x);
                        }
                    }
                }
            }
            set.insert(usages[i]);
            i = i + 1;
        }
        assert(usages@.take(usages.len() as int) == usages@);
        let mut at = match self.infos.remove(&offset) {
            Some(at) => at,
            None => LiveVarInfoAtCodeOffset::new(),
        };
        at.after.insert(local, LiveVarInfo::new(set));
        self.infos.insert(offset, at);
    }

    /// Records that no local is live after `offset`, unless the offset is
    /// annotated already.
    pub fn cover(&mut self, offset: CodeOffset)
        ensures
            final(self).covers(offset),
            forall|o: CodeOffset|
                o != offset ==> (final(self).covers(o) <==> old(self).covers(o)),
            forall|o: CodeOffset, l: TempIndex| #[trigger]
                final(self).live_after(o, l) == old(self).live_after(o, l),
    {
        if !self.infos.contains_key(&offset) {
            self.infos.insert(offset, LiveVarInfoAtCodeOffset::new());
        }
    }
}

} // verus!
