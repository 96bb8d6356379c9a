//! The set of unspent transaction outputs, keyed by outpoint.
use vstd::prelude::*;

use crate::transaction::transaction::{OutPoint, TxOutput, UtxoView};

verus! {

/// The map that a list of entries denotes; a later entry for the same
/// outpoint replaces an earlier one.
pub open spec fn entries_map(entries: Seq<(OutPoint, TxOutput)>) -> Map<OutPoint, TxOutput>
    decreases entries.len(),
{
    if entries.len() == 0 {
        Map::empty()
    } else {
        entries_map(entries.drop_last()).insert(entries.last().0, entries.last().1)
    }
}

/// No outpoint occurs twice.
pub open spec fn keys_distinct(entries: Seq<(OutPoint, TxOutput)>) -> bool {
    forall|i: int, j: int|
        0 <= i < j < entries.len() ==> #[trigger] entries[i].0 != #[trigger] entries[j].0
}

proof fn lemma_entries_map_contains(entries: Seq<(OutPoint, TxOutput)>, k: OutPoint)
    ensures
        entries_map(entries).contains_key(k) <==> exists|i: int|
            0 <= i < entries.len() && (#[trigger] entries[i]).0 == k,
    decreases entries.len(),
{
    if entries.len() > 0 {
        let init = entries.drop_last();
        lemma_entries_map_contains(init, k);
        if entries_map(entries).contains_key(k) {
            if entries.last().0 == k {
                assert(entries[entries.len() - 1].0 == k);
            } else {
                let i = choose|i: int| 0 <= i < init.len() && (#[trigger] init[i]).0 == k;
                assert(entries[i] == init[i]);
            }
        }
        if exists|i: int| 0 <= i < entries.len() && (#[trigger] entries[i]).0 == k {
            let i = choose|i: int| 0 <= i < entries.len() && (#[trigger] entries[i]).0 == k;
            if i < init.len() {
                assert(init[i] == entries[i]);
            }
        }
    }
}

proof fn lemma_entries_map_value(entries: Seq<(OutPoint, TxOutput)>, i: int)
    requires
        0 <= i < entries.len(),
        forall|j: int| i < j < entries.len() ==> (#[trigger] entries[j]).0 != entries[i].0,
    ensures
        entries_map(entries).contains_key(entries[i].0),
        entries_map(entries)[entries[i].0] == entries[i].1,
    decreases entries.len(),
{
    if i < entries.len() - 1 {
        let init = entries.drop_last();
        assert forall|j: int| i < j < init.len() implies (#[trigger] init[j]).0 != init[i].0 by {
            assert(init[j] == entries[j]);
        }
        lemma_entries_map_value(init, i);
        assert(entries.last() == entries[entries.len() - 1]);
    }
}

proof fn lemma_entries_map_remove(entries: Seq<(OutPoint, TxOutput)>, i: int)
    requires
        0 <= i < entries.len(),
        keys_distinct(entries),
    ensures
        entries_map(entries.remove(i)) =~= entries_map(entries).remove(entries[i].0),
        keys_distinct(entries.remove(i)),
    decreases entries.len(),
{
    let k = entries[i].0;
    let init = entries.drop_last();
    assert(keys_distinct(init)) by {
        assert forall|a: int, b: int| 0 <= a < b < init.len() implies #[trigger] init[a].0
            != #[trigger] init[b].0 by {
            assert(init[a] == entries[a] && init[b] == entries[b]);
        }
    }
    assert(keys_distinct(entries.remove(i))) by {
        let r = entries.remove(i);
        assert forall|a: int, b: int| 0 <= a < b < r.len() implies #[trigger] r[a].0
            != #[trigger] r[b].0 by {
            let ea = if a < i { a } else { a + 1 };
            let eb = if b < i { b } else { b + 1 };
            assert(r[a] == entries[ea] && r[b] == entries[eb]);
        }
    }
    if i == entries.len() - 1 {
        assert(entries.remove(i) =~= init);
        lemma_entries_map_contains(init, k);
        if entries_map(init).contains_key(k) {
            let j = choose|j: int| 0 <= j < init.len() && (#[trigger] init[j]).0 == k;
            assert(init[j] == entries[j]);
        }
    } else {
        lemma_entries_map_remove(init, i);
        let last = entries.last();
        assert(entries.remove(i).drop_last() =~= init.remove(i));
        assert(entries.remove(i).last() == last);
        assert(entries[entries.len() - 1] == last);
        assert(last.0 != k);
    }
}

proof fn lemma_entries_map_len(entries: Seq<(OutPoint, TxOutput)>)
    requires
        keys_distinct(entries),
    ensures
        entries_map(entries).dom().finite(),
        entries_map(entries).len() == entries.len(),
    decreases entries.len(),
{
    if entries.len() > 0 {
        let init = entries.drop_last();
        assert(keys_distinct(init)) by {
            assert forall|a: int, b: int| 0 <= a < b < init.len() implies #[trigger] init[a].0
                != #[trigger] init[b].0 by {
                assert(init[a] == entries[a] && init[b] == entries[b]);
            }
        }
        lemma_entries_map_len(init);
        lemma_entries_map_contains(init, entries.last().0);
        if entries_map(init).contains_key(entries.last().0) {
            let j = choose|j: int|
                0 <= j < init.len() && (#[trigger] init[j]).0 == entries.last().0;
            assert(init[j] == entries[j]);
            assert(entries[entries.len() - 1] == entries.last());
        }
    }
}

/// Unspent outputs, at most one per outpoint.
#[derive(Debug)]
pub struct UtxoSet {
    entries: Vec<(OutPoint, TxOutput)>,
}

impl View for UtxoSet {
    type V = Map<OutPoint, TxOutput>;

    closed spec fn view(&self) -> Map<OutPoint, TxOutput> {
        entries_map(self.entries@)
    }
}

impl UtxoSet {
    /// The set keeps one entry per outpoint.
    #[verifier::type_invariant]
    pub closed spec fn wf(&self) -> bool {
        keys_distinct(self.entries@)
    }

    /// A well-formed set holds finitely many outpoints.
    pub proof fn lemma_finite(&self)
        requires
            self.wf(),
        ensures
            self@.dom().finite(),
    {
        lemma_entries_map_len(self.entries@);
    }

    /// An empty set.
    pub fn new() -> (s: Self)
        ensures
            s@ == Map::<OutPoint, TxOutput>::empty(),
    {
        let s = UtxoSet { entries: Vec::new() };
        assert(s@ =~= Map::<OutPoint, TxOutput>::empty());
        s
    }

    /// A copy of the set, with the same unspent outputs.
    pub(crate) fn duplicate(&self) -> (c: Self)
        ensures
            c@ == self@,
    {
        proof {
            use_type_invariant(self);
        }
        let mut entries: Vec<(OutPoint, TxOutput)> = Vec::new();
        let mut i: usize = 0;
        while i < self.entries.len()
            invariant
                i <= self.entries@.len(),
                entries@ == self.entries@.subrange(0, i as int),
            decreases self.entries@.len() - i,
        {
            entries.push(self.entries[i]);
            assert(entries@ =~= self.entries@.subrange(0, i + 1));
            i = i + 1;
        }
        assert(entries@ =~= self.entries@);
        UtxoSet { entries }
    }

    /// The position of the last entry for `outpoint`, if any.
    fn position(&self, outpoint: &OutPoint) -> (r: Option<usize>)
        ensures
            match r {
                Some(i) => {
                    &&& i < self.entries@.len()
                    &&& self.entries@[i as int].0 == *outpoint
                    &&& self@.contains_key(*outpoint)
                    &&& self@[*outpoint] == self.entries@[i as int].1
                },
                None => !self@.contains_key(*outpoint),
            },
    {
        let mut i: usize = self.entries.len();
        while i > 0
            invariant
                i <= self.entries@.len(),
                forall|j: int| i <= j < self.entries@.len() ==> (#[trigger] self.entries@[j]).0
                    != *outpoint,
            decreases i,
        {
            i = i - 1;
            if self.entries[i].0.same_as(outpoint) {
                proof {
                    lemma_entries_map_value(self.entries@, i as int);
                }
                return Some(i);
            }
        }
        proof {
            lemma_entries_map_contains(self.entries@, *outpoint);
        }
        None
    }

    /// Records an unspent output; an earlier output at the same outpoint is replaced.
    pub fn add(&mut self, outpoint: OutPoint, output: TxOutput)
        ensures
            final(self)@ == old(self)@.insert(outpoint, output),
    {
        proof {
            use_type_invariant(&*self);
        }
        let pos = self.position(&outpoint);
        let mut entries: Vec<(OutPoint, TxOutput)> = Vec::new();
        std::mem::swap(&mut entries, &mut self.entries);
        let ghost before = entries@;
        match pos {
            Some(i) => {
                entries.remove(i);
                proof {
                    lemma_entries_map_remove(before, i as int);
                }
            },
            None => {},
        }
        let ghost mid = entries@;
        proof {
            lemma_entries_map_contains(mid, outpoint);
        }
        entries.push((outpoint, output));
        assert(entries@.drop_last() =~= mid);
        assert(keys_distinct(entries@)) by {
            assert forall|a: int, b: int| 0 <= a < b < entries@.len() implies #[trigger] entries@[a].0
                != #[trigger] entries@[b].0 by {
                if b == entries@.len() - 1 {
                    assert(entries@[a] == mid[a]);
                } else {
                    assert(entries@[a] == mid[a] && entries@[b] == mid[b]);
                }
            }
        }
        assert(entries_map(entries@) =~= entries_map(before).insert(outpoint, output));
        self.entries = entries;
    }

    /// The unspent output at `outpoint`, if any.
    pub fn get(&self, outpoint: &OutPoint) -> (r: Option<&TxOutput>)
        ensures
            match r {
                Some(o) => self@.contains_key(*outpoint) && *o == self@[*outpoint],
                None => !self@.contains_key(*outpoint),
            },
    {
        match self.position(outpoint) {
            Some(i) => Some(&self.entries[i].1),
            None => None,
        }
    }

    /// Removes and returns the unspent output at `outpoint`, if any.
    pub fn spend(&mut self, outpoint: &OutPoint) -> (r: Option<TxOutput>)
        ensures
            final(self)@ == old(self)@.remove(*outpoint),
            match r {
                Some(o) => old(self)@.contains_key(*outpoint) && o == old(self)@[*outpoint],
                None => !old(self)@.contains_key(*outpoint),
            },
    {
        proof {
            use_type_invariant(&*self);
        }
        match self.position(outpoint) {
            Some(i) => {
                let mut entries: Vec<(OutPoint, TxOutput)> = Vec::new();
                std::mem::swap(&mut entries, &mut self.entries);
                let ghost before = entries@;
                let (_, out) = entries.remove(i);
                proof {
                    lemma_entries_map_remove(before, i as int);
                }
                self.entries = entries;
                Some(out)
            },
            None => {
                assert(self@ =~= self@.remove(*outpoint));
                None
            },
        }
    }

    /// The number of unspent outputs.
    pub fn len(&self) -> (n: usize)
        ensures
            n == self@.len(),
    {
        proof {
            use_type_invariant(self);
            lemma_entries_map_len(self.entries@);
        }
        self.entries.len()
    }

    /// Whether there is no unspent output.
    pub fn is_empty(&self) -> (r: bool)
        ensures
            r == (self@.len() == 0),
    {
        proof {
            use_type_invariant(self);
            lemma_entries_map_len(self.entries@);
        }
        self.entries.len() == 0
    }
}

impl UtxoView for UtxoSet {
    type TxOutRef = TxOutput;

    fn lookup(&self, outpoint: &OutPoint) -> (r: Option<TxOutput>)
        ensures
            r == (if self@.contains_key(*outpoint) {
                Some(self@[*outpoint])
            } else {
                None::<TxOutput>
            }),
    {
        match self.get(outpoint) {
            Some(o) => Some(*o),
            None => None,
        }
    }
}

} // verus!
