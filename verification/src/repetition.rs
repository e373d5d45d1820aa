//! How often each board signature has occurred in a game.
//!
//! The table is a list of entries without repetition and not a hash map:
//! its keys are texts, and a text has no model as the key of a hash map
//! that could be proved about.

use vstd::prelude::*;

verus! {

struct RepetitionEntry {
    signature: String,
    count: u8,
}

/// A table from board signatures to the number of times each has occurred.
///
/// Its view is the map from signatures to counts; a signature that never
/// occurred is not in the map's domain.
pub struct RepetitionTable {
    entries: Vec<RepetitionEntry>,
}

/// The number of occurrences that a table records for a signature: its entry,
/// or zero where it has none.
pub open spec fn occurrences(table: Map<Seq<char>, nat>, signature: Seq<char>) -> nat {
    if table.dom().contains(signature) {
        table[signature]
    } else {
        0
    }
}

/// Whether some signature has occurred at least `threshold` times.
pub open spec fn some_count_reaches(table: Map<Seq<char>, nat>, threshold: nat) -> bool {
    exists|signature: Seq<char>| #[trigger]
        table.dom().contains(signature) && table[signature] >= threshold
}

spec fn table_of(entries: Seq<RepetitionEntry>) -> Map<Seq<char>, nat>
    decreases entries.len(),
{
    if entries.len() == 0 {
        Map::empty()
    } else {
        table_of(entries.drop_last()).insert(
            entries.last().signature@,
            entries.last().count as nat,
        )
    }
}

spec fn distinct_signatures(entries: Seq<RepetitionEntry>) -> bool {
    forall|i: int, j: int|
        0 <= i < j < entries.len() ==> (#[trigger] entries[i]).signature@ != (
        #[trigger] entries[j]).signature@
}

proof fn lemma_table_of(entries: Seq<RepetitionEntry>)
    requires
        distinct_signatures(entries),
    ensures
        forall|i: int|
            0 <= i < entries.len() ==> table_of(entries).dom().contains(
                (#[trigger] entries[i]).signature@,
            ) && table_of(entries)[entries[i].signature@] == entries[i].count,
        forall|signature: Seq<char>| #[trigger]
            table_of(entries).dom().contains(signature) ==> exists|i: int|
                0 <= i < entries.len() && (#[trigger] entries[i]).signature@ == signature,
    decreases entries.len(),
{
    if entries.len() > 0 {
        let front = entries.drop_last();
        lemma_table_of(front);
        assert forall|i: int| 0 <= i < entries.len() implies table_of(entries).dom().contains(
            (#[trigger] entries[i]).signature@,
        ) && table_of(entries)[entries[i].signature@] == entries[i].count by {
            if i < entries.len() - 1 {
                assert(front[i] == entries[i]);
                assert(entries[i].signature@ != entries[entries.len() - 1].signature@);
            }
        }
        assert forall|signature: Seq<char>| #[trigger]
            table_of(entries).dom().contains(signature) implies exists|i: int|
            0 <= i < entries.len() && (#[trigger] entries[i]).signature@ == signature by {
            if signature == entries.last().signature@ {
                assert(entries[entries.len() - 1].signature@ == signature);
            } else {
                assert(table_of(front).dom().contains(signature));
                let i = choose|i: int|
                    0 <= i < front.len() && (#[trigger] front[i]).signature@ == signature;
                assert(entries[i].signature@ == signature);
            }
        }
    }
}

impl View for RepetitionTable {
    type V = Map<Seq<char>, nat>;

    closed spec fn view(&self) -> Map<Seq<char>, nat> {
        table_of(self.entries@)
    }
}

impl RepetitionTable {
    #[verifier::type_invariant]
    spec fn no_signature_twice(self) -> bool {
        distinct_signatures(self.entries@)
    }

    /// A table in which nothing has occurred.
    pub fn new() -> (table: RepetitionTable)
        ensures
            table@ == Map::<Seq<char>, nat>::empty(),
    {
        RepetitionTable { entries: Vec::new() }
    }

    fn position_of(&self, signature: &String) -> (found: Option<usize>)
        ensures
            match found {
                Some(i) => i < self.entries@.len() && self.entries@[i as int].signature@
                    == signature@,
                None => forall|i: int|
                    0 <= i < self.entries@.len() ==> (#[trigger] self.entries@[i]).signature@
                        != signature@,
            },
    {
        let mut i: usize = 0;
        while i < self.entries.len()
            invariant
                i <= self.entries@.len(),
                forall|k: int|
                    0 <= k < i ==> (#[trigger] self.entries@[k]).signature@ != signature@,
            decreases self.entries@.len() - i,
        {
            if self.entries[i].signature == *signature {
                return Some(i);
            }
            i += 1;
        }
        None
    }

    /// How often the signature has occurred.
    pub fn count(&self, signature: &String) -> (count: u8)
        ensures
            count == occurrences(self@, signature@),
    {
        proof {
            use_type_invariant(self);
            lemma_table_of(self.entries@);
        }
        match self.position_of(signature) {
            Some(i) => self.entries[i].count,
            None => 0,
        }
    }

    /// Records one more occurrence of the signature.
    pub fn record(&mut self, signature: String)
        requires
            occurrences(old(self)@, signature@) < u8::MAX,
        ensures
            final(self)@ == old(self)@.insert(
                signature@,
                occurrences(old(self)@, signature@) + 1,
            ),
    {
        proof {
            use_type_invariant(&*self);
            lemma_table_of(self.entries@);
        }
        let ghost before = self.entries@;
        let found = self.position_of(&signature);
        let mut entries: Vec<RepetitionEntry> = Vec::new();
        core::mem::swap(&mut self.entries, &mut entries);
        match found {
            Some(i) => {
                let count = entries[i].count;
                entries.set(i, RepetitionEntry { signature, count: count + 1 });
                proof {
                    let after = entries@;
                    assert(distinct_signatures(after)) by {
                        assert forall|a: int, b: int| 0 <= a < b < after.len() implies (
                        #[trigger] after[a]).signature@ != (#[trigger] after[b]).signature@ by {
                            assert(after[a].signature@ == before[a].signature@);
                            assert(after[b].signature@ == before[b].signature@);
                        }
                    }
                    lemma_table_of(after);
                    let expected = table_of(before).insert(
                        signature@,
                        occurrences(table_of(before), signature@) + 1,
                    );
                    assert forall|s: Seq<char>| table_of(after).dom().contains(s)
                        == expected.dom().contains(s) by {
                        if table_of(after).dom().contains(s) {
                            let k = choose|k: int|
                                0 <= k < after.len() && (#[trigger] after[k]).signature@ == s;
                            assert(before[k].signature@ == s);
                        }
                        if table_of(before).dom().contains(s) {
                            let k = choose|k: int|
                                0 <= k < before.len() && (#[trigger] before[k]).signature@ == s;
                            assert(after[k].signature@ == s);
                        }
                    }
                    assert forall|s: Seq<char>| #[trigger]
                        table_of(after).dom().contains(s) implies table_of(after)[s]
                        == expected[s] by {
                        let k = choose|k: int|
                            0 <= k < after.len() && (#[trigger] after[k]).signature@ == s;
                        assert(before[k].signature@ == s);
                        if k != i as int {
                            assert(after[k] == before[k]);
                        }
                    }
                    assert(table_of(after) =~= expected);
                }
            },
            None => {
                entries.push(RepetitionEntry { signature, count: 1 });
                proof {
                    let after = entries@;
                    assert(after.drop_last() =~= before);
                    assert(distinct_signatures(after)) by {
                        assert forall|a: int, b: int| 0 <= a < b < after.len() implies (
                        #[trigger] after[a]).signature@ != (#[trigger] after[b]).signature@ by {
                            assert(after[a] == before[a]);
                            if b < before.len() {
                                assert(after[b] == before[b]);
                            }
                        }
                    }
                    assert(!table_of(before).dom().contains(signature@)) by {
                        if table_of(before).dom().contains(signature@) {
                            let k = choose|k: int|
                                0 <= k < before.len() && (#[trigger] before[k]).signature@
                                    == signature@;
                            assert(false);
                        }
                    }
                }
            },
        }
        self.entries = entries;
    }

    /// Whether some signature has occurred at least `threshold` times.
    pub fn any_at_least(&self, threshold: u8) -> (found: bool)
        ensures
            found == some_count_reaches(self@, threshold as nat),
    {
        proof {
            use_type_invariant(self);
            lemma_table_of(self.entries@);
        }
        let mut i: usize = 0;
        while i < self.entries.len()
            invariant
                i <= self.entries@.len(),
                forall|k: int| 0 <= k < i ==> (#[trigger] self.entries@[k]).count < threshold,
            decreases self.entries@.len() - i,
        {
            if self.entries[i].count >= threshold {
                proof {
                    use_type_invariant(self);
                    lemma_table_of(self.entries@);
                    assert(self@.dom().contains(self.entries@[i as int].signature@));
                }
                return true;
            }
            i += 1;
        }
        proof {
            if some_count_reaches(self@, threshold as nat) {
                let s = choose|s: Seq<char>| #[trigger]
                    self@.dom().contains(s) && self@[s] >= threshold;
                let k = choose|k: int|
                    0 <= k < self.entries@.len() && (#[trigger] self.entries@[k]).signature@ == s;
                assert(self.entries@[k].count < threshold);
                assert(false);
            }
        }
        false
    }
}

impl Clone for RepetitionTable {
    fn clone(&self) -> (copy: RepetitionTable)
        ensures
            copy@ == self@,
    {
        proof {
            use_type_invariant(self);
        }
        let mut entries: Vec<RepetitionEntry> = Vec::new();
        let mut i: usize = 0;
        while i < self.entries.len()
            invariant
                i <= self.entries@.len(),
                entries@.len() == i,
                forall|k: int|
                    0 <= k < i ==> (#[trigger] entries@[k]).signature@
                        == self.entries@[k].signature@ && entries@[k].count
                        == self.entries@[k].count,
            decreases self.entries@.len() - i,
        {
            let entry = RepetitionEntry {
                signature: self.entries[i].signature.clone(),
                count: self.entries[i].count,
            };
            entries.push(entry);
            i += 1;
        }
        proof {
            lemma_table_of_congruent(entries@, self.entries@);
        }
        RepetitionTable { entries }
    }
}

proof fn lemma_table_of_congruent(a: Seq<RepetitionEntry>, b: Seq<RepetitionEntry>)
    requires
        a.len() == b.len(),
        forall|k: int|
            0 <= k < a.len() ==> (#[trigger] a[k]).signature@ == b[k].signature@ && a[k].count
                == b[k].count,
    ensures
        table_of(a) == table_of(b),
        distinct_signatures(b) ==> distinct_signatures(a),
    decreases a.len(),
{
    if a.len() > 0 {
        lemma_table_of_congruent(a.drop_last(), b.drop_last());
        assert(a.last().signature@ == b.last().signature@);
    }
    if distinct_signatures(b) {
        assert forall|i: int, j: int| 0 <= i < j < a.len() implies (#[trigger] a[i]).signature@
            != (#[trigger] a[j]).signature@ by {
            assert(b[i].signature@ != b[j].signature@);
        }
    }
}

} // verus!
