use vstd::prelude::*;

verus! {

/// One dictionary entry: the searchable string and the JSON payload that
/// travels with it, kept as raw JSON text.  The crate never looks inside
/// `data`; it only stores and returns it.
pub struct EngineInputData {
    /// Non-normalized, arbitrary-length UTF-8 string; may contain whitespace.
    pub string: String,
    /// Arbitrary JSON value attached to the string, as serialized text.
    pub data: String,
}

impl EngineInputData {
    /// An explicit deep copy; the result is equal to the original.
    pub fn duplicate(&self) -> (r: Self)
        ensures
            r == *self,
    {
        EngineInputData { string: self.string.clone(), data: self.data.clone() }
    }
}

/// The record that an exact lookup of `key` yields: the first record whose
/// string equals `key`, if any.  First occurrence wins on collision.
pub open spec fn exact_spec(records: Seq<EngineInputData>, key: Seq<char>) -> Option<
    EngineInputData,
>
    decreases records.len(),
{
    if records.len() == 0 {
        None
    } else if records[0].string@ == key {
        Some(records[0])
    } else {
        exact_spec(records.drop_first(), key)
    }
}

/// Immutable snapshot of the input records, loaded once at startup.
/// Also serves as the index for exact lookup.
pub struct Dataset {
    pub records: Vec<EngineInputData>,
}

impl Dataset {
    /// Small enough that every record can be keyed by a `u32` inside a
    /// match engine.
    pub open spec fn wf(self) -> bool {
        self.records@.len() <= u32::MAX
    }

    /// Number of loaded records.
    pub fn len(&self) -> (n: usize)
        ensures
            n == self.records@.len(),
    {
        self.records.len()
    }

    /// An explicit deep copy; the records of the result are equal to the
    /// records of the original, in the same order.
    pub fn duplicate(&self) -> (r: Self)
        ensures
            r.records@ == self.records@,
            r.wf() == self.wf(),
    {
        let mut copy: Vec<EngineInputData> = Vec::new();
        let n = self.records.len();
        for i in 0..n
            invariant
                n == self.records@.len(),
                copy@.len() == i,
                forall|j: int| 0 <= j < i ==> copy@[j] == self.records@[j],
        {
            copy.push(self.records[i].duplicate());
        }
        proof {
            assert(copy@ =~= self.records@);
        }
        Dataset { records: copy }
    }

    /// Looks `key` up among the records; returns a copy of the first record
    /// whose string equals `key`, or `None` when no record matches.
    pub fn exact(&self, key: &String) -> (r: Option<EngineInputData>)
        ensures
            r == exact_spec(self.records@, key@),
    {
        let n = self.records.len();
        proof {
            assert(self.records@.skip(0) =~= self.records@);
        }
        for i in 0..n
            invariant
                n == self.records@.len(),
                exact_spec(self.records@, key@) == exact_spec(
                    self.records@.skip(i as int),
                    key@,
                ),
        {
            if self.records[i].string == *key {
                proof {
                    assert(self.records@.skip(i as int)[0] == self.records@[i as int]);
                }
                return Some(self.records[i].duplicate());
            }
            proof {
                assert(self.records@.skip(i as int).drop_first() =~= self.records@.skip(
                    i + 1,
                ));
            }
        }
        None
    }
}

/// Exact lookup is idempotent on loaded records: a record whose string is
/// unique in the dataset is found, unchanged, under its own string.
pub proof fn lemma_exact_lookup_finds_unique_record(
    records: Seq<EngineInputData>,
    i: int,
)
    requires
        0 <= i < records.len(),
        forall|j: int|
            0 <= j < records.len() && j != i ==> records[j].string@ != records[i].string@,
    ensures
        exact_spec(records, records[i].string@) == Some(records[i]),
    decreases records.len(),
{
    if i == 0 {
    } else {
        assert(records[0].string@ != records[i].string@);
        assert(records.drop_first()[i - 1] == records[i]);
        lemma_exact_lookup_finds_unique_record(records.drop_first(), i - 1);
    }
}

} // verus!
