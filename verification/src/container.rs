//! The container: an ordered sequence of records behind the fixed 8-byte
//! signature, with all-or-nothing parsing, order-preserving serialization,
//! and first-occurrence removal and lookup.

use vstd::prelude::*;

use crate::codec::{
    first_match, lemma_first_match_is_earliest, lemma_parse_records_step, parse_container,
    parse_records, prepend_models, ser_container, ser_records, signature, wf_record, wf_records,
    RecordModel,
};
use crate::error::ChunkError;
use crate::record::Record;
use crate::type_code::{text_bytes, TypeCode};

verus! {

broadcast use crate::type_code::lemma_type_code_len;

/// The abstract values of a sequence of records.
pub open spec fn models_of(rs: Seq<Record>) -> Seq<RecordModel> {
    Seq::new(rs.len(), |i: int| rs[i]@)
}

/// An ordered sequence of records behind the fixed signature. Insertion
/// order is meaningful and preserved by serialization; the core imposes no
/// cross-record ordering rule.
#[derive(Debug)]
pub struct Container {
    records: Vec<Record>,
}

impl View for Container {
    type V = Seq<RecordModel>;

    closed spec fn view(&self) -> Seq<RecordModel> {
        models_of(self.records@)
    }
}

impl Container {
    /// Every held record is well-formed.
    pub closed spec fn wf(&self) -> bool {
        forall|i: int| 0 <= i < self.records@.len() ==> (#[trigger] self.records@[i]).wf()
    }

    /// A well-formed container has a well-formed model.
    pub proof fn lemma_wf_models(&self)
        requires
            self.wf(),
        ensures
            wf_records(self@),
    {
        assert forall|i: int| 0 <= i < self@.len() implies wf_record(#[trigger] self@[i]) by {
            assert(self@[i] == self.records@[i]@);
        }
    }

    /// An empty container.
    pub fn new() -> (c: Container)
        ensures
            c@ == Seq::<RecordModel>::empty(),
            c.wf(),
    {
        let c = Container { records: Vec::new() };
        proof {
            assert(c@ =~= Seq::<RecordModel>::empty());
        }
        c
    }

    /// Parses a complete byte buffer, all-or-nothing: the signature must
    /// open it exactly, then records must cover the rest exactly; any
    /// structural error aborts the whole parse with no partial result.
    pub fn parse(buf: &Vec<u8>) -> (r: Result<Container, ChunkError>)
        ensures
            r matches Ok(c) ==> parse_container(buf@) == Ok::<Seq<RecordModel>, ChunkError>(c@)
                && c.wf(),
            r matches Err(e) ==> parse_container(buf@) == Err::<Seq<RecordModel>, ChunkError>(e),
    {
        let n = buf.len();
        if n < 8 {
            return Err(ChunkError::InvalidSignature);
        }
        if !(buf[0] == 137 && buf[1] == 80 && buf[2] == 78 && buf[3] == 71 && buf[4] == 13
            && buf[5] == 10 && buf[6] == 26 && buf[7] == 10) {
            proof {
                if buf@.subrange(0, 8) == signature() {
                    assert(forall|j: int| 0 <= j < 8 ==> #[trigger] buf@.subrange(0, 8)[j]
                        == buf@[j]);
                    assert(buf@[0] == 137 && buf@[1] == 80 && buf@[2] == 78 && buf@[3] == 71
                        && buf@[4] == 13 && buf@[5] == 10 && buf@[6] == 26 && buf@[7] == 10);
                }
            }
            return Err(ChunkError::InvalidSignature);
        }
        proof {
            assert(buf@.subrange(0, 8) =~= signature());
        }
        let mut records: Vec<Record> = Vec::new();
        let mut offset: usize = 8;
        proof {
            if let Ok(rest) = parse_records(buf@.skip(8)) {
                assert(models_of(records@) + rest =~= rest);
            }
        }
        while offset < n
            invariant
                8 <= offset <= n,
                n == buf@.len(),
                buf@.subrange(0, 8) == signature(),
                forall|i: int| 0 <= i < records@.len() ==> (#[trigger] records@[i]).wf(),
                parse_records(buf@.skip(8)) == prepend_models(
                    models_of(records@),
                    parse_records(buf@.skip(offset as int)),
                ),
            decreases n - offset,
        {
            let step = Record::parse(buf, offset);
            match step {
                Ok(p) => {
                    let (rec, consumed) = p;
                    proof {
                        lemma_parse_records_step(buf@.skip(offset as int));
                        assert(buf@.skip(offset as int).skip(consumed as int) =~= buf@.skip(
                            offset + consumed,
                        ));
                        assert(models_of(records@.push(rec)) =~= models_of(records@).push(rec@));
                        if let Ok(rest) = parse_records(buf@.skip(offset + consumed)) {
                            assert(models_of(records@) + (seq![rec@] + rest) =~= models_of(
                                records@,
                            ).push(rec@) + rest);
                        }
                    }
                    records.push(rec);
                    offset = offset + consumed;
                },
                Err(e) => {
                    proof {
                        lemma_parse_records_step(buf@.skip(offset as int));
                    }
                    return Err(e);
                },
            }
        }
        proof {
            assert(buf@.skip(n as int) =~= Seq::<u8>::empty());
            assert(parse_records(buf@.skip(n as int)) == Ok::<Seq<RecordModel>, ChunkError>(
                Seq::empty(),
            ));
            assert(models_of(records@) + Seq::<RecordModel>::empty() =~= models_of(records@));
        }
        let c = Container { records };
        Ok(c)
    }

    /// Serialized form: the signature, then each record's serialized bytes
    /// concatenated in sequence order. A pure read of current state.
    pub fn serialize(&self) -> (out: Vec<u8>)
        requires
            self.wf(),
        ensures
            out@ == ser_container(self@),
    {
        let mut out: Vec<u8> = Vec::new();
        out.push(137);
        out.push(80);
        out.push(78);
        out.push(71);
        out.push(13);
        out.push(10);
        out.push(26);
        out.push(10);
        proof {
            assert(out@ =~= signature());
            assert(self@.take(0) =~= Seq::<RecordModel>::empty());
            assert(signature() + ser_records(self@.take(0)) =~= signature());
        }
        let n = self.records.len();
        let mut i: usize = 0;
        while i < n
            invariant
                i <= n,
                n == self.records@.len(),
                self.wf(),
                out@ == signature() + ser_records(self@.take(i as int)),
            decreases n - i,
        {
            let mut rec_bytes = self.records[i].serialize();
            proof {
                crate::codec::lemma_ser_records_push(self@.take(i as int), self@[i as int]);
                assert(self@.take(i as int).push(self@[i as int]) =~= self@.take(i + 1));
                assert((signature() + ser_records(self@.take(i as int))) + rec_bytes@ =~= signature()
                    + (ser_records(self@.take(i as int)) + rec_bytes@));
            }
            out.append(&mut rec_bytes);
            i = i + 1;
        }
        proof {
            assert(self@.take(n as int) =~= self@);
        }
        out
    }

    /// Appends a record at the end of the sequence; ownership moves into
    /// the container. Always succeeds.
    pub fn append(&mut self, rec: Record)
        requires
            old(self).wf(),
            rec.wf(),
        ensures
            final(self).wf(),
            final(self)@ == old(self)@.push(rec@),
    {
        proof {
            assert(models_of(old(self).records@.push(rec)) =~= models_of(old(self).records@).push(
                rec@,
            ));
        }
        self.records.push(rec);
        proof {
            assert forall|i: int| 0 <= i < self.records@.len() implies (#[trigger] self.records@[i]).wf() by {
                if i < old(self).records@.len() {
                    assert(self.records@[i] == old(self).records@[i]);
                } else {
                    assert(self.records@[i] == rec);
                }
            }
        }
    }

    /// The index of the first record whose type code equals `tc`, if any.
    fn find_index(&self, tc: &TypeCode) -> (r: Option<usize>)
        ensures
            match first_match(self@, tc@) {
                Some(i) => r matches Some(j) && j as int == i && i < self@.len(),
                None => r is None,
            },
    {
        let n = self.records.len();
        let mut i: usize = 0;
        while i < n
            invariant
                i <= n,
                n == self.records@.len(),
                forall|j: int| 0 <= j < i ==> (#[trigger] self@[j]).tc != tc@,
            decreases n - i,
        {
            if self.records[i].type_code().matches(tc) {
                proof {
                    assert(self@[i as int].tc == tc@);
                    lemma_first_match_is_earliest(self@, tc@);
                    match first_match(self@, tc@) {
                        Some(k) => {
                            if k < i as int {
                                assert(self@[k].tc != tc@);
                            }
                            if k > i as int {
                                assert(self@[i as int].tc != tc@);
                            }
                        },
                        None => {
                            assert(self@[i as int].tc != tc@);
                        },
                    }
                }
                return Some(i);
            }
            i = i + 1;
        }
        proof {
            lemma_first_match_is_earliest(self@, tc@);
            if let Some(k) = first_match(self@, tc@) {
                assert(self@[k].tc != tc@);
            }
        }
        None
    }

    /// Removes and returns the first record whose type code equals `tc`,
    /// scanning in order; if none matches, the sequence is left unchanged
    /// and `ChunkNotFound` is reported. Does not remove further matches.
    pub fn remove_first_matching(&mut self, tc: &TypeCode) -> (r: Result<Record, ChunkError>)
        requires
            old(self).wf(),
        ensures
            final(self).wf(),
            match first_match(old(self)@, tc@) {
                Some(i) => r matches Ok(rec) && rec@ == old(self)@[i] && rec.wf()
                    && final(self)@ == old(self)@.remove(i),
                None => r matches Err(e) && e == ChunkError::ChunkNotFound
                    && final(self)@ == old(self)@,
            },
    {
        match self.find_index(tc) {
            Some(i) => {
                let rec = self.records.remove(i);
                proof {
                    assert(self@ =~= old(self)@.remove(i as int));
                    assert(rec.wf());
                    assert forall|j: int|
                        0 <= j < self.records@.len() implies (#[trigger] self.records@[j]).wf() by {
                        if j < i as int {
                            assert(self.records@[j] == old(self).records@[j]);
                        } else {
                            assert(self.records@[j] == old(self).records@[j + 1]);
                        }
                    }
                }
                Ok(rec)
            },
            None => Err(ChunkError::ChunkNotFound),
        }
    }

    /// Finds the first record matching the 4-character text form of a type
    /// code, non-mutating; `None` if the text is not exactly 4 characters
    /// or nothing matches.
    pub fn find_first_matching(&self, type_text: &str) -> (r: Option<&Record>)
        ensures
            type_text@.len() != 4 ==> r is None,
            type_text@.len() == 4 ==> (match first_match(self@, text_bytes(type_text@)) {
                Some(i) => r matches Some(rec) && rec@ == self@[i],
                None => r is None,
            }),
    {
        match TypeCode::parse_text(type_text) {
            Ok(tc) => match self.find_index(&tc) {
                Some(i) => Some(&self.records[i]),
                None => None,
            },
            Err(_) => None,
        }
    }

    /// Read-only enumeration of all records in current sequence order.
    pub fn chunks(&self) -> (r: &Vec<Record>)
        ensures
            r@.len() == self@.len(),
            forall|i: int| 0 <= i < r@.len() ==> (#[trigger] r@[i])@ == self@[i],
            self.wf() ==> forall|i: int| 0 <= i < r@.len() ==> (#[trigger] r@[i]).wf(),
    {
        &self.records
    }

    /// The number of records.
    pub fn len(&self) -> (r: usize)
        ensures
            r == self@.len(),
    {
        self.records.len()
    }
}

} // verus!
