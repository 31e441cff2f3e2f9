use vstd::prelude::*;
use vstd::string::*;
use crate::record::{
    RecordV, TransactionData, ser_record, parse_record_at, parse_record_exec, serialize_record,
    lemma_parse_ser_record,
};

verus! {

/// Why an append to the transaction log was refused.
#[derive(Clone, Copy, PartialEq, Eq, Structural, Debug)]
pub enum StoreError {
    /// The record has no packages, a string with a character the serialized
    /// form cannot carry, or an out-of-range timestamp.
    InvalidRecord,
}

/// The whole log: serialized records, oldest first, one after the other.
pub open spec fn ser_log(rs: Seq<RecordV>) -> Seq<char>
    decreases rs.len(),
{
    if rs.len() == 0 {
        Seq::empty()
    } else {
        ser_record(rs[0]) + ser_log(rs.drop_first())
    }
}

/// The records denoted by the characters of `s` from `i` to its end.
pub open spec fn parse_records(s: Seq<char>, i: int) -> Option<Seq<RecordV>>
    decreases s.len() - i,
{
    if i == s.len() {
        Some(Seq::empty())
    } else if i < 0 || i > s.len() {
        None
    } else {
        match parse_record_at(s, i) {
            None => None,
            Some((r, n)) => if n > 0 && i + n <= s.len() {
                match parse_records(s, i + n) {
                    Some(rs) => Some(seq![r] + rs),
                    None => None,
                }
            } else {
                None
            },
        }
    }
}

/// The views of a sequence of records.
pub open spec fn recs_view(v: Seq<TransactionData>) -> Seq<RecordV> {
    v.map_values(|t: TransactionData| t@)
}

fn parse_records_exec(s: &str, i: usize) -> (r: Option<Vec<TransactionData>>)
    ensures
        match r {
            Some(v) => parse_records(s@, i as int) == Some(recs_view(v@)),
            None => parse_records(s@, i as int) is None,
        },
    decreases s@.len() - i,
{
    let n = s.unicode_len();
    if i == n {
        let v: Vec<TransactionData> = Vec::new();
        proof {
            assert(recs_view(v@) =~= Seq::<RecordV>::empty());
        }
        return Some(v);
    }
    if i > n {
        return None;
    }
    match parse_record_exec(s, i) {
        None => None,
        Some((t, c)) => {
            match parse_records_exec(s, i + c) {
                Some(mut v) => {
                    let ghost tail = v@;
                    v.insert(0, t);
                    proof {
                        assert(recs_view(v@) =~= seq![t@] + recs_view(tail));
                    }
                    Some(v)
                },
                None => None,
            }
        },
    }
}

/// Reads the whole of `log` as a sequence of serialized records, oldest
/// first; yields nothing when any part of the text is not a record.
pub fn parse_log(log: &str) -> (r: Option<Vec<TransactionData>>)
    ensures
        match r {
            Some(v) => parse_records(log@, 0) == Some(recs_view(v@)),
            None => parse_records(log@, 0) is None,
        },
{
    parse_records_exec(log, 0)
}

/// The log content after appending `r`: the old content, never truncated or
/// reordered, with the record's serialized form after it.
pub fn append_to_log(log: &str, r: &TransactionData) -> (res: Result<String, StoreError>)
    ensures
        r@.wf() ==> (res matches Ok(out) && out@ == log@ + ser_record(r@)),
        !r@.wf() ==> res == Err::<String, StoreError>(StoreError::InvalidRecord),
{
    if !r.is_wf() {
        return Err(StoreError::InvalidRecord);
    }
    let ser = serialize_record(r);
    let mut out = String::from_str(log);
    out.append(ser.as_str());
    Ok(out)
}

/// The log content after a transaction's outcome: `None` (nothing written)
/// unless the execution succeeded, in which case the record's serialized
/// form is appended to the old content; a record the store cannot carry is
/// refused. A failed or never-started execution therefore leaves the log
/// exactly as it was.
pub fn updated_log(log: &str, record: &TransactionData, exec: &crate::executor::ExecutionResult)
    -> (res: Result<Option<String>, StoreError>)
    ensures
        !(exec is Success) ==> res == Ok::<Option<String>, StoreError>(None),
        exec is Success && record@.wf() ==> (res matches Ok(o) && o matches Some(out) && out@
            == log@ + ser_record(record@)),
        exec is Success && !record@.wf() ==> res == Err::<Option<String>, StoreError>(
            StoreError::InvalidRecord,
        ),
{
    if crate::executor::should_record(exec) {
        match append_to_log(log, record) {
            Ok(s) => Ok(Some(s)),
            Err(e) => Err(e),
        }
    } else {
        Ok(None)
    }
}

/// A concatenation of well-formed serialized records parses back to exactly
/// those records, in order.
proof fn lemma_parse_ser_log(s: Seq<char>, i: int, rs: Seq<RecordV>)
    requires
        forall|k: int| 0 <= k < rs.len() ==> (#[trigger] rs[k]).wf(),
        0 <= i,
        i + ser_log(rs).len() == s.len(),
        s.subrange(i, s.len() as int) == ser_log(rs),
    ensures
        parse_records(s, i) == Some(rs),
    decreases rs.len(),
{
    if rs.len() == 0 {
        assert(i == s.len());
    } else {
        let r0 = rs[0];
        let rest = rs.drop_first();
        let a = ser_record(r0);
        let b = ser_log(rest);
        assert(ser_log(rs) == a + b);
        assert(s.subrange(i, i + a.len() + b.len()) == a + b);
        crate::record::lemma_split(s, i, a, b);
        lemma_parse_ser_record(s, i, r0);
        assert(a.len() >= 16) by {
            assert(a.len() == crate::record::header_str().len() + crate::record::packages_prefix().len()
                + crate::record::ser_pkg_list(r0.packages).len()
                + crate::record::packages_suffix().len() + crate::record::ser_name(r0.name).len()
                + crate::record::timestamp_prefix().len()
                + crate::timestamp::fmt_ts(r0.timestamp).len() + 1);
        }
        assert(forall|k: int| 0 <= k < rest.len() ==> (#[trigger] rest[k]).wf()) by {
            assert(forall|k: int| 0 <= k < rest.len() ==> rest[k] == rs[k + 1]);
        }
        lemma_parse_ser_log(s, i + a.len(), rest);
        assert(seq![r0] + rest =~= rs);
    }
}

/// Any sequence of well-formed records survives the log unchanged: writing
/// them one after the other and parsing the file back yields the same
/// records in the same order.
pub proof fn lemma_log_round_trip(rs: Seq<RecordV>)
    requires
        forall|k: int| 0 <= k < rs.len() ==> (#[trigger] rs[k]).wf(),
    ensures
        parse_records(ser_log(rs), 0) == Some(rs),
{
    let s = ser_log(rs);
    assert(s.subrange(0, s.len() as int) =~= s);
    lemma_parse_ser_log(s, 0, rs);
}

/// Appending is non-destructive: after record `a` is written and record `b`
/// is appended after it, the file still parses, and to `a` then `b` — the
/// first record is neither lost nor changed by the second append.
pub proof fn lemma_append_non_destructive(a: RecordV, b: RecordV)
    requires
        a.wf(),
        b.wf(),
    ensures
        parse_records(ser_record(a) + ser_record(b), 0) == Some(seq![a, b]),
{
    let rs = seq![a, b];
    assert(rs[0] == a);
    assert(rs.drop_first() =~= seq![b]);
    assert(ser_log(rs) == ser_record(a) + ser_log(seq![b]));
    assert(seq![b][0] == b);
    assert(seq![b].drop_first() =~= Seq::<RecordV>::empty());
    assert(ser_log(seq![b]) == ser_record(b) + ser_log(Seq::<RecordV>::empty()));
    assert(ser_log(Seq::<RecordV>::empty()) == Seq::<char>::empty());
    assert(ser_record(b) + Seq::<char>::empty() =~= ser_record(b));
    assert(ser_log(rs) == ser_record(a) + ser_record(b));
    lemma_log_round_trip(rs);
}

} // verus!
