use vstd::prelude::*;
use vstd::string::*;
use crate::record::TransactionData;

verus! {

/// Whether the characters of `a` and `b` are the same.
fn str_eq(a: &str, b: &str) -> (r: bool)
    ensures
        r == (a@ == b@),
{
    let n = a.unicode_len();
    if n != b.unicode_len() {
        return false;
    }
    let mut k: usize = 0;
    while k < n
        invariant
            k <= n,
            n == a@.len(),
            n == b@.len(),
            forall|j: int| 0 <= j < k ==> a@[j] == b@[j],
        decreases n - k,
    {
        if a.get_char(k) != b.get_char(k) {
            return false;
        }
        k += 1;
    }
    proof {
        assert(a@ =~= b@);
    }
    true
}

/// Picks the record a rollback should reverse. With a name, the most recent
/// record bearing exactly that name; without one, the most recent record of
/// all. Yields its position in `records`, oldest record first, or nothing
/// when no record qualifies.
pub fn resolve(records: &Vec<TransactionData>, name: Option<&str>) -> (r: Option<usize>)
    ensures
        match name {
            Some(n) => match r {
                Some(i) => i < records@.len() && records@[i as int]@.name == Some(n@) && forall|
                    j: int,
                |
                    i < j < records@.len() ==> (#[trigger] records@[j]@.name) != Some(n@),
                None => forall|j: int|
                    0 <= j < records@.len() ==> (#[trigger] records@[j]@.name) != Some(n@),
            },
            None => match r {
                Some(i) => records@.len() > 0 && i == records@.len() - 1,
                None => records@.len() == 0,
            },
        },
{
    if name.is_some() {
        let n = name.unwrap();
        let mut k: usize = records.len();
        while k > 0
            invariant
                k <= records@.len(),
                name == Some(n),
                forall|j: int|
                    k <= j < records@.len() ==> (#[trigger] records@[j]@.name) != Some(n@),
            decreases k,
        {
            k = k - 1;
            match &records[k].name {
                Some(nm) => {
                    if str_eq(nm.as_str(), n) {
                        proof {
                            assert(records@[k as int].name == Some(*nm));
                            assert(nm@ == n@);
                            assert(records@[k as int]@.name == Some(n@));
                        }
                        return Some(k);
                    }
                },
                None => {},
            }
            proof {
                assert(records@[k as int]@.name != Some(n@));
            }
        }
        None
    } else {
        if records.len() == 0 {
            None
        } else {
            Some(records.len() - 1)
        }
    }
}

} // verus!
