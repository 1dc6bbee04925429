//! The report order on per-path results: successes by size, largest first,
//! and every failure after every success.

use std::cmp::Ordering;
use vstd::prelude::*;

verus! {

broadcast use vstd::seq_lib::group_to_multiset_ensures;

/// The result computed for one root path, paired with that path.
pub struct SizeOrErr(pub Result<u64, String>, pub String);

/// The sort key of a result: its size for a success, and `-1` for a failure,
/// below every size.
pub open spec fn rank(s: SizeOrErr) -> int {
    match s.0 {
        Ok(n) => n as int,
        Err(_) => -1,
    }
}

/// The comparison of two integers.
pub open spec fn compare_int(a: int, b: int) -> Ordering {
    if a < b {
        Ordering::Less
    } else if a > b {
        Ordering::Greater
    } else {
        Ordering::Equal
    }
}

/// Whether a sequence is in report order: ranks never increase.
pub open spec fn in_report_order(s: Seq<SizeOrErr>) -> bool {
    forall|i: int, j: int| 0 <= i < j < s.len() ==> rank(#[trigger] s[i]) >= rank(#[trigger] s[j])
}

/// Whether `report` holds exactly the entries of `input`, in report order.
pub open spec fn is_report_of(input: Seq<SizeOrErr>, report: Seq<SizeOrErr>) -> bool {
    &&& report.to_multiset() == input.to_multiset()
    &&& in_report_order(report)
}

impl SizeOrErr {
    /// Compares two results: two successes by size, a success above a
    /// failure, and any two failures as equal.
    pub fn cmp(&self, other: &Self) -> (r: Ordering)
        ensures
            r == compare_int(rank(*self), rank(*other)),
    {
        match (&self.0, &other.0) {
            (Ok(a), Ok(b)) => {
                if *a < *b {
                    Ordering::Less
                } else if *a > *b {
                    Ordering::Greater
                } else {
                    Ordering::Equal
                }
            },
            (Ok(_), Err(_)) => Ordering::Greater,
            (Err(_), Ok(_)) => Ordering::Less,
            (Err(_), Err(_)) => Ordering::Equal,
        }
    }
}

impl PartialEq for SizeOrErr {
    /// Two results are equal in the report order when neither ranks above
    /// the other.
    fn eq(&self, other: &Self) -> (r: bool) {
        match self.cmp(other) {
            Ordering::Equal => true,
            _ => false,
        }
    }
}

impl vstd::std_specs::cmp::PartialEqSpecImpl for SizeOrErr {
    open spec fn obeys_eq_spec() -> bool {
        true
    }

    open spec fn eq_spec(&self, other: &SizeOrErr) -> bool {
        rank(*self) == rank(*other)
    }
}

impl PartialOrd for SizeOrErr {
    fn partial_cmp(&self, other: &Self) -> (r: Option<Ordering>) {
        Some(self.cmp(other))
    }
}

impl vstd::std_specs::cmp::PartialOrdSpecImpl for SizeOrErr {
    open spec fn obeys_partial_cmp_spec() -> bool {
        true
    }

    open spec fn partial_cmp_spec(&self, other: &SizeOrErr) -> Option<Ordering> {
        Some(compare_int(rank(*self), rank(*other)))
    }
}

impl Eq for SizeOrErr {

}

/// Orders results for the report: largest size first, failures last.
pub fn collect(results: Vec<SizeOrErr>) -> (r: Vec<SizeOrErr>)
    ensures
        is_report_of(results@, r@),
{
    let mut rest = results;
    let mut out: Vec<SizeOrErr> = Vec::new();
    while rest.len() > 0
        invariant
            in_report_order(out@),
            out@.to_multiset().add(rest@.to_multiset()) == results@.to_multiset(),
        decreases rest.len(),
    {
        let ghost prev_rest = rest@;
        let item = rest.pop().unwrap();
        assert(prev_rest =~= rest@.push(item));
        let mut j: usize = 0;
        let mut found = false;
        while !found && j < out.len()
            invariant
                j <= out.len(),
                forall|k: int| 0 <= k < j ==> rank(#[trigger] out@[k]) >= rank(item),
                found ==> j < out.len() && rank(out@[j as int]) < rank(item),
            decreases out.len() - j + (if found { 0int } else { 1int }),
        {
            match out[j].cmp(&item) {
                Ordering::Less => {
                    found = true;
                },
                _ => {
                    j = j + 1;
                },
            }
        }
        let ghost before = out@;
        out.insert(j, item);
        assert(out@ == before.insert(j as int, item));
        assert(in_report_order(out@)) by {
            assert forall|a: int, b: int| 0 <= a < b < out@.len() implies rank(
                #[trigger] out@[a],
            ) >= rank(#[trigger] out@[b]) by {
                if a < j && b < j {
                    assert(out@[a] == before[a] && out@[b] == before[b]);
                } else if a < j && b == j {
                } else if a < j {
                    assert(out@[a] == before[a] && out@[b] == before[b - 1]);
                } else if a == j {
                    assert(out@[b] == before[b - 1]);
                    assert(rank(before[j as int]) < rank(item));
                } else {
                    assert(out@[a] == before[a - 1] && out@[b] == before[b - 1]);
                }
            };
        };
    }
    assert(rest@ =~= Seq::<SizeOrErr>::empty());
    assert(out@.to_multiset() =~= results@.to_multiset());
    out
}

/// A report holds one entry for each input result: none dropped, none
/// repeated.
pub proof fn lemma_report_keeps_every_entry(input: Seq<SizeOrErr>, report: Seq<SizeOrErr>)
    requires
        is_report_of(input, report),
    ensures
        report.len() == input.len(),
        forall|s: SizeOrErr| report.to_multiset().count(s) == input.to_multiset().count(s),
{
    assert(report.to_multiset().len() == report.len());
    assert(input.to_multiset().len() == input.len());
}

} // verus!
