//! Recursive size aggregation over a snapshot of a filesystem subtree, with
//! all-or-nothing failure propagation at each directory.

use rayon::iter::{IndexedParallelIterator, IntoParallelRefIterator, ParallelIterator};
use vstd::prelude::*;

verus! {

/// A snapshot of one filesystem entry and, for a directory, of everything
/// listed beneath it.
pub enum Entry {
    /// A symbolic link whose target does not exist.
    Dangling,
    /// A non-directory entry, with the length its own metadata reports.
    File(u64),
    /// A directory that was listed, with one snapshot per listed child.
    Dir(Vec<Entry>),
    /// An entry that could not be classified, whose metadata could not be
    /// read, or a directory that could not be listed; with the cause.
    Failed(String),
}

/// The outcome of aggregating: a byte total, or the cause of a failure.
pub type Total = Result<int, Seq<char>>;

/// The view of an executable aggregation result.
pub open spec fn total_view(r: Result<u64, String>) -> Total {
    match r {
        Ok(n) => Ok(n as int),
        Err(c) => Err(c@),
    }
}

/// Adds a child's outcome to the outcome of the children before it: the
/// first failure wins, and only successes are summed.
pub open spec fn combine(acc: Total, next: Total) -> Total {
    match acc {
        Err(c) => Err(c),
        Ok(a) => match next {
            Err(c) => Err(c),
            Ok(b) => Ok(a + b),
        },
    }
}

/// The aggregate size of an entry: zero for a dangling link, the length of a
/// non-directory entry, the failure of an entry that failed, and for a
/// directory the sum of its children, or the first child failure.
pub open spec fn total(e: Entry) -> Total
    decreases e, 0nat,
{
    match e {
        Entry::Dangling => Ok(0),
        Entry::File(n) => Ok(n as int),
        Entry::Failed(c) => Err(c@),
        Entry::Dir(children) => total_prefix(children, children.len() as nat),
    }
}

/// The combined outcome of the first `k` children.
pub open spec fn total_prefix(children: Vec<Entry>, k: nat) -> Total
    decreases children, k,
{
    if k == 0 || k > children.len() {
        Ok(0)
    } else {
        combine(total_prefix(children, (k - 1) as nat), total(children[k - 1]))
    }
}

/// The sum of every length in the subtree, failed entries counting zero.
pub open spec fn raw_sum(e: Entry) -> nat
    decreases e, 0nat,
{
    match e {
        Entry::Dangling => 0,
        Entry::File(n) => n as nat,
        Entry::Failed(_) => 0,
        Entry::Dir(children) => raw_sum_prefix(children, children.len() as nat),
    }
}

/// The raw sum of the first `k` children.
pub open spec fn raw_sum_prefix(children: Vec<Entry>, k: nat) -> nat
    decreases children, k,
{
    if k == 0 || k > children.len() {
        0
    } else {
        raw_sum_prefix(children, (k - 1) as nat) + raw_sum(children[k - 1])
    }
}

/// Whether a subtree holds no failed entry.
pub open spec fn no_failures(e: Entry) -> bool
    decreases e, 0nat,
{
    match e {
        Entry::Failed(_) => false,
        Entry::Dir(children) => no_failures_prefix(children, children.len() as nat),
        _ => true,
    }
}

/// Whether the first `k` children hold no failed entry.
pub open spec fn no_failures_prefix(children: Vec<Entry>, k: nat) -> bool
    decreases children, k,
{
    if k == 0 || k > children.len() {
        true
    } else {
        no_failures_prefix(children, (k - 1) as nat) && no_failures(children[k - 1])
    }
}

/// A successful total never exceeds the raw sum.
proof fn lemma_total_le_raw(e: Entry)
    ensures
        total(e) is Ok ==> total(e)->Ok_0 <= raw_sum(e),
        total(e) is Ok ==> total(e)->Ok_0 >= 0,
    decreases e, 0nat,
{
    if let Entry::Dir(children) = e {
        lemma_total_prefix_le_raw(children, children.len() as nat);
    }
}

proof fn lemma_total_prefix_le_raw(children: Vec<Entry>, k: nat)
    ensures
        total_prefix(children, k) is Ok ==> total_prefix(children, k)->Ok_0 <= raw_sum_prefix(
            children,
            k,
        ),
        total_prefix(children, k) is Ok ==> total_prefix(children, k)->Ok_0 >= 0,
    decreases children, k,
{
    if k > 0 && k <= children.len() {
        lemma_total_prefix_le_raw(children, (k - 1) as nat);
        lemma_total_le_raw(children[k - 1]);
    }
}

/// The raw sum of a prefix grows with the prefix.
proof fn lemma_raw_prefix_monotone(children: Vec<Entry>, j: nat, k: nat)
    requires
        j <= k <= children.len(),
    ensures
        raw_sum_prefix(children, j) <= raw_sum_prefix(children, k),
    decreases k - j,
{
    if j < k {
        lemma_raw_prefix_monotone(children, j, (k - 1) as nat);
    }
}

/// Once a prefix of the children has failed, every longer prefix fails
/// with the same cause.
proof fn lemma_failure_persists(children: Vec<Entry>, j: nat, k: nat)
    requires
        j <= k <= children.len(),
        total_prefix(children, j) is Err,
    ensures
        total_prefix(children, k) == total_prefix(children, j),
    decreases k - j,
{
    if j < k {
        lemma_failure_persists(children, j, (k - 1) as nat);
    }
}

/// Relies on rayon's `par_iter().map(..).collect_into_vec(..)`: the children
/// are aggregated in parallel, and the vector holds the result of child `i`
/// at index `i`.
#[verifier::external_body]
fn child_totals(children: &Vec<Entry>) -> (r: Vec<Result<u64, String>>)
    requires
        forall|i: int| 0 <= i < children.len() ==> raw_sum(#[trigger] children[i]) <= u64::MAX,
    ensures
        r.len() == children.len(),
        forall|i: int| 0 <= i < r.len() ==> total_view(#[trigger] r[i]) == total(children[i]),
{
    let mut r = Vec::new();
    children.par_iter().map(|c| aggregate(c)).collect_into_vec(&mut r);
    r
}

/// The aggregate size of an entry, its children aggregated in parallel.
pub fn aggregate(e: &Entry) -> (r: Result<u64, String>)
    requires
        raw_sum(*e) <= u64::MAX,
    ensures
        total_view(r) == total(*e),
    decreases e,
{
    match e {
        Entry::Dangling => Ok(0),
        Entry::File(n) => Ok(*n),
        Entry::Failed(c) => Err(c.clone()),
        Entry::Dir(children) => {
            assert forall|i: int| 0 <= i < children.len() implies raw_sum(
                #[trigger] children[i],
            ) <= u64::MAX by {
                lemma_raw_prefix_monotone(*children, (i + 1) as nat, children.len() as nat);
            };
            let results = child_totals(children);
            let mut acc: u64 = 0;
            let mut i: usize = 0;
            while i < results.len()
                invariant
                    results.len() == children.len(),
                    i <= results.len(),
                    forall|j: int|
                        0 <= j < results.len() ==> total_view(#[trigger] results[j]) == total(
                            children[j],
                        ),
                    total_prefix(*children, i as nat) == Ok::<int, Seq<char>>(acc as int),
                    total(*e) == total_prefix(*children, children.len() as nat),
                    raw_sum(*e) == raw_sum_prefix(*children, children.len() as nat),
                    raw_sum(*e) <= u64::MAX,
                decreases results.len() - i,
            {
                match &results[i] {
                    Ok(n) => {
                        proof {
                            lemma_total_prefix_le_raw(*children, (i + 1) as nat);
                            lemma_raw_prefix_monotone(
                                *children,
                                (i + 1) as nat,
                                children.len() as nat,
                            );
                        }
                        acc = acc + *n;
                    },
                    Err(c) => {
                        proof {
                            lemma_failure_persists(
                                *children,
                                (i + 1) as nat,
                                children.len() as nat,
                            );
                        }
                        let cause = c.clone();
                        return Err(cause);
                    },
                }
                i = i + 1;
            }
            Ok(acc)
        },
    }
}

/// The raw sum of a subtree when it fits in 64 bits, else `None`.
pub fn checked_raw_sum(e: &Entry) -> (r: Option<u64>)
    ensures
        r is Some <==> raw_sum(*e) <= u64::MAX,
        r is Some ==> r->Some_0 == raw_sum(*e),
    decreases e,
{
    match e {
        Entry::Dangling => Some(0),
        Entry::File(n) => Some(*n),
        Entry::Failed(_) => Some(0),
        Entry::Dir(children) => {
            let mut acc: u64 = 0;
            let mut i: usize = 0;
            while i < children.len()
                invariant
                    i <= children.len(),
                    acc == raw_sum_prefix(*children, i as nat),
                    *e == Entry::Dir(*children),
                    raw_sum(*e) == raw_sum_prefix(*children, children.len() as nat),
                decreases children.len() - i,
            {
                proof {
                    lemma_raw_prefix_monotone(*children, (i + 1) as nat, children.len() as nat);
                    vstd::std_specs::vec::axiom_vec_index_decreases(*children, i as int);
                    assert(decreases_to!(*e => *children));
                    assert(decreases_to!(*e => children[i as int]));
                }
                match checked_raw_sum(&children[i]) {
                    Some(n) => match acc.checked_add(n) {
                        Some(sum) => {
                            acc = sum;
                        },
                        None => {
                            return None;
                        },
                    },
                    None => {
                        return None;
                    },
                }
                i = i + 1;
            }
            Some(acc)
        },
    }
}

/// A subtree without failed entries aggregates to exactly the sum of its
/// lengths, whatever the number of workers that computed it.
pub proof fn lemma_no_failures_exact(e: Entry)
    requires
        no_failures(e),
    ensures
        total(e) == Ok::<int, Seq<char>>(raw_sum(e) as int),
    decreases e, 0nat,
{
    if let Entry::Dir(children) = e {
        lemma_no_failures_prefix_exact(children, children.len() as nat);
    }
}

proof fn lemma_no_failures_prefix_exact(children: Vec<Entry>, k: nat)
    requires
        no_failures_prefix(children, k),
    ensures
        total_prefix(children, k) == Ok::<int, Seq<char>>(raw_sum_prefix(children, k) as int),
    decreases children, k,
{
    if k > 0 && k <= children.len() {
        lemma_no_failures_prefix_exact(children, (k - 1) as nat);
        lemma_no_failures_exact(children[k - 1]);
    }
}

/// A directory with a child whose aggregation fails fails as a whole: its
/// result is never a partial sum of the other children.
pub proof fn lemma_failed_child_fails_dir(children: Vec<Entry>, i: int)
    requires
        0 <= i < children.len(),
        total(children[i]) is Err,
    ensures
        total(Entry::Dir(children)) is Err,
{
    assert(total_prefix(children, (i + 1) as nat) is Err);
    lemma_failure_persists(children, (i + 1) as nat, children.len() as nat);
}

/// A dangling symbolic link aggregates to zero, not to a failure.
pub proof fn lemma_dangling_is_zero()
    ensures
        total(Entry::Dangling) == Ok::<int, Seq<char>>(0),
{
}

/// Aggregating the same unchanged subtree twice gives the same result.
pub proof fn lemma_aggregate_repeatable(first: Entry, second: Entry)
    requires
        first == second,
    ensures
        total(first) == total(second),
{
}

} // verus!
