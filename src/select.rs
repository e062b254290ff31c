//! The selector: the record with the lowest load among those extracted.

use vstd::prelude::*;
use crate::host::{hosts_view, HostModel, HostRecord};
use crate::load::{lemma_at_most_transitive, load_at_most};

verus! {

broadcast use vstd::seq_lib::to_multiset_contains;

/// Why no record could be selected.
#[derive(Clone, Copy, Debug, PartialEq, Eq, Structural)]
pub enum SelectError {
    /// There was no record to choose from.
    NoHostsAvailable,
}

/// `hosts[i]` has the lowest load of `hosts`, and no earlier record has a
/// load that low.
pub open spec fn is_first_minimum(hosts: Seq<HostModel>, i: int) -> bool {
    &&& 0 <= i < hosts.len()
    &&& forall|j: int| 0 <= j < hosts.len() ==> hosts[i].load.at_most(#[trigger] hosts[j].load)
    &&& forall|j: int| 0 <= j < i ==> hosts[i].load.below(#[trigger] hosts[j].load)
}

/// `h` is the record that selection owes for `hosts`: the first of those
/// with the lowest load.
pub open spec fn is_selected(hosts: Seq<HostModel>, h: HostModel) -> bool {
    exists|i: int| is_first_minimum(hosts, i) && hosts[i] == h
}

/// No two records of `hosts` have loads of the same value.
pub open spec fn distinct_loads(hosts: Seq<HostModel>) -> bool {
    forall|i: int, j: int|
        0 <= i < hosts.len() && 0 <= j < hosts.len() && i != j ==> !(
        #[trigger] hosts[i]).load.same_value((#[trigger] hosts[j]).load)
}

/// The record with the lowest load; where several share it, the earliest of
/// them. Fails with `NoHostsAvailable` exactly when there are no records.
/// Availability, uptime and user count play no part.
pub fn select_minimum(records: &Vec<HostRecord>) -> (r: Result<HostRecord, SelectError>)
    ensures
        records@.len() == 0 <==> r == Err::<HostRecord, SelectError>(SelectError::NoHostsAvailable),
        r matches Ok(h) ==> is_selected(hosts_view(*records), h@),
{
    if records.len() == 0 {
        return Err(SelectError::NoHostsAvailable);
    }
    let ghost hosts = hosts_view(*records);
    let mut best: usize = 0;
    let mut i: usize = 1;
    while i < records.len()
        invariant
            hosts == hosts_view(*records),
            1 <= i <= records.len(),
            best < i,
            forall|j: int| 0 <= j < i ==> hosts[best as int].load.at_most(#[trigger] hosts[j].load),
            forall|j: int| 0 <= j < best ==> hosts[best as int].load.below(#[trigger] hosts[j].load),
        decreases records.len() - i,
    {
        if !load_at_most(records[best].load, records[i].load) {
            proof {
                let n = hosts[i as int].load;
                let o = hosts[best as int].load;
                assert forall|j: int| 0 <= j < i implies n.at_most(#[trigger] hosts[j].load)
                    && n.below(hosts[j].load) by {
                    lemma_at_most_transitive(n, o, hosts[j].load);
                    if hosts[j].load.at_most(n) {
                        lemma_at_most_transitive(o, hosts[j].load, n);
                    }
                }
            }
            best = i;
        }
        i = i + 1;
    }
    let chosen = records[best].duplicate();
    assert(is_first_minimum(hosts, best as int) && hosts[best as int] == chosen@);
    Ok(chosen)
}

/// The load selected does not depend on the order of the records: for two
/// orderings of the same records, the selected loads are the same number,
/// and where no two loads are the same number they are the same record.
pub proof fn lemma_selection_order_independent(
    first: Seq<HostModel>,
    second: Seq<HostModel>,
    a: HostModel,
    b: HostModel,
)
    requires
        first.to_multiset() == second.to_multiset(),
        is_selected(first, a),
        is_selected(second, b),
    ensures
        a.load.same_value(b.load),
        distinct_loads(first) ==> a == b,
{
    let i = choose|i: int| is_first_minimum(first, i) && first[i] == a;
    let j = choose|j: int| is_first_minimum(second, j) && second[j] == b;
    assert(first.contains(a));
    assert(second.to_multiset().count(a) > 0);
    assert(second.contains(a));
    let k = choose|k: int| 0 <= k < second.len() && second[k] == a;
    assert(b.load.at_most(second[k].load));
    assert(second.contains(b));
    assert(first.to_multiset().count(b) > 0);
    assert(first.contains(b));
    let m = choose|m: int| 0 <= m < first.len() && first[m] == b;
    assert(a.load.at_most(first[m].load));
    if distinct_loads(first) && i != m {
        assert(!first[i].load.same_value(first[m].load));
    }
}

} // verus!
