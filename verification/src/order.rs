//! Resolving declared before/after constraints into a runnable unit order,
//! and assembling whole workloads: a constraint cycle fails construction
//! before any batch is planned.

use crate::info::SystemInfo;
use crate::info::WorkloadInfo;
use crate::planner::batches_view;
use crate::planner::plan;
use crate::planner::plan_spec;
use vstd::prelude::*;

verus! {

/// True when some rendered label in `labels` equals `t`.
pub open spec fn seq_has_text(labels: Seq<String>, t: Seq<char>) -> bool {
    exists|i: int| 0 <= i < labels.len() && labels[i]@ == t
}

/// The declared constraint that `a` must run before `b`: `a` names `b` among
/// its `before` labels, or `b` names `a` among its `after` labels. Units are
/// referred to by their display name, which is what the labels render to.
pub open spec fn must_precede(a: SystemInfo, b: SystemInfo) -> bool {
    seq_has_text(a.before@, b.name@) || seq_has_text(b.after@, a.name@)
}

/// `order` satisfies every declared constraint: no unit is required to
/// precede one placed at or before its own position.
pub open spec fn order_ok(order: Seq<SystemInfo>) -> bool {
    forall|p: int, q: int|
        0 <= p <= q < order.len() ==> !must_precede(#[trigger] order[q], #[trigger] order[p])
}

/// Some unit of `rem` is required to precede its member at position `i`.
pub open spec fn has_blocker(rem: Seq<SystemInfo>, i: int) -> bool {
    exists|k: int| 0 <= k < rem.len() && must_precede(rem[k], rem[i])
}

/// Every unit of `rem` has, within `rem` itself, a unit required to precede
/// it: the shape a constraint cycle leaves behind.
pub open spec fn blocked(rem: Seq<SystemInfo>) -> bool {
    forall|i: int| 0 <= i < rem.len() ==> has_blocker(rem, i)
}

/// No arrangement of exactly these units satisfies all the constraints.
pub open spec fn no_valid_order(systems: Seq<SystemInfo>) -> bool {
    forall|order: Seq<SystemInfo>|
        order.to_multiset() == systems.to_multiset() ==> !order_ok(order)
}

/// What a constraint-cycle error reports: `units` renders, name for name, a
/// nonempty set of the input's units each of which another of them must
/// precede.
pub open spec fn cycle_witness(
    units: Seq<String>,
    rem: Seq<SystemInfo>,
    systems: Seq<SystemInfo>,
) -> bool {
    &&& rem.len() > 0
    &&& blocked(rem)
    &&& forall|x: SystemInfo| rem.to_multiset().count(x) <= systems.to_multiset().count(x)
    &&& units.len() == rem.len()
    &&& forall|i: int| 0 <= i < rem.len() ==> (#[trigger] units[i])@ == rem[i].name@
}

/// Why a workload could not be built.
#[derive(Debug, PartialEq)]
pub enum SchedulingError {
    /// The before/after constraints of the named units admit no order.
    ConstraintCycle { units: Vec<String> },
}

/// The error names a genuine constraint cycle of the given unit list.
pub open spec fn error_explains(e: SchedulingError, systems: Seq<SystemInfo>) -> bool {
    match e {
        SchedulingError::ConstraintCycle { units } => exists|rem: Seq<SystemInfo>|
            cycle_witness(units@, rem, systems),
    }
}

/// The earliest position in `order` holding a member of `rem`.
spec fn first_at(order: Seq<SystemInfo>, rem: Seq<SystemInfo>) -> int
    decreases order.len(),
{
    if order.len() == 0 {
        0
    } else if rem.contains(order[0]) {
        0
    } else {
        1 + first_at(order.drop_first(), rem)
    }
}

proof fn lemma_first_at(order: Seq<SystemInfo>, rem: Seq<SystemInfo>)
    requires
        exists|p: int| 0 <= p < order.len() && rem.contains(#[trigger] order[p]),
    ensures
        0 <= first_at(order, rem) < order.len(),
        rem.contains(order[first_at(order, rem)]),
        forall|q: int| 0 <= q < first_at(order, rem) ==> !rem.contains(#[trigger] order[q]),
    decreases order.len(),
{
    if !rem.contains(order[0]) {
        let p = choose|p: int| 0 <= p < order.len() && rem.contains(#[trigger] order[p]);
        assert(order.drop_first()[p - 1] == order[p]);
        lemma_first_at(order.drop_first(), rem);
        let fa = first_at(order.drop_first(), rem);
        assert(order[1 + fa] == order.drop_first()[fa]);
        assert forall|q: int| 0 <= q < first_at(order, rem) implies !rem.contains(
            #[trigger] order[q],
        ) by {
            if q > 0 {
                assert(order[q] == order.drop_first()[q - 1]);
            }
        }
    }
}

/// A blocked set rules out any valid arrangement of a unit list that holds
/// all its members: the earliest blocked member in such an arrangement would
/// still have a blocker at or after its own position.
proof fn lemma_blocked_no_order(rem: Seq<SystemInfo>, systems: Seq<SystemInfo>)
    requires
        rem.len() > 0,
        blocked(rem),
        forall|x: SystemInfo| rem.to_multiset().count(x) <= systems.to_multiset().count(x),
    ensures
        no_valid_order(systems),
{
    broadcast use vstd::seq_lib::group_to_multiset_ensures;

    assert forall|order: Seq<SystemInfo>|
        order.to_multiset() == systems.to_multiset() implies !order_ok(order) by {
        assert forall|x: SystemInfo| rem.contains(x) implies order.contains(x) by {
            assert(rem.to_multiset().count(x) > 0);
            assert(order.to_multiset().count(x) > 0);
        }
        assert(rem.contains(rem[0]));
        assert(order.contains(rem[0]));
        let j0 = choose|j0: int| 0 <= j0 < order.len() && order[j0] == rem[0];
        assert(rem.contains(order[j0]));
        lemma_first_at(order, rem);
        let p = first_at(order, rem);
        let u = order[p];
        let i = choose|i: int| 0 <= i < rem.len() && rem[i] == u;
        assert(has_blocker(rem, i));
        let k = choose|k: int| 0 <= k < rem.len() && must_precede(rem[k], rem[i]);
        let w = rem[k];
        assert(rem.contains(w));
        assert(order.contains(w));
        let q = choose|q: int| 0 <= q < order.len() && order[q] == w;
        if q < p {
            assert(!rem.contains(order[q]));
            assert(false);
        }
        assert(must_precede(order[q], order[p]) && 0 <= p <= q < order.len());
        assert(!order_ok(order));
    }
}

/// Two units that each must precede the other admit no valid order at all:
/// whichever stands first, the constraint pointing backwards is violated.
pub proof fn lemma_mutual_constraint_unorderable(systems: Seq<SystemInfo>, i: int, j: int)
    requires
        0 <= i < systems.len(),
        0 <= j < systems.len(),
        must_precede(systems[i], systems[j]),
        must_precede(systems[j], systems[i]),
    ensures
        no_valid_order(systems),
{
    broadcast use vstd::seq_lib::group_to_multiset_ensures;

    let a = systems[i];
    let b = systems[j];
    assert forall|order: Seq<SystemInfo>|
        order.to_multiset() == systems.to_multiset() implies !order_ok(order) by {
        assert(systems.contains(a));
        assert(systems.contains(b));
        assert(order.to_multiset().count(a) > 0);
        assert(order.to_multiset().count(b) > 0);
        assert(order.contains(a));
        assert(order.contains(b));
        let p = choose|p: int| 0 <= p < order.len() && order[p] == a;
        let q = choose|q: int| 0 <= q < order.len() && order[q] == b;
        if p <= q {
            assert(must_precede(order[q], order[p]) && 0 <= p <= q < order.len());
            assert(!order_ok(order));
        } else {
            assert(must_precede(order[p], order[q]) && 0 <= q <= p < order.len());
            assert(!order_ok(order));
        }
    }
}

fn contains_text(labels: &Vec<String>, t: &String) -> (r: bool)
    ensures
        r == seq_has_text(labels@, t@),
{
    let mut i: usize = 0;
    while i < labels.len()
        invariant
            i <= labels.len(),
            forall|k: int| 0 <= k < i ==> labels@[k]@ != t@,
        decreases labels.len() - i,
    {
        if labels[i] == *t {
            return true;
        }
        i = i + 1;
    }
    false
}

fn must_precede_check(a: &SystemInfo, b: &SystemInfo) -> (r: bool)
    ensures
        r == must_precede(*a, *b),
{
    if contains_text(&a.before, &b.name) {
        true
    } else {
        contains_text(&b.after, &a.name)
    }
}

fn find_blocker(remaining: &Vec<SystemInfo>, i: usize) -> (r: Option<usize>)
    requires
        i < remaining@.len(),
    ensures
        r matches Some(k) ==> (k as int) < remaining@.len() && must_precede(
            remaining@[k as int],
            remaining@[i as int],
        ),
        r is None ==> forall|k: int|
            0 <= k < remaining@.len() ==> !must_precede(
                #[trigger] remaining@[k],
                remaining@[i as int],
            ),
{
    let mut k: usize = 0;
    while k < remaining.len()
        invariant
            k <= remaining@.len(),
            i < remaining@.len(),
            forall|k2: int|
                0 <= k2 < k ==> !must_precede(#[trigger] remaining@[k2], remaining@[i as int]),
        decreases remaining@.len() - k,
    {
        if must_precede_check(&remaining[k], &remaining[i]) {
            return Some(k);
        }
        k = k + 1;
    }
    None
}

fn find_pickable(remaining: &Vec<SystemInfo>) -> (r: Option<usize>)
    ensures
        r matches Some(p) ==> (p as int) < remaining@.len() && (forall|k: int|
            0 <= k < remaining@.len() ==> !must_precede(
                #[trigger] remaining@[k],
                remaining@[p as int],
            )),
        r is None ==> blocked(remaining@),
{
    let mut i: usize = 0;
    while i < remaining.len()
        invariant
            i <= remaining@.len(),
            forall|i2: int| 0 <= i2 < i ==> has_blocker(remaining@, i2),
        decreases remaining@.len() - i,
    {
        match find_blocker(remaining, i) {
            Some(k) => {
                proof {
                    assert(must_precede(remaining@[k as int], remaining@[i as int]));
                    assert(has_blocker(remaining@, i as int));
                }
                i = i + 1;
            },
            None => {
                return Some(i);
            },
        }
    }
    None
}

fn unit_names(units: &Vec<SystemInfo>) -> (r: Vec<String>)
    ensures
        r@.len() == units@.len(),
        forall|i: int| 0 <= i < r@.len() ==> #[trigger] r@[i]@ == units@[i].name@,
{
    let mut r: Vec<String> = Vec::new();
    let mut i: usize = 0;
    while i < units.len()
        invariant
            i <= units.len(),
            r@.len() == i,
            forall|k: int| 0 <= k < i ==> #[trigger] r@[k]@ == units@[k].name@,
        decreases units.len() - i,
    {
        r.push(units[i].name.clone());
        i = i + 1;
    }
    r
}

/// Arranges `systems` so that every declared before/after constraint holds,
/// preferring declaration order where the constraints leave a choice: each
/// step takes the earliest remaining unit that no remaining unit must
/// precede. Returns the constraint-cycle error, naming the units left over,
/// exactly when the constraints admit no order at all.
pub fn resolve_order(systems: Vec<SystemInfo>) -> (r: Result<Vec<SystemInfo>, SchedulingError>)
    ensures
        r matches Ok(order) ==> order@.to_multiset() == systems@.to_multiset() && order_ok(
            order@,
        ),
        r is Err ==> no_valid_order(systems@),
        r matches Err(e) ==> error_explains(e, systems@),
{
    let ghost all: Seq<SystemInfo> = systems@;
    let mut remaining = systems;
    let mut order: Vec<SystemInfo> = Vec::new();
    proof {
        broadcast use vstd::seq_lib::group_to_multiset_ensures;
        broadcast use vstd::multiset::group_multiset_axioms;

        assert(order@.to_multiset().add(remaining@.to_multiset()) =~= all.to_multiset());
    }
    while remaining.len() > 0
        invariant
            systems@ == all,
            order@.to_multiset().add(remaining@.to_multiset()) == all.to_multiset(),
            order_ok(order@),
            forall|rj: int, p: int|
                0 <= rj < remaining@.len() && 0 <= p < order@.len() ==> !must_precede(
                    #[trigger] remaining@[rj],
                    #[trigger] order@[p],
                ),
        decreases remaining@.len(),
    {
        match find_pickable(&remaining) {
            Some(p) => {
                let ghost pre_rem = remaining@;
                let ghost pre_ord = order@;
                let u = remaining.remove(p);
                order.push(u);
                proof {
                    broadcast use vstd::seq_lib::group_to_multiset_ensures;
                    broadcast use vstd::multiset::group_multiset_axioms;

                    pre_rem.remove_ensures(p as int);
                    assert(remaining@ == pre_rem.remove(p as int));
                    assert(order@ == pre_ord.push(pre_rem[p as int]));
                    assert(pre_rem.contains(pre_rem[p as int]));
                    assert(order@.to_multiset().add(remaining@.to_multiset()) =~= all.to_multiset());
                    assert forall|p2: int, q2: int|
                        0 <= p2 <= q2 < order@.len() implies !must_precede(
                        #[trigger] order@[q2],
                        #[trigger] order@[p2],
                    ) by {
                        if q2 == order@.len() - 1 {
                            assert(order@[q2] == pre_rem[p as int]);
                            if p2 < q2 {
                                assert(order@[p2] == pre_ord[p2]);
                                assert(!must_precede(pre_rem[p as int], pre_ord[p2]));
                            } else {
                                assert(!must_precede(pre_rem[p as int], pre_rem[p as int]));
                            }
                        } else {
                            assert(order@[q2] == pre_ord[q2]);
                            assert(order@[p2] == pre_ord[p2]);
                        }
                    }
                    assert forall|rj: int, p2: int|
                        0 <= rj < remaining@.len() && 0 <= p2 < order@.len() implies !must_precede(
                        #[trigger] remaining@[rj],
                        #[trigger] order@[p2],
                    ) by {
                        let w: SystemInfo = if rj < p as int {
                            pre_rem[rj]
                        } else {
                            pre_rem[rj + 1]
                        };
                        assert(remaining@[rj] == w);
                        if p2 < pre_ord.len() {
                            assert(order@[p2] == pre_ord[p2]);
                            assert(!must_precede(w, pre_ord[p2]));
                        } else {
                            assert(order@[p2] == pre_rem[p as int]);
                            assert(!must_precede(w, pre_rem[p as int]));
                        }
                    }
                }
            },
            None => {
                let units = unit_names(&remaining);
                proof {
                    broadcast use vstd::multiset::group_multiset_axioms;

                    assert forall|x: SystemInfo|
                        remaining@.to_multiset().count(x) <= all.to_multiset().count(x) by {
                        assert(all.to_multiset().count(x) == order@.to_multiset().count(x)
                            + remaining@.to_multiset().count(x));
                    }
                    lemma_blocked_no_order(remaining@, all);
                    assert(cycle_witness(units@, remaining@, systems@));
                }
                let e = SchedulingError::ConstraintCycle { units };
                proof {
                    assert(cycle_witness(e->ConstraintCycle_units@, remaining@, systems@));
                    assert(error_explains(e, systems@));
                }
                return Err(e);
            },
        }
    }
    proof {
        broadcast use vstd::seq_lib::group_to_multiset_ensures;
        broadcast use vstd::multiset::group_multiset_axioms;

        assert forall|x: SystemInfo| order@.to_multiset().count(x) == all.to_multiset().count(
            x,
        ) by {
            if remaining@.to_multiset().count(x) > 0 {
                assert(remaining@.contains(x));
            }
            assert(all.to_multiset().count(x) == order@.to_multiset().count(x)
                + remaining@.to_multiset().count(x));
        }
        assert(order@.to_multiset() =~= all.to_multiset());
    }
    Ok(order)
}

/// Builds the named workload: resolves the constraint order, then compiles
/// the batches. A constraint cycle fails the whole construction and no
/// report is produced.
pub fn build_workload(name: String, systems: Vec<SystemInfo>) -> (r: Result<
    WorkloadInfo,
    SchedulingError,
>)
    ensures
        r matches Ok(w) ==> w.name == name && exists|order: Seq<SystemInfo>|
            {
                &&& order.to_multiset() == systems@.to_multiset()
                &&& order_ok(order)
                &&& batches_view(w.batch_info@) == plan_spec(order)
            },
        r is Err ==> no_valid_order(systems@),
{
    match resolve_order(systems) {
        Ok(order) => {
            let ghost gorder = order@;
            let batches = plan(order);
            Ok(WorkloadInfo { name, batch_info: batches })
        },
        Err(e) => Err(e),
    }
}

} // verus!
