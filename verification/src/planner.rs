//! The batch planner: a single greedy pass that places each unit of work in
//! the open batch when the conflict analyzer allows it, and otherwise closes
//! the batch and records why the unit could not join it.

use crate::conflict::all_thread_safe;
use crate::conflict::can_join;
use crate::conflict::check;
use crate::conflict::check_spec;
use crate::conflict::lemma_check_spec_ok;
use crate::conflict::lemma_first_immobile_none;
use crate::conflict::no_borrow_conflict;
use crate::conflict::type_conflicts;
use crate::info::BatchInfo;
use crate::info::Conflict;
use crate::info::SystemInfo;
use vstd::prelude::*;

verus! {

/// A batch as the contracts speak of it: the solo member, if any, and the
/// parallel members in placement order.
pub open spec fn batch_view(b: BatchInfo) -> (Option<SystemInfo>, Seq<SystemInfo>) {
    (b.systems.0, b.systems.1@)
}

/// The views of a whole batch list.
pub open spec fn batches_view(bs: Seq<BatchInfo>) -> Seq<(Option<SystemInfo>, Seq<SystemInfo>)> {
    bs.map_values(|b: BatchInfo| batch_view(b))
}

/// `u` with its recorded conflict replaced by `c`.
pub open spec fn with_conflict(u: SystemInfo, c: Option<Conflict>) -> SystemInfo {
    SystemInfo {
        name: u.name,
        type_id: u.type_id,
        borrow: u.borrow,
        conflict: c,
        before: u.before,
        after: u.after,
    }
}

/// The planner's loop, one unit at a time: `done` holds the closed batches,
/// `open` the parallel members of the still-open batch (an open batch never
/// has a solo member — solo batches are closed the moment they are made).
pub open spec fn plan_rec(
    systems: Seq<SystemInfo>,
    done: Seq<(Option<SystemInfo>, Seq<SystemInfo>)>,
    open: Seq<SystemInfo>,
) -> Seq<(Option<SystemInfo>, Seq<SystemInfo>)>
    decreases systems.len(),
{
    if systems.len() == 0 {
        if open.len() == 0 {
            done
        } else {
            done.push((None, open))
        }
    } else {
        let u = systems[0];
        let rest = systems.drop_first();
        match check_spec(u, open) {
            Ok(_) => plan_rec(rest, done, open.push(with_conflict(u, None))),
            Err(cf) => {
                let closed = if open.len() == 0 {
                    done
                } else {
                    done.push((None, open))
                };
                match cf {
                    Conflict::NotSendSync(_) => plan_rec(
                        rest,
                        closed.push((Some(with_conflict(u, Some(cf))), Seq::empty())),
                        Seq::empty(),
                    ),
                    _ => plan_rec(rest, closed, seq![with_conflict(u, Some(cf))]),
                }
            },
        }
    }
}

/// Exactly what [`plan`] produces for a given unit sequence.
pub open spec fn plan_spec(systems: Seq<SystemInfo>) -> Seq<
    (Option<SystemInfo>, Seq<SystemInfo>),
> {
    plan_rec(systems, Seq::empty(), Seq::empty())
}

proof fn lemma_batches_view_push(bs: Seq<BatchInfo>, b: BatchInfo)
    ensures
        batches_view(bs.push(b)) == batches_view(bs).push(batch_view(b)),
{
    assert(batches_view(bs.push(b)) =~= batches_view(bs).push(batch_view(b)));
}

/// Greedily groups `systems`, in order, into the fewest batches the conflict
/// rules allow: each unit joins the open batch when [`check`] accepts it;
/// otherwise the open batch is closed and the unit starts a new one — alone
/// and serialized if its own access is thread-immobile, else as the first
/// parallel member — with the conflict recorded on the unit.
pub fn plan(systems: Vec<SystemInfo>) -> (r: Vec<BatchInfo>)
    ensures
        batches_view(r@) == plan_spec(systems@),
{
    let ghost all: Seq<SystemInfo> = systems@;
    let mut systems = systems;
    let mut done: Vec<BatchInfo> = Vec::new();
    let mut open: Vec<SystemInfo> = Vec::new();
    proof {
        assert(batches_view(done@) =~= Seq::<(Option<SystemInfo>, Seq<SystemInfo>)>::empty());
    }
    while systems.len() > 0
        invariant
            plan_rec(systems@, batches_view(done@), open@) == plan_spec(all),
        decreases systems@.len(),
    {
        let ghost pre = systems@;
        let ghost pre_done = batches_view(done@);
        let ghost pre_open = open@;
        let mut u = systems.remove(0);
        proof {
            assert(pre.drop_first() =~= systems@);
        }
        match check(&u, &open) {
            Ok(_) => {
                u.conflict = None;
                proof {
                    assert(u == with_conflict(pre[0], None));
                }
                open.push(u);
            },
            Err(cf) => {
                proof {
                    if pre_open.len() == 0 {
                        assert(pre_open =~= Seq::<SystemInfo>::empty());
                    }
                }
                if open.len() > 0 {
                    let closed = BatchInfo { systems: (None, open) };
                    open = Vec::new();
                    proof {
                        lemma_batches_view_push(done@, closed);
                    }
                    done.push(closed);
                }
                let is_solo = match &cf {
                    Conflict::NotSendSync(_) => true,
                    _ => false,
                };
                let ghost gcf = cf;
                u.conflict = Some(cf);
                proof {
                    assert(check_spec(pre[0], pre_open) == Err::<(), Conflict>(gcf));
                    assert(u == with_conflict(pre[0], Some(gcf)));
                }
                if is_solo {
                    let solo = BatchInfo { systems: (Some(u), Vec::new()) };
                    proof {
                        lemma_batches_view_push(done@, solo);
                    }
                    done.push(solo);
                } else {
                    let mut fresh: Vec<SystemInfo> = Vec::new();
                    fresh.push(u);
                    open = fresh;
                    proof {
                        assert(open@ =~= seq![with_conflict(pre[0], Some(gcf))]);
                    }
                }
            },
        }
    }
    if open.len() > 0 {
        let closed = BatchInfo { systems: (None, open) };
        proof {
            lemma_batches_view_push(done@, closed);
        }
        done.push(closed);
    }
    done
}

/// What the compiled batches guarantee: a batch with a solo member has an
/// empty parallel set; every parallel member's accesses are thread-mobile;
/// and no two distinct parallel members borrow-collide.
pub open spec fn batch_wf(b: (Option<SystemInfo>, Seq<SystemInfo>)) -> bool {
    &&& (b.0 is Some ==> b.1.len() == 0)
    &&& (forall|p: int| 0 <= p < b.1.len() ==> all_thread_safe(#[trigger] b.1[p].borrow@))
    &&& (forall|p: int, q: int|
        0 <= p < b.1.len() && 0 <= q < b.1.len() && p != q ==> no_borrow_conflict(
            b.1[p].borrow@,
            b.1[q].borrow@,
        ))
}

/// Every batch of the list is well-formed.
pub open spec fn plan_wf(bs: Seq<(Option<SystemInfo>, Seq<SystemInfo>)>) -> bool {
    forall|j: int| 0 <= j < bs.len() ==> batch_wf(#[trigger] bs[j])
}

/// The open parallel set the planner maintains: all members thread-mobile,
/// no two distinct members borrow-colliding.
pub open spec fn open_ok(open: Seq<SystemInfo>) -> bool {
    &&& (forall|p: int| 0 <= p < open.len() ==> all_thread_safe(#[trigger] open[p].borrow@))
    &&& (forall|p: int, q: int|
        0 <= p < open.len() && 0 <= q < open.len() && p != q ==> no_borrow_conflict(
            open[p].borrow@,
            open[q].borrow@,
        ))
}

proof fn lemma_plan_rec_wf(
    systems: Seq<SystemInfo>,
    done: Seq<(Option<SystemInfo>, Seq<SystemInfo>)>,
    open: Seq<SystemInfo>,
)
    requires
        plan_wf(done),
        open_ok(open),
    ensures
        plan_wf(plan_rec(systems, done, open)),
    decreases systems.len(),
{
    if systems.len() == 0 {
        if open.len() > 0 {
            assert(batch_wf((None, open)));
        }
    } else {
        let u = systems[0];
        let rest = systems.drop_first();
        let closed: Seq<(Option<SystemInfo>, Seq<SystemInfo>)> = if open.len() == 0 {
            done
        } else {
            done.push((None, open))
        };
        assert(plan_wf(closed)) by {
            if open.len() > 0 {
                assert(batch_wf((None, open)));
            }
        }
        match check_spec(u, open) {
            Ok(_) => {
                lemma_check_spec_ok(u, open);
                let u2 = with_conflict(u, None);
                let open2 = open.push(u2);
                assert(open_ok(open2)) by {
                    assert forall|p: int, q: int|
                        0 <= p < open2.len() && 0 <= q < open2.len() && p
                            != q implies no_borrow_conflict(open2[p].borrow@, open2[q].borrow@) by {
                        if p == open.len() {
                            assert(open2[p] == u2);
                            assert(open2[q] == open[q]);
                            assert(no_borrow_conflict(u.borrow@, open[q].borrow@));
                            assert forall|i: int, k: int|
                                0 <= i < open2[p].borrow@.len() && 0 <= k
                                    < open2[q].borrow@.len() implies !type_conflicts(
                                open2[p].borrow@[i],
                                open2[q].borrow@[k],
                            ) by {
                                assert(!type_conflicts(u.borrow@[i], open[q].borrow@[k]));
                            }
                        } else if q == open.len() {
                            assert(open2[q] == u2);
                            assert(open2[p] == open[p]);
                            assert(no_borrow_conflict(u.borrow@, open[p].borrow@));
                            assert forall|i: int, k: int|
                                0 <= i < open2[p].borrow@.len() && 0 <= k
                                    < open2[q].borrow@.len() implies !type_conflicts(
                                open2[p].borrow@[i],
                                open2[q].borrow@[k],
                            ) by {
                                assert(!type_conflicts(u.borrow@[k], open[p].borrow@[i]));
                                assert(type_conflicts(open[p].borrow@[i], u.borrow@[k])
                                    == type_conflicts(u.borrow@[k], open[p].borrow@[i]));
                            }
                        } else {
                            assert(open2[p] == open[p]);
                            assert(open2[q] == open[q]);
                        }
                    }
                }
                lemma_plan_rec_wf(rest, done, open2);
            },
            Err(cf) => {
                match cf {
                    Conflict::NotSendSync(_) => {
                        let solo = (Some(with_conflict(u, Some(cf))), Seq::<SystemInfo>::empty());
                        assert(batch_wf(solo));
                        lemma_plan_rec_wf(rest, closed.push(solo), Seq::empty());
                    },
                    _ => {
                        lemma_first_immobile_none(u.borrow@);
                        let open2 = seq![with_conflict(u, Some(cf))];
                        assert(open_ok(open2));
                        lemma_plan_rec_wf(rest, closed, open2);
                    },
                }
            },
        }
    }
}

/// Whatever the input, every batch the planner produces is well-formed: a
/// solo batch has an empty parallel set, and the members of a parallel set
/// are pairwise free of conflicts.
pub proof fn lemma_plan_spec_wf(systems: Seq<SystemInfo>)
    ensures
        plan_wf(plan_spec(systems)),
{
    lemma_plan_rec_wf(systems, Seq::empty(), Seq::empty());
}

/// Every unit placed in a batch's parallel set passes the conflict analyzer
/// against all the other members of that set.
pub proof fn lemma_parallel_member_passes_check(systems: Seq<SystemInfo>, j: int, p: int)
    requires
        0 <= j < plan_spec(systems).len(),
        0 <= p < plan_spec(systems)[j].1.len(),
    ensures
        check_spec(plan_spec(systems)[j].1[p], plan_spec(systems)[j].1.remove(p)) is Ok,
{
    lemma_plan_spec_wf(systems);
    let b = plan_spec(systems)[j].1;
    let u = b[p];
    let rest = b.remove(p);
    lemma_check_spec_ok(u, rest);
    assert forall|q: int| 0 <= q < rest.len() implies all_thread_safe(#[trigger] rest[q].borrow@)
        && no_borrow_conflict(u.borrow@, rest[q].borrow@) by {
        if q < p {
            assert(rest[q] == b[q]);
        } else {
            assert(rest[q] == b[q + 1]);
        }
    }
    assert(can_join(u, rest));
}

/// Two unit descriptors that agree on everything but the recorded conflict.
pub open spec fn same_but_conflict(a: SystemInfo, b: SystemInfo) -> bool {
    &&& a.name == b.name
    &&& a.type_id == b.type_id
    &&& a.borrow == b.borrow
    &&& a.before == b.before
    &&& a.after == b.after
}

proof fn lemma_first_borrow_congruent(a: SystemInfo, b: SystemInfo, batch: Seq<SystemInfo>)
    requires
        a.borrow@ == b.borrow@,
    ensures
        crate::conflict::first_borrow(a, batch) == crate::conflict::first_borrow(b, batch),
    decreases batch.len(),
{
    if batch.len() > 0 {
        lemma_first_borrow_congruent(a, b, batch.drop_first());
    }
}

proof fn lemma_check_spec_congruent(a: SystemInfo, b: SystemInfo, open: Seq<SystemInfo>)
    requires
        same_but_conflict(a, b),
    ensures
        check_spec(a, open) == check_spec(b, open),
{
    lemma_first_borrow_congruent(a, b, open);
}

proof fn lemma_plan_rec_ignores_conflicts(
    s1: Seq<SystemInfo>,
    s2: Seq<SystemInfo>,
    done: Seq<(Option<SystemInfo>, Seq<SystemInfo>)>,
    open: Seq<SystemInfo>,
)
    requires
        s1.len() == s2.len(),
        forall|i: int| 0 <= i < s1.len() ==> same_but_conflict(#[trigger] s1[i], s2[i]),
    ensures
        plan_rec(s1, done, open) == plan_rec(s2, done, open),
    decreases s1.len(),
{
    if s1.len() > 0 {
        lemma_check_spec_congruent(s1[0], s2[0], open);
        assert forall|i: int| 0 <= i < s1.drop_first().len() implies same_but_conflict(
            #[trigger] s1.drop_first()[i],
            s2.drop_first()[i],
        ) by {
            assert(s1.drop_first()[i] == s1[i + 1]);
            assert(s2.drop_first()[i] == s2[i + 1]);
        }
        match check_spec(s1[0], open) {
            Ok(_) => {
                assert(with_conflict(s1[0], None) == with_conflict(s2[0], None));
                lemma_plan_rec_ignores_conflicts(
                    s1.drop_first(),
                    s2.drop_first(),
                    done,
                    open.push(with_conflict(s1[0], None)),
                );
            },
            Err(cf) => {
                let closed: Seq<(Option<SystemInfo>, Seq<SystemInfo>)> = if open.len() == 0 {
                    done
                } else {
                    done.push((None, open))
                };
                assert(with_conflict(s1[0], Some(cf)) == with_conflict(s2[0], Some(cf)));
                match cf {
                    Conflict::NotSendSync(_) => {
                        lemma_plan_rec_ignores_conflicts(
                            s1.drop_first(),
                            s2.drop_first(),
                            closed.push(
                                (Some(with_conflict(s1[0], Some(cf))), Seq::<SystemInfo>::empty()),
                            ),
                            Seq::empty(),
                        );
                    },
                    _ => {
                        lemma_plan_rec_ignores_conflicts(
                            s1.drop_first(),
                            s2.drop_first(),
                            closed,
                            seq![with_conflict(s1[0], Some(cf))],
                        );
                    },
                }
            },
        }
    }
}

/// Re-running the planner is reproducible: two unit sequences that agree on
/// everything but the recorded conflicts — in particular, an unchanged
/// sequence, whatever an earlier run wrote into `conflict` — compile to an
/// identical batch sequence.
pub proof fn lemma_plan_ignores_recorded_conflicts(s1: Seq<SystemInfo>, s2: Seq<SystemInfo>)
    requires
        s1.len() == s2.len(),
        forall|i: int| 0 <= i < s1.len() ==> same_but_conflict(#[trigger] s1[i], s2[i]),
    ensures
        plan_spec(s1) == plan_spec(s2),
{
    lemma_plan_rec_ignores_conflicts(s1, s2, Seq::empty(), Seq::empty());
}

} // verus!
