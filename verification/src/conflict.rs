//! The conflict analyzer: decides whether a candidate unit of work may join
//! the open batch and, if not, produces a structured explanation. The scan
//! order is fixed — placed units in placement order, accesses in declaration
//! order — so diagnostics are reproducible.

use crate::info::system_id_of;
use crate::info::Conflict;
use crate::info::Mutability;
use crate::info::SystemInfo;
use crate::info::TypeInfo;
use vstd::prelude::*;

verus! {

/// Two borrow claims collide when they name the same store and at least one
/// side is exclusive.
pub open spec fn type_conflicts(a: TypeInfo, b: TypeInfo) -> bool {
    a.storage_id == b.storage_id && (a.mutability == Mutability::Exclusive
        || b.mutability == Mutability::Exclusive)
}

/// Every access in `ts` may move across threads.
pub open spec fn all_thread_safe(ts: Seq<TypeInfo>) -> bool {
    forall|i: int| 0 <= i < ts.len() ==> ts[i].thread_safe
}

/// No access in `cs` collides with any access in `us`.
pub open spec fn no_borrow_conflict(cs: Seq<TypeInfo>, us: Seq<TypeInfo>) -> bool {
    forall|i: int, k: int|
        0 <= i < cs.len() && 0 <= k < us.len() ==> !type_conflicts(cs[i], us[k])
}

/// Whether `c` may join a batch already holding exactly `batch`: every access
/// of the candidate and of every placed unit is thread-mobile, and no access
/// of the candidate collides with an access of a placed unit.
pub open spec fn can_join(c: SystemInfo, batch: Seq<SystemInfo>) -> bool {
    &&& all_thread_safe(c.borrow@)
    &&& forall|j: int| 0 <= j < batch.len() ==> all_thread_safe(#[trigger] batch[j].borrow@)
    &&& forall|j: int|
        0 <= j < batch.len() ==> no_borrow_conflict(c.borrow@, #[trigger] batch[j].borrow@)
}

/// The first access in `ts`, in declaration order, that cannot move across
/// threads.
pub open spec fn first_immobile(ts: Seq<TypeInfo>) -> Option<TypeInfo>
    decreases ts.len(),
{
    if ts.len() == 0 {
        None
    } else if !ts[0].thread_safe {
        Some(ts[0])
    } else {
        first_immobile(ts.drop_first())
    }
}

/// The first thread-immobile access already claimed in the batch, cited
/// against the unit that claims it.
pub open spec fn first_other_immobile(batch: Seq<SystemInfo>) -> Option<Conflict>
    decreases batch.len(),
{
    if batch.len() == 0 {
        None
    } else {
        match first_immobile(batch[0].borrow@) {
            Some(t) => Some(
                Conflict::OtherNotSendSync { system: system_id_of(batch[0]), type_info: t },
            ),
            None => first_other_immobile(batch.drop_first()),
        }
    }
}

/// The first access in `us`, in declaration order, that collides with `a`.
pub open spec fn first_conflicting(a: TypeInfo, us: Seq<TypeInfo>) -> Option<TypeInfo>
    decreases us.len(),
{
    if us.len() == 0 {
        None
    } else if type_conflicts(a, us[0]) {
        Some(us[0])
    } else {
        first_conflicting(a, us.drop_first())
    }
}

/// The first collision between the candidate's accesses `cs` and the placed
/// unit `u`, scanning `cs` in declaration order.
pub open spec fn first_borrow_against(cs: Seq<TypeInfo>, u: SystemInfo) -> Option<Conflict>
    decreases cs.len(),
{
    if cs.len() == 0 {
        None
    } else {
        match first_conflicting(cs[0], u.borrow@) {
            Some(b) => Some(
                Conflict::Borrow {
                    type_info: Some(cs[0]),
                    other_system: system_id_of(u),
                    other_type_info: b,
                },
            ),
            None => first_borrow_against(cs.drop_first(), u),
        }
    }
}

/// The first collision between candidate `c` and the batch, scanning placed
/// units in placement order.
pub open spec fn first_borrow(c: SystemInfo, batch: Seq<SystemInfo>) -> Option<Conflict>
    decreases batch.len(),
{
    if batch.len() == 0 {
        None
    } else {
        match first_borrow_against(c.borrow@, batch[0]) {
            Some(cf) => Some(cf),
            None => first_borrow(c, batch.drop_first()),
        }
    }
}

/// Exactly what [`check`] returns: the first conflict in the analyzer's fixed
/// scan order — the candidate's own immobile access, then an immobile access
/// already in the batch, then a borrow collision — or `Ok` when none exists.
pub open spec fn check_spec(c: SystemInfo, batch: Seq<SystemInfo>) -> Result<(), Conflict> {
    match first_immobile(c.borrow@) {
        Some(t) => Err(Conflict::NotSendSync(t)),
        None => match first_other_immobile(batch) {
            Some(cf) => Err(cf),
            None => match first_borrow(c, batch) {
                Some(cf) => Err(cf),
                None => Ok(()),
            },
        },
    }
}

pub proof fn lemma_first_immobile_none(ts: Seq<TypeInfo>)
    ensures
        (first_immobile(ts) is None) <==> all_thread_safe(ts),
    decreases ts.len(),
{
    if ts.len() > 0 {
        lemma_first_immobile_none(ts.drop_first());
        if first_immobile(ts) is None {
            assert forall|i: int| 0 <= i < ts.len() implies ts[i].thread_safe by {
                if i > 0 {
                    assert(ts.drop_first()[i - 1] == ts[i]);
                    assert(ts.drop_first()[i - 1].thread_safe);
                }
            }
        }
        if first_immobile(ts) is Some && ts[0].thread_safe {
            let i = choose|i: int|
                0 <= i < ts.drop_first().len() && !ts.drop_first()[i].thread_safe;
            assert(!ts[i + 1].thread_safe);
        }
    }
}

pub proof fn lemma_first_other_immobile_none(batch: Seq<SystemInfo>)
    ensures
        (first_other_immobile(batch) is None) <==> forall|j: int|
            0 <= j < batch.len() ==> all_thread_safe(#[trigger] batch[j].borrow@),
    decreases batch.len(),
{
    if batch.len() > 0 {
        lemma_first_immobile_none(batch[0].borrow@);
        lemma_first_other_immobile_none(batch.drop_first());
        if first_other_immobile(batch) is None {
            assert forall|j: int| 0 <= j < batch.len() implies all_thread_safe(
                #[trigger] batch[j].borrow@,
            ) by {
                if j > 0 {
                    assert(batch.drop_first()[j - 1] == batch[j]);
                    assert(all_thread_safe(batch.drop_first()[j - 1].borrow@));
                }
            }
        }
        if first_other_immobile(batch) is Some && first_immobile(batch[0].borrow@) is None {
            let j = choose|j: int|
                0 <= j < batch.drop_first().len() && !all_thread_safe(
                    batch.drop_first()[j].borrow@,
                );
            assert(!all_thread_safe(batch[j + 1].borrow@));
        }
    }
}

pub proof fn lemma_first_conflicting_none(a: TypeInfo, us: Seq<TypeInfo>)
    ensures
        (first_conflicting(a, us) is None) <==> forall|k: int|
            0 <= k < us.len() ==> !type_conflicts(a, us[k]),
    decreases us.len(),
{
    if us.len() > 0 {
        lemma_first_conflicting_none(a, us.drop_first());
        if first_conflicting(a, us) is None {
            assert forall|k: int| 0 <= k < us.len() implies !type_conflicts(a, us[k]) by {
                if k > 0 {
                    assert(us.drop_first()[k - 1] == us[k]);
                    assert(!type_conflicts(a, us.drop_first()[k - 1]));
                }
            }
        }
        if first_conflicting(a, us) is Some && !type_conflicts(a, us[0]) {
            let k = choose|k: int|
                0 <= k < us.drop_first().len() && type_conflicts(a, us.drop_first()[k]);
            assert(type_conflicts(a, us[k + 1]));
        }
    }
}

pub proof fn lemma_first_borrow_against_none(cs: Seq<TypeInfo>, u: SystemInfo)
    ensures
        (first_borrow_against(cs, u) is None) <==> no_borrow_conflict(cs, u.borrow@),
    decreases cs.len(),
{
    if cs.len() == 0 {
        assert(no_borrow_conflict(cs, u.borrow@));
    } else {
        lemma_first_conflicting_none(cs[0], u.borrow@);
        lemma_first_borrow_against_none(cs.drop_first(), u);
        if first_borrow_against(cs, u) is None {
            assert forall|i: int, k: int|
                0 <= i < cs.len() && 0 <= k < u.borrow@.len() implies !type_conflicts(
                cs[i],
                u.borrow@[k],
            ) by {
                if i > 0 {
                    assert(cs.drop_first()[i - 1] == cs[i]);
                    assert(!type_conflicts(cs.drop_first()[i - 1], u.borrow@[k]));
                }
            }
        }
        if first_borrow_against(cs, u) is Some && first_conflicting(cs[0], u.borrow@) is None {
            let (i, k): (int, int) = choose|i: int, k: int|
                0 <= i < cs.drop_first().len() && 0 <= k < u.borrow@.len() && type_conflicts(
                    cs.drop_first()[i],
                    u.borrow@[k],
                );
            assert(type_conflicts(cs[i + 1], u.borrow@[k]));
        }
    }
}

pub proof fn lemma_first_borrow_none(c: SystemInfo, batch: Seq<SystemInfo>)
    ensures
        (first_borrow(c, batch) is None) <==> forall|j: int|
            0 <= j < batch.len() ==> no_borrow_conflict(c.borrow@, #[trigger] batch[j].borrow@),
    decreases batch.len(),
{
    if batch.len() > 0 {
        lemma_first_borrow_against_none(c.borrow@, batch[0]);
        lemma_first_borrow_none(c, batch.drop_first());
        if first_borrow(c, batch) is None {
            assert forall|j: int| 0 <= j < batch.len() implies no_borrow_conflict(
                c.borrow@,
                #[trigger] batch[j].borrow@,
            ) by {
                if j > 0 {
                    assert(batch.drop_first()[j - 1] == batch[j]);
                    assert(no_borrow_conflict(c.borrow@, batch.drop_first()[j - 1].borrow@));
                }
            }
        }
        if first_borrow(c, batch) is Some && first_borrow_against(c.borrow@, batch[0]) is None {
            let j = choose|j: int|
                0 <= j < batch.drop_first().len() && !no_borrow_conflict(
                    c.borrow@,
                    batch.drop_first()[j].borrow@,
                );
            assert(!no_borrow_conflict(c.borrow@, batch[j + 1].borrow@));
        }
    }
}

/// The analyzer accepts a candidate exactly when it may join the batch.
pub proof fn lemma_check_spec_ok(c: SystemInfo, batch: Seq<SystemInfo>)
    ensures
        (check_spec(c, batch) is Ok) <==> can_join(c, batch),
{
    lemma_first_immobile_none(c.borrow@);
    lemma_first_other_immobile_none(batch);
    lemma_first_borrow_none(c, batch);
}

fn find_immobile(ts: &Vec<TypeInfo>) -> (r: Option<TypeInfo>)
    ensures
        r == first_immobile(ts@),
{
    proof {
        assert(ts@.skip(0) =~= ts@);
    }
    let mut i: usize = 0;
    while i < ts.len()
        invariant
            i <= ts.len(),
            first_immobile(ts@) == first_immobile(ts@.skip(i as int)),
        decreases ts.len() - i,
    {
        if !ts[i].thread_safe {
            proof {
                assert(ts@.skip(i as int)[0] == ts@[i as int]);
            }
            return Some(ts[i].duplicate());
        }
        proof {
            assert(ts@.skip(i as int).drop_first() =~= ts@.skip(i as int + 1));
        }
        i = i + 1;
    }
    proof {
        assert(ts@.skip(i as int) =~= Seq::<TypeInfo>::empty());
    }
    None
}

fn find_other_immobile(batch: &Vec<SystemInfo>) -> (r: Option<Conflict>)
    ensures
        r == first_other_immobile(batch@),
{
    proof {
        assert(batch@.skip(0) =~= batch@);
    }
    let mut j: usize = 0;
    while j < batch.len()
        invariant
            j <= batch.len(),
            first_other_immobile(batch@) == first_other_immobile(batch@.skip(j as int)),
        decreases batch.len() - j,
    {
        proof {
            assert(batch@.skip(j as int)[0] == batch@[j as int]);
        }
        match find_immobile(&batch[j].borrow) {
            Some(t) => {
                return Some(Conflict::OtherNotSendSync { system: batch[j].id(), type_info: t });
            },
            None => {},
        }
        proof {
            assert(batch@.skip(j as int).drop_first() =~= batch@.skip(j as int + 1));
        }
        j = j + 1;
    }
    proof {
        assert(batch@.skip(j as int) =~= Seq::<SystemInfo>::empty());
    }
    None
}

fn find_conflicting(a: &TypeInfo, us: &Vec<TypeInfo>) -> (r: Option<TypeInfo>)
    ensures
        r == first_conflicting(*a, us@),
{
    proof {
        assert(us@.skip(0) =~= us@);
    }
    let mut k: usize = 0;
    while k < us.len()
        invariant
            k <= us.len(),
            first_conflicting(*a, us@) == first_conflicting(*a, us@.skip(k as int)),
        decreases us.len() - k,
    {
        proof {
            assert(us@.skip(k as int)[0] == us@[k as int]);
        }
        if a.storage_id == us[k].storage_id && (a.mutability == Mutability::Exclusive
            || us[k].mutability == Mutability::Exclusive) {
            return Some(us[k].duplicate());
        }
        proof {
            assert(us@.skip(k as int).drop_first() =~= us@.skip(k as int + 1));
        }
        k = k + 1;
    }
    proof {
        assert(us@.skip(k as int) =~= Seq::<TypeInfo>::empty());
    }
    None
}

fn find_borrow_against(cs: &Vec<TypeInfo>, u: &SystemInfo) -> (r: Option<Conflict>)
    ensures
        r == first_borrow_against(cs@, *u),
{
    proof {
        assert(cs@.skip(0) =~= cs@);
    }
    let mut i: usize = 0;
    while i < cs.len()
        invariant
            i <= cs.len(),
            first_borrow_against(cs@, *u) == first_borrow_against(cs@.skip(i as int), *u),
        decreases cs.len() - i,
    {
        proof {
            assert(cs@.skip(i as int)[0] == cs@[i as int]);
        }
        match find_conflicting(&cs[i], &u.borrow) {
            Some(b) => {
                return Some(
                    Conflict::Borrow {
                        type_info: Some(cs[i].duplicate()),
                        other_system: u.id(),
                        other_type_info: b,
                    },
                );
            },
            None => {},
        }
        proof {
            assert(cs@.skip(i as int).drop_first() =~= cs@.skip(i as int + 1));
        }
        i = i + 1;
    }
    proof {
        assert(cs@.skip(i as int) =~= Seq::<TypeInfo>::empty());
    }
    None
}

fn find_borrow(c: &SystemInfo, batch: &Vec<SystemInfo>) -> (r: Option<Conflict>)
    ensures
        r == first_borrow(*c, batch@),
{
    proof {
        assert(batch@.skip(0) =~= batch@);
    }
    let mut j: usize = 0;
    while j < batch.len()
        invariant
            j <= batch.len(),
            first_borrow(*c, batch@) == first_borrow(*c, batch@.skip(j as int)),
        decreases batch.len() - j,
    {
        proof {
            assert(batch@.skip(j as int)[0] == batch@[j as int]);
        }
        match find_borrow_against(&c.borrow, &batch[j]) {
            Some(cf) => {
                return Some(cf);
            },
            None => {},
        }
        proof {
            assert(batch@.skip(j as int).drop_first() =~= batch@.skip(j as int + 1));
        }
        j = j + 1;
    }
    proof {
        assert(batch@.skip(j as int) =~= Seq::<SystemInfo>::empty());
    }
    None
}

/// Decides whether `candidate` may join the open batch whose members are
/// `batch_so_far`, in placement order. Returns `Ok` exactly when it may;
/// otherwise the first conflict found in the analyzer's fixed scan order: the
/// candidate's own thread-immobile access, then a thread-immobile access
/// already claimed in the batch, then the first borrow collision.
pub fn check(candidate: &SystemInfo, batch_so_far: &Vec<SystemInfo>) -> (r: Result<(), Conflict>)
    ensures
        r == check_spec(*candidate, batch_so_far@),
        (r is Ok) <==> can_join(*candidate, batch_so_far@),
{
    proof {
        lemma_check_spec_ok(*candidate, batch_so_far@);
    }
    match find_immobile(&candidate.borrow) {
        Some(t) => {
            return Err(Conflict::NotSendSync(t));
        },
        None => {},
    }
    match find_other_immobile(batch_so_far) {
        Some(cf) => {
            return Err(cf);
        },
        None => {},
    }
    match find_borrow(candidate, batch_so_far) {
        Some(cf) => {
            return Err(cf);
        },
        None => {},
    }
    Ok(())
}

} // verus!
