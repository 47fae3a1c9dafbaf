//! Descriptors for work units, the stores they borrow, and the batches a
//! workload is compiled into.

use vstd::prelude::*;

verus! {

/// How a unit of work claims a data store: a shared (read) borrow or an
/// exclusive (write) borrow.
#[derive(Clone, Copy, Debug, PartialEq, Eq, Structural)]
pub enum Mutability {
    Shared,
    Exclusive,
}

/// Identifies one borrow requirement on a data store.
///
/// Identity is deliberately a subset of the fields: two `TypeInfo` values
/// describe the same requirement exactly when `storage_id` and `mutability`
/// agree. `name` is display text and `thread_safe` is a property of the
/// store's underlying type; neither is load-bearing for equality or ordering.
#[derive(Debug)]
pub struct TypeInfo {
    pub name: String,
    pub mutability: Mutability,
    pub storage_id: u64,
    pub thread_safe: bool,
}

/// True exactly when `a` and `b` name the same store with the same access
/// mode: the equality `TypeInfo` values compare by.
pub open spec fn type_info_eq(a: TypeInfo, b: TypeInfo) -> bool {
    a.storage_id == b.storage_id && a.mutability == b.mutability
}

/// Shared orders before Exclusive; equal modes are Equal.
pub open spec fn mutability_cmp(a: Mutability, b: Mutability) -> core::cmp::Ordering {
    match (a, b) {
        (Mutability::Shared, Mutability::Exclusive) => core::cmp::Ordering::Less,
        (Mutability::Exclusive, Mutability::Shared) => core::cmp::Ordering::Greater,
        _ => core::cmp::Ordering::Equal,
    }
}

/// Total order on borrow requirements: by `storage_id`, then by mode. Used to
/// keep diagnostics deterministic; `name` and `thread_safe` play no part.
pub open spec fn type_info_cmp(a: TypeInfo, b: TypeInfo) -> core::cmp::Ordering {
    if a.storage_id < b.storage_id {
        core::cmp::Ordering::Less
    } else if a.storage_id > b.storage_id {
        core::cmp::Ordering::Greater
    } else {
        mutability_cmp(a.mutability, b.mutability)
    }
}

impl TypeInfo {
    /// An equal copy of this descriptor.
    pub fn duplicate(&self) -> (r: TypeInfo)
        ensures
            r == *self,
    {
        TypeInfo {
            name: self.name.clone(),
            mutability: self.mutability,
            storage_id: self.storage_id,
            thread_safe: self.thread_safe,
        }
    }

    /// Orders by `storage_id`, then by access mode.
    pub fn cmp(&self, other: &TypeInfo) -> (r: core::cmp::Ordering)
        ensures
            r == type_info_cmp(*self, *other),
    {
        if self.storage_id < other.storage_id {
            core::cmp::Ordering::Less
        } else if self.storage_id > other.storage_id {
            core::cmp::Ordering::Greater
        } else {
            match (self.mutability, other.mutability) {
                (Mutability::Shared, Mutability::Exclusive) => core::cmp::Ordering::Less,
                (Mutability::Exclusive, Mutability::Shared) => core::cmp::Ordering::Greater,
                _ => core::cmp::Ordering::Equal,
            }
        }
    }
}

impl PartialEq for TypeInfo {
    fn eq(&self, other: &Self) -> (r: bool) {
        self.storage_id == other.storage_id && self.mutability == other.mutability
    }
}

impl vstd::std_specs::cmp::PartialEqSpecImpl for TypeInfo {
    open spec fn obeys_eq_spec() -> bool {
        true
    }

    open spec fn eq_spec(&self, other: &TypeInfo) -> bool {
        type_info_eq(*self, *other)
    }
}

impl PartialOrd for TypeInfo {
    fn partial_cmp(&self, other: &Self) -> (r: Option<core::cmp::Ordering>) {
        Some(self.cmp(other))
    }
}

impl vstd::std_specs::cmp::PartialOrdSpecImpl for TypeInfo {
    open spec fn obeys_partial_cmp_spec() -> bool {
        true
    }

    open spec fn partial_cmp_spec(&self, other: &TypeInfo) -> Option<core::cmp::Ordering> {
        Some(type_info_cmp(*self, *other))
    }
}

/// Identifies a unit of work.
///
/// Identity is `type_id` alone; `name` is display text, so two values with
/// different names but equal `type_id` are the same unit.
#[derive(Debug)]
pub struct SystemId {
    pub name: String,
    pub type_id: u64,
}

impl SystemId {
    /// An equal copy of this identity.
    pub fn duplicate(&self) -> (r: SystemId)
        ensures
            r == *self,
    {
        SystemId { name: self.name.clone(), type_id: self.type_id }
    }
}

impl PartialEq for SystemId {
    fn eq(&self, other: &Self) -> (r: bool) {
        self.type_id == other.type_id
    }
}

impl vstd::std_specs::cmp::PartialEqSpecImpl for SystemId {
    open spec fn obeys_eq_spec() -> bool {
        true
    }

    open spec fn eq_spec(&self, other: &SystemId) -> bool {
        self.type_id == other.type_id
    }
}

/// Why a unit of work could not join the batch before its own.
#[derive(Debug, PartialEq)]
pub enum Conflict {
    /// This unit's borrow of `type_info` is incompatible with `other_system`'s
    /// borrow of `other_type_info`: same store, at least one side exclusive.
    /// `type_info` is `None` when the incompatible claim does not appear in
    /// this unit's own borrow list.
    Borrow { type_info: Option<TypeInfo>, other_system: SystemId, other_type_info: TypeInfo },
    /// This unit borrows a store whose type cannot move across threads, so it
    /// must run alone.
    NotSendSync(TypeInfo),
    /// A store already claimed in the open batch cannot move across threads,
    /// so the batch admits no further member.
    OtherNotSendSync { system: SystemId, type_info: TypeInfo },
}

impl Conflict {
    /// An equal copy of this conflict.
    pub fn duplicate(&self) -> (r: Conflict)
        ensures
            r == *self,
    {
        match self {
            Conflict::Borrow { type_info, other_system, other_type_info } => Conflict::Borrow {
                type_info: match type_info {
                    Some(t) => Some(t.duplicate()),
                    None => None,
                },
                other_system: other_system.duplicate(),
                other_type_info: other_type_info.duplicate(),
            },
            Conflict::NotSendSync(t) => Conflict::NotSendSync(t.duplicate()),
            Conflict::OtherNotSendSync { system, type_info } => Conflict::OtherNotSendSync {
                system: system.duplicate(),
                type_info: type_info.duplicate(),
            },
        }
    }
}

/// A registered unit of work: its display name, stable identity, ordered
/// borrow list, declared ordering constraints, and — filled in by the planner,
/// never by the caller — the conflict that kept it out of the previous batch.
#[derive(Debug, PartialEq)]
pub struct SystemInfo {
    pub name: String,
    pub type_id: u64,
    pub borrow: Vec<TypeInfo>,
    /// Why this system could not be part of the previous batch.
    pub conflict: Option<Conflict>,
    pub before: Vec<String>,
    pub after: Vec<String>,
}

/// The identity of a unit, as cited in conflict reports.
pub open spec fn system_id_of(s: SystemInfo) -> SystemId {
    SystemId { name: s.name, type_id: s.type_id }
}

/// Field-for-field equality of two unit descriptors, with the list fields
/// compared element-wise.
pub open spec fn sys_eq(a: SystemInfo, b: SystemInfo) -> bool {
    &&& a.name == b.name
    &&& a.type_id == b.type_id
    &&& a.borrow@ == b.borrow@
    &&& a.conflict == b.conflict
    &&& a.before@ == b.before@
    &&& a.after@ == b.after@
}

impl SystemInfo {
    /// A copy of this descriptor, equal field for field.
    pub fn duplicate(&self) -> (r: SystemInfo)
        ensures
            sys_eq(r, *self),
    {
        SystemInfo {
            name: self.name.clone(),
            type_id: self.type_id,
            borrow: duplicate_type_infos(&self.borrow),
            conflict: match &self.conflict {
                Some(c) => Some(c.duplicate()),
                None => None,
            },
            before: duplicate_strings(&self.before),
            after: duplicate_strings(&self.after),
        }
    }

    /// The identity this unit is cited under in conflict reports.
    pub fn id(&self) -> (r: SystemId)
        ensures
            r == system_id_of(*self),
    {
        SystemId { name: self.name.clone(), type_id: self.type_id }
    }
}

/// An equal copy of a borrow list.
pub fn duplicate_type_infos(v: &Vec<TypeInfo>) -> (r: Vec<TypeInfo>)
    ensures
        r@ == v@,
{
    let mut r: Vec<TypeInfo> = Vec::new();
    let mut i: usize = 0;
    while i < v.len()
        invariant
            i <= v.len(),
            r@ == v@.take(i as int),
        decreases v.len() - i,
    {
        r.push(v[i].duplicate());
        i = i + 1;
        proof {
            assert(v@.take(i as int) =~= v@.take(i - 1).push(v@[i - 1]));
        }
    }
    proof {
        assert(v@.take(v@.len() as int) =~= v@);
    }
    r
}

/// An equal copy of a list of label texts.
pub fn duplicate_strings(v: &Vec<String>) -> (r: Vec<String>)
    ensures
        r@ == v@,
{
    let mut r: Vec<String> = Vec::new();
    let mut i: usize = 0;
    while i < v.len()
        invariant
            i <= v.len(),
            r@ == v@.take(i as int),
        decreases v.len() - i,
    {
        r.push(v[i].clone());
        i = i + 1;
        proof {
            assert(v@.take(i as int) =~= v@.take(i - 1).push(v@[i - 1]));
        }
    }
    proof {
        assert(v@.take(v@.len() as int) =~= v@);
    }
    r
}

/// One step of a compiled workload: either a single serialized unit (`solo`)
/// or a set of units that may run fully in parallel — never both.
#[derive(Debug, PartialEq)]
pub struct BatchInfo {
    pub systems: (Option<SystemInfo>, Vec<SystemInfo>),
}

/// All members of a batch, the solo unit (if any) first, then the parallel
/// set in placement order.
pub open spec fn batch_members(b: BatchInfo) -> Seq<SystemInfo> {
    match b.systems.0 {
        Some(solo) => seq![solo] + b.systems.1@,
        None => b.systems.1@,
    }
}

impl BatchInfo {
    /// Returns copies of all systems in this batch, the solo member (if any)
    /// first, then the parallel set in placement order.
    pub fn systems(&self) -> (r: Vec<SystemInfo>)
        ensures
            r@.len() == batch_members(*self).len(),
            forall|i: int|
                0 <= i < r@.len() ==> sys_eq(#[trigger] r@[i], batch_members(*self)[i]),
    {
        let mut r: Vec<SystemInfo> = Vec::new();
        match &self.systems.0 {
            Some(solo) => {
                r.push(solo.duplicate());
            },
            None => {},
        }
        let mut i: usize = 0;
        while i < self.systems.1.len()
            invariant
                i <= self.systems.1.len(),
                r@.len() == batch_members(*self).len() - self.systems.1@.len() + i,
                forall|k: int|
                    0 <= k < r@.len() ==> sys_eq(#[trigger] r@[k], batch_members(*self)[k]),
            decreases self.systems.1.len() - i,
        {
            r.push(self.systems.1[i].duplicate());
            i = i + 1;
        }
        r
    }
}

/// A compiled workload: its name and the ordered batches it runs as.
#[derive(Debug, PartialEq)]
pub struct WorkloadInfo {
    pub name: String,
    pub batch_info: Vec<BatchInfo>,
}

/// Compiled workloads by name: a list of `(name, workload)` pairs in
/// registration order, with each name appearing at most once.
#[derive(Debug, PartialEq)]
pub struct WorkloadsInfo(pub Vec<(String, WorkloadInfo)>);

impl WorkloadsInfo {
    /// Creates an empty [`WorkloadsInfo`].
    pub fn new() -> (r: WorkloadsInfo)
        ensures
            r.0@ =~= Seq::<(String, WorkloadInfo)>::empty(),
    {
        WorkloadsInfo(Vec::new())
    }
}

impl Default for WorkloadsInfo {
    fn default() -> (r: Self)
        ensures
            r.0@ =~= Seq::<(String, WorkloadInfo)>::empty(),
    {
        WorkloadsInfo::new()
    }
}

} // verus!
