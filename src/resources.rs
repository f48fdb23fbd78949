use vstd::prelude::*;

use crate::ids::{insert_sorted, lemma_sorted_unique, sorted_ids, sorted_strict, sorted_union};
use crate::initargs::{
    dec, dec_string, forest, lemma_forest_append, lemma_forest_eq, lemma_forest_push, tree, ArgsKV, KvTree,
};
use crate::system::{Component, ComponentId, ServiceType, SystemState};

verus! {

/// What a capability-table slot holds, and which component it targets.
#[derive(PartialEq, Eq, Structural, Clone, Copy, Debug)]
pub enum CapRes {
    CapTbl(ComponentId),
    PgTbl(ComponentId),
    Comp(ComponentId),
}

/// Slots below this index are reserved by the boot environment.
pub const BOOT_CAPTBL_FREE: u64 = 52;

/// The number of slots a capability of this kind takes.
pub open spec fn cap_size(cap: CapRes) -> nat {
    match cap {
        CapRes::CapTbl(_) | CapRes::PgTbl(_) => 4,
        CapRes::Comp(_) => 4,
    }
}

/// The kind name of a capability.
pub open spec fn cap_kind(cap: CapRes) -> Seq<char> {
    match cap {
        CapRes::CapTbl(_) => "captbl"@,
        CapRes::PgTbl(_) => "pgtbl"@,
        CapRes::Comp(_) => "comp"@,
    }
}

/// The component a capability targets.
pub open spec fn cap_target(cap: CapRes) -> ComponentId {
    match cap {
        CapRes::CapTbl(id) | CapRes::PgTbl(id) | CapRes::Comp(id) => id,
    }
}

pub fn cap_sz(cap: &CapRes) -> (r: u64)
    ensures
        r == cap_size(*cap),
{
    match cap {
        CapRes::CapTbl(_) | CapRes::PgTbl(_) => 4,
        CapRes::Comp(_) => 4,
    }
}

pub fn cap_info(c: &CapRes) -> (r: (String, ComponentId))
    ensures
        r.0@ == cap_kind(*c),
        r.1 == cap_target(*c),
{
    match c {
        CapRes::CapTbl(id) => (String::from_str("captbl"), *id),
        CapRes::PgTbl(id) => (String::from_str("pgtbl"), *id),
        CapRes::Comp(id) => (String::from_str("comp"), *id),
    }
}

/// The slot at which a capability of size class `sz` lands, given the
/// frontier and the previous size class: a change of class on a frontier
/// off a multiple of 4 first rounds the frontier up to one.
pub open spec fn slot_for(frontier: nat, prev_sz: nat, sz: nat) -> nat {
    if frontier % 4 != 0 && prev_sz != sz {
        frontier + (4 - frontier % 4) as nat
    } else {
        frontier
    }
}

/// The value of a capability table: its slots in ascending order, the next
/// free index and the size class of the last insertion.
pub struct CaptblView {
    pub slots: Seq<(nat, CapRes)>,
    pub frontier: nat,
    pub prev_sz: nat,
}

/// An empty table.
pub open spec fn captbl_fresh() -> CaptblView {
    CaptblView { slots: Seq::empty(), frontier: BOOT_CAPTBL_FREE as nat, prev_sz: 4 }
}

/// The table after adding `cap`.
pub open spec fn captbl_add(v: CaptblView, cap: CapRes) -> CaptblView {
    let slot = slot_for(v.frontier, v.prev_sz, cap_size(cap));
    CaptblView {
        slots: v.slots.push((slot, cap)),
        frontier: slot + cap_size(cap),
        prev_sz: cap_size(cap),
    }
}

/// The table after adding each of `caps` in turn.
pub open spec fn captbl_add_all(v: CaptblView, caps: Seq<CapRes>) -> CaptblView
    decreases caps.len(),
{
    if caps.len() == 0 {
        v
    } else {
        captbl_add(captbl_add_all(v, caps.drop_last()), caps.last())
    }
}

/// Slots ascend, lie at or above the reserved range and below the frontier.
pub open spec fn captbl_wf(v: CaptblView) -> bool {
    &&& v.frontier >= BOOT_CAPTBL_FREE
    &&& forall|i: int| 0 <= i < v.slots.len() ==> BOOT_CAPTBL_FREE <= #[trigger] v.slots[i].0
        && v.slots[i].0 < v.frontier
    &&& forall|i: int, j: int| 0 <= i < j < v.slots.len() ==> v.slots[i].0 < v.slots[j].0
}

/// A capability table being filled for one component.
pub struct CaptblState {
    pub captbl: Vec<(u64, CapRes)>,
    pub frontier: u64,
    pub prev_sz: u64,
}

impl View for CaptblState {
    type V = CaptblView;

    open spec fn view(&self) -> CaptblView {
        CaptblView {
            slots: self.captbl@.map_values(|p: (u64, CapRes)| (p.0 as nat, p.1)),
            frontier: self.frontier as nat,
            prev_sz: self.prev_sz as nat,
        }
    }
}

impl CaptblState {
    pub fn new() -> (r: CaptblState)
        ensures
            r@ == captbl_fresh(),
            captbl_wf(r@),
    {
        let r = CaptblState { captbl: Vec::new(), frontier: BOOT_CAPTBL_FREE, prev_sz: 4 };
        assert(r@.slots =~= Seq::<(nat, CapRes)>::empty());
        r
    }

    /// Allocates the next slot for `cap`.
    pub fn add(&mut self, cap: CapRes)
        requires
            captbl_wf(old(self)@),
            old(self)@.frontier + 8 <= u64::MAX,
        ensures
            final(self)@ == captbl_add(old(self)@, cap),
            captbl_wf(final(self)@),
    {
        let sz = cap_sz(&cap);
        let mut frontier = self.frontier;
        if frontier % 4 != 0 && self.prev_sz != sz {
            frontier = frontier + (4 - frontier % 4);
        }
        self.captbl.push((frontier, cap));
        self.frontier = frontier + sz;
        self.prev_sz = sz;
        assert(self@.slots =~= old(self)@.slots.push((frontier as nat, cap)));
    }

    /// The allocated slots, in ascending order of index.
    pub fn get_captbl(&self) -> (r: &Vec<(u64, CapRes)>)
        ensures
            r@.map_values(|p: (u64, CapRes)| (p.0 as nat, p.1)) == self@.slots,
    {
        &self.captbl
    }

    pub fn get_frontier(&self) -> (r: u64)
        ensures
            r == self@.frontier,
    {
        self.frontier
    }
}

/// Adding capabilities of size class 4 from an empty table packs them at
/// 52, 56, 60, ... with no gaps.
pub proof fn lemma_uniform_packing(caps: Seq<CapRes>)
    requires
        forall|i: int| 0 <= i < caps.len() ==> cap_size(#[trigger] caps[i]) == 4,
    ensures
        captbl_add_all(captbl_fresh(), caps).slots.len() == caps.len(),
        forall|i: int|
            0 <= i < caps.len() ==> #[trigger] captbl_add_all(captbl_fresh(), caps).slots[i] == (
            (52 + 4 * i) as nat,
            caps[i],
        ),
        captbl_add_all(captbl_fresh(), caps).frontier == 52 + 4 * caps.len(),
        captbl_add_all(captbl_fresh(), caps).prev_sz == 4,
    decreases caps.len(),
{
    if caps.len() > 0 {
        let p = caps.drop_last();
        assert forall|i: int| 0 <= i < p.len() implies cap_size(#[trigger] p[i]) == 4 by {
            assert(p[i] == caps[i]);
        }
        lemma_uniform_packing(p);
        let v = captbl_add_all(captbl_fresh(), p);
        assert(v.frontier % 4 == 0) by (nonlinear_arith)
            requires v.frontier == 52 + 4 * p.len();
        assert(cap_size(caps[caps.len() - 1]) == 4);
    }
}

/// A change of size class on a frontier off a multiple of 4 places the
/// new capability at the next multiple of 4.
pub proof fn lemma_class_change_aligns(v: CaptblView, cap: CapRes)
    requires
        v.frontier % 4 != 0,
        cap_size(cap) != v.prev_sz,
    ensures
        captbl_add(v, cap).slots.last().0 % 4 == 0,
        v.frontier < captbl_add(v, cap).slots.last().0 < v.frontier + 4,
{
}

/// The tree entry that describes slot `capid`.
pub open spec fn cap_tree(capid: nat, cap: CapRes) -> KvTree {
    KvTree::Node(
        dec(capid),
        seq![
            KvTree::Leaf("type"@, cap_kind(cap)),
            KvTree::Leaf("target"@, dec(cap_target(cap) as nat)),
        ],
    )
}

pub fn cap2kvarg(capid: u64, cap: &CapRes) -> (r: ArgsKV)
    ensures
        tree(r) == cap_tree(capid as nat, *cap),
{
    let (name, target) = cap_info(cap);
    let capinfo = vec![
        ArgsKV::new_key(String::from_str("type"), name),
        ArgsKV::new_key(String::from_str("target"), dec_string(target as u64)),
    ];
    let r = ArgsKV::new_arr(dec_string(capid), capinfo);
    proof {
        lemma_forest_eq(capinfo@, cap_tree(capid as nat, *cap)->Node_1);
    }
    r
}

/// Why the pass refuses a system.
#[derive(PartialEq, Eq, Structural, Clone, Copy, Debug)]
pub enum ConfigError {
    /// A component id that the system does not declare.
    UnknownComponent(ComponentId),
    /// A capability manager that is its own client.
    SelfClient(ComponentId),
    /// A client of a capability manager that is itself one.
    NestedCapMgr(ComponentId),
    /// A scheduler client of a capability manager without a parent scheduler.
    MissingSchedParent(ComponentId),
    /// A constructor that depends on another constructor.
    MultipleConstructors(ComponentId),
    /// A virtual-resource instance that the registry does not know.
    UnknownVirtResInstance(ComponentId),
    /// A capability manager with more clients than its table can index.
    CaptblFull(ComponentId),
}

/// The working state of one component while its configuration is generated.
pub struct CompConfigState {
    pub ct: CaptblState,
    pub args: Vec<ArgsKV>,
}

impl CompConfigState {
    pub fn new() -> (r: CompConfigState)
        ensures
            r.ct@ == captbl_fresh(),
            captbl_wf(r.ct@),
            r.args@.len() == 0,
    {
        CompConfigState { ct: CaptblState::new(), args: Vec::new() }
    }
}

// ---------------------------------------------------------------------------
// Scheduler configuration
// ---------------------------------------------------------------------------

/// The grants of a scheduler `id`: one entry per client, naming `id`; none
/// when `id` is no scheduler.
pub open spec fn serv_client_entries(s: SystemState, id: ComponentId) -> Seq<KvTree> {
    if s.is_a(id, ServiceType::Scheduler) {
        Seq::new(
            s.clients(id, ServiceType::Scheduler).len(),
            |j: int| KvTree::Leaf(dec(s.clients(id, ServiceType::Scheduler)[j] as nat), dec(id as nat)),
        )
    } else {
        Seq::empty()
    }
}

/// How a scheduler starts its client `c`.
pub open spec fn sched_style(s: SystemState, c: ComponentId) -> Seq<char> {
    if s.is_a(c, ServiceType::Scheduler) {
        "sched"@
    } else {
        "init"@
    }
}

/// The entries of a scheduler's `execute` section: its clients, last
/// discovered first; none when `id` is no scheduler.
pub open spec fn execute_entries(s: SystemState, id: ComponentId) -> Seq<KvTree> {
    let cs = s.clients(id, ServiceType::Scheduler);
    if s.is_a(id, ServiceType::Scheduler) {
        Seq::new(
            cs.len(),
            |j: int| KvTree::Leaf(dec(cs[cs.len() - 1 - j] as nat), sched_style(s, cs[cs.len() - 1 - j])),
        )
    } else {
        Seq::empty()
    }
}

/// The sections that the scheduler configuration adds for `id`.
pub open spec fn sched_sections(s: SystemState, id: ComponentId) -> Seq<KvTree> {
    if s.is_a(id, ServiceType::Scheduler) {
        seq![KvTree::Node("execute"@, execute_entries(s, id))]
    } else {
        Seq::empty()
    }
}

pub fn sched_config_serv_client(s: &SystemState, id: ComponentId) -> (r: Vec<ArgsKV>)
    requires
        s.wf(),
    ensures
        forest(r@) == serv_client_entries(*s, id),
{
    let mut init: Vec<ArgsKV> = Vec::new();
    if !s.service_is_a(id, ServiceType::Scheduler) {
        assert(serv_client_entries(*s, id) =~= forest(init@));
        return init;
    }
    let cs = s.service_clients(id, ServiceType::Scheduler);
    let mut i: usize = 0;
    while i < cs.len()
        invariant
            s.is_a(id, ServiceType::Scheduler),
            cs@ == s.clients(id, ServiceType::Scheduler),
            0 <= i <= cs@.len(),
            forest(init@) == serv_client_entries(*s, id).take(i as int),
        decreases cs@.len() - i,
    {
        let kv = ArgsKV::new_key(dec_string(cs[i] as u64), dec_string(id as u64));
        proof {
            lemma_forest_push(init@, kv);
        }
        init.push(kv);
        assert(forest(init@) =~= serv_client_entries(*s, id).take(i + 1));
        i = i + 1;
    }
    assert(serv_client_entries(*s, id).take(cs@.len() as int) =~= serv_client_entries(*s, id));
    init
}

pub fn sched_config_clients(s: &SystemState, id: ComponentId) -> (r: Vec<ArgsKV>)
    requires
        s.wf(),
    ensures
        forest(r@) == execute_entries(*s, id),
        !s.is_a(id, ServiceType::Scheduler) ==> r@.len() == 0,
{
    let mut init: Vec<ArgsKV> = Vec::new();
    if !s.service_is_a(id, ServiceType::Scheduler) {
        assert(execute_entries(*s, id) =~= forest(init@));
        return init;
    }
    let cs = s.service_clients(id, ServiceType::Scheduler);
    let n = cs.len();
    let mut i: usize = 0;
    while i < n
        invariant
            cs@ == s.clients(id, ServiceType::Scheduler),
            s.wf(),
            s.is_a(id, ServiceType::Scheduler),
            n == cs@.len(),
            0 <= i <= n,
            forest(init@) == execute_entries(*s, id).take(i as int),
        decreases n - i,
    {
        let c = cs[n - 1 - i];
        let style = if s.service_is_a(c, ServiceType::Scheduler) {
            String::from_str("sched")
        } else {
            String::from_str("init")
        };
        let kv = ArgsKV::new_key(dec_string(c as u64), style);
        proof {
            lemma_forest_push(init@, kv);
        }
        init.push(kv);
        assert(forest(init@) =~= execute_entries(*s, id).take(i + 1));
        i = i + 1;
    }
    assert(execute_entries(*s, id).take(n as int) =~= execute_entries(*s, id));
    init
}

pub fn sched_config(s: &SystemState, id: ComponentId, cfg: &mut CompConfigState)
    requires
        s.wf(),
    ensures
        forest(final(cfg).args@) == forest(old(cfg).args@) + sched_sections(*s, id),
        final(cfg).ct == old(cfg).ct,
{
    if !s.service_is_a(id, ServiceType::Scheduler) {
        assert(forest(old(cfg).args@) + sched_sections(*s, id) =~= forest(old(cfg).args@));
        return;
    }
    let kv = ArgsKV::new_arr(String::from_str("execute"), sched_config_clients(s, id));
    proof {
        lemma_forest_push(cfg.args@, kv);
    }
    cfg.args.push(kv);
    assert(forest(old(cfg).args@).push(tree(kv)) =~= forest(old(cfg).args@) + sched_sections(*s, id));
}

// ---------------------------------------------------------------------------
// Capability-manager configuration
// ---------------------------------------------------------------------------

/// The clients of a capability manager: the components that depend on it
/// for scheduling or capability management, each once, ascending.
pub open spec fn capmgr_clients(s: SystemState, id: ComponentId) -> Seq<ComponentId> {
    sorted_ids(
        s.clients(id, ServiceType::Scheduler).to_set() + s.clients(id, ServiceType::CapMgr).to_set(),
    )
}

/// The capabilities allocated for clients `cs`: three for each, in order.
pub open spec fn client_caps(cs: Seq<ComponentId>) -> Seq<CapRes>
    decreases cs.len(),
{
    if cs.len() == 0 {
        Seq::empty()
    } else {
        client_caps(cs.drop_last()) + seq![
            CapRes::CapTbl(cs.last()),
            CapRes::PgTbl(cs.last()),
            CapRes::Comp(cs.last()),
        ]
    }
}

/// The capability table of the capability manager `id`.
pub open spec fn capmgr_layout(s: SystemState, id: ComponentId) -> CaptblView {
    captbl_add_all(captbl_fresh(), client_caps(capmgr_clients(s, id)))
}

/// Whether a table with `n` clients stays within the index type.
pub open spec fn capmgr_fits(n: nat) -> bool {
    52 + 12 * n + 8 <= u64::MAX
}

/// What is wrong with `c` as a client of the capability manager `id`.
pub open spec fn client_err(s: SystemState, id: ComponentId, c: ComponentId) -> Option<ConfigError> {
    if c == id {
        Some(ConfigError::SelfClient(c))
    } else if s.is_a(c, ServiceType::CapMgr) {
        Some(ConfigError::NestedCapMgr(c))
    } else if s.is_a(c, ServiceType::Scheduler) && s.comp(c).scheduler.dependency is None {
        Some(ConfigError::MissingSchedParent(c))
    } else if !s.has(c) {
        Some(ConfigError::UnknownComponent(c))
    } else {
        None
    }
}

/// The first fault among clients `cs`.
pub open spec fn clients_err(s: SystemState, id: ComponentId, cs: Seq<ComponentId>) -> Option<ConfigError>
    decreases cs.len(),
{
    if cs.len() == 0 {
        None
    } else {
        match clients_err(s, id, cs.drop_last()) {
            Some(e) => Some(e),
            None => client_err(s, id, cs.last()),
        }
    }
}

/// The fault, if any, that the capability-manager configuration of `id` meets.
pub open spec fn capmgr_err(s: SystemState, id: ComponentId) -> Option<ConfigError> {
    if !s.is_a(id, ServiceType::CapMgr) {
        None
    } else if !capmgr_fits(capmgr_clients(s, id).len()) {
        Some(ConfigError::CaptblFull(id))
    } else {
        clients_err(s, id, capmgr_clients(s, id))
    }
}

/// Edges from each scheduler among `cs` to its parent scheduler.
pub open spec fn sched_edges(s: SystemState, cs: Seq<ComponentId>) -> Seq<KvTree>
    decreases cs.len(),
{
    if cs.len() == 0 {
        Seq::empty()
    } else {
        sched_edges(s, cs.drop_last()) + if s.is_a(cs.last(), ServiceType::Scheduler) {
            seq![
                KvTree::Leaf(
                    dec(cs.last() as nat),
                    dec(s.comp(cs.last()).scheduler.dependency->Some_0 as nat),
                ),
            ]
        } else {
            Seq::empty()
        }
    }
}

/// The grants of every scheduler among `cs`, one after another.
pub open spec fn init_edges(s: SystemState, cs: Seq<ComponentId>) -> Seq<KvTree>
    decreases cs.len(),
{
    if cs.len() == 0 {
        Seq::empty()
    } else {
        init_edges(s, cs.drop_last()) + serv_client_entries(s, cs.last())
    }
}

/// The diagnostic name of a component: source, scope and variable.
pub open spec fn comp_label(c: Component) -> Seq<char> {
    c.source@ + "."@ + c.scope_name@ + "."@ + c.var_name@
}

/// The names of clients `cs`.
pub open spec fn client_names(s: SystemState, cs: Seq<ComponentId>) -> Seq<KvTree> {
    Seq::new(cs.len(), |j: int| KvTree::Leaf(dec(cs[j] as nat), comp_label(s.comp(cs[j]))))
}

/// One entry per member of each shared address-space group.
pub open spec fn shared_entries(groups: Seq<Vec<ComponentId>>) -> Seq<KvTree>
    decreases groups.len(),
{
    if groups.len() == 0 {
        Seq::empty()
    } else {
        shared_entries(groups.drop_last()) + Seq::new(
            groups.last()@.len(),
            |j: int| KvTree::Leaf("_"@, dec(groups.last()@[j] as nat)),
        )
    }
}

/// The entries that describe the slots of a table.
pub open spec fn captbl_entries(v: CaptblView) -> Seq<KvTree> {
    Seq::new(v.slots.len(), |k: int| cap_tree(v.slots[k].0, v.slots[k].1))
}

/// The sections that the capability-manager configuration adds for `id`.
pub open spec fn capmgr_sections(s: SystemState, id: ComponentId) -> Seq<KvTree> {
    let cs = capmgr_clients(s, id);
    if s.is_a(id, ServiceType::CapMgr) {
        seq![
            KvTree::Node("scheduler_hierarchy"@, sched_edges(s, cs)),
            KvTree::Node("init_hierarchy"@, init_edges(s, cs)),
            KvTree::Node("captbl"@, captbl_entries(capmgr_layout(s, id))),
            KvTree::Node("names"@, client_names(s, cs)),
            KvTree::Node("addrspc_shared"@, shared_entries(s.addrspc_shared@)),
        ]
    } else {
        Seq::empty()
    }
}

proof fn lemma_client_caps_len(cs: Seq<ComponentId>)
    ensures
        client_caps(cs).len() == 3 * cs.len(),
    decreases cs.len(),
{
    if cs.len() > 0 {
        lemma_client_caps_len(cs.drop_last());
    }
}

proof fn lemma_err_prefix(s: SystemState, id: ComponentId, cs: Seq<ComponentId>, k: nat)
    requires
        k <= cs.len(),
        clients_err(s, id, cs.take(k as int)) is Some,
    ensures
        clients_err(s, id, cs) == clients_err(s, id, cs.take(k as int)),
    decreases cs.len() - k,
{
    if k < cs.len() {
        assert(cs.take(k + 1 as int).drop_last() =~= cs.take(k as int));
        lemma_err_prefix(s, id, cs, k + 1);
    } else {
        assert(cs.take(k as int) =~= cs);
    }
}

/// All capabilities are of size class 4.
proof fn lemma_packing_any(caps: Seq<CapRes>)
    ensures
        captbl_add_all(captbl_fresh(), caps).frontier == 52 + 4 * caps.len(),
        captbl_wf(captbl_add_all(captbl_fresh(), caps)),
{
    lemma_uniform_packing(caps);
    let v = captbl_add_all(captbl_fresh(), caps);
    assert forall|i: int, j: int| 0 <= i < j < v.slots.len() implies v.slots[i].0 < v.slots[j].0 by {
        assert(v.slots[i] == ((52 + 4 * i) as nat, caps[i]));
        assert(v.slots[j] == ((52 + 4 * j) as nat, caps[j]));
    }
    assert forall|i: int| 0 <= i < v.slots.len() implies BOOT_CAPTBL_FREE <= #[trigger] v.slots[i].0
        && v.slots[i].0 < v.frontier by {
        assert(v.slots[i] == ((52 + 4 * i) as nat, caps[i]));
    }
}

/// Builds the section of entries for the slots of `ct`.
fn captbl_args(ct: &CaptblState) -> (r: Vec<ArgsKV>)
    ensures
        forest(r@) == captbl_entries(ct@),
{
    let t = ct.get_captbl();
    let mut r: Vec<ArgsKV> = Vec::new();
    let mut i: usize = 0;
    while i < t.len()
        invariant
            t@.map_values(|p: (u64, CapRes)| (p.0 as nat, p.1)) == ct@.slots,
            0 <= i <= t@.len(),
            forest(r@) == captbl_entries(ct@).take(i as int),
        decreases t@.len() - i,
    {
        let kv = cap2kvarg(t[i].0, &t[i].1);
        proof {
            lemma_forest_push(r@, kv);
            assert(ct@.slots[i as int] == (t@[i as int].0 as nat, t@[i as int].1));
        }
        r.push(kv);
        assert(forest(r@) =~= captbl_entries(ct@).take(i + 1));
        i = i + 1;
    }
    assert(captbl_entries(ct@).take(t@.len() as int) =~= captbl_entries(ct@));
    r
}

/// Builds the entries for the shared address-space groups.
fn shared_args(s: &SystemState) -> (r: Vec<ArgsKV>)
    ensures
        forest(r@) == shared_entries(s.addrspc_shared@),
{
    let groups = &s.addrspc_shared;
    let mut r: Vec<ArgsKV> = Vec::new();
    let mut g: usize = 0;
    while g < groups.len()
        invariant
            groups == &s.addrspc_shared,
            0 <= g <= groups@.len(),
            forest(r@) == shared_entries(groups@.take(g as int)),
        decreases groups@.len() - g,
    {
        let members = &groups[g];
        let ghost base = forest(r@);
        let mut j: usize = 0;
        while j < members.len()
            invariant
                members == groups@[g as int],
                0 <= j <= members@.len(),
                forest(r@) == base + Seq::new(j as nat, |k: int| KvTree::Leaf("_"@, dec(members@[k] as nat))),
            decreases members@.len() - j,
        {
            let kv = ArgsKV::new_key(String::from_str("_"), dec_string(members[j] as u64));
            proof {
                lemma_forest_push(r@, kv);
            }
            r.push(kv);
            assert(forest(r@) =~= base + Seq::new((j + 1) as nat, |k: int| KvTree::Leaf("_"@, dec(members@[k] as nat))));
            j = j + 1;
        }
        assert(groups@.take(g + 1).drop_last() =~= groups@.take(g as int));
        g = g + 1;
    }
    assert(groups@.take(groups@.len() as int) =~= groups@);
    r
}

pub fn capmgr_config(s: &SystemState, id: ComponentId, cfg: &mut CompConfigState) -> (r: Result<(), ConfigError>)
    requires
        s.wf(),
        old(cfg).ct@ == captbl_fresh(),
    ensures
        r is Err <==> capmgr_err(*s, id) is Some,
        r is Err ==> capmgr_err(*s, id) == Some(r->Err_0),
        r is Err ==> final(cfg).args@ == old(cfg).args@,
        r is Ok ==> forest(final(cfg).args@) == forest(old(cfg).args@) + capmgr_sections(*s, id),
        r is Ok ==> final(cfg).ct@ == if s.is_a(id, ServiceType::CapMgr) {
            capmgr_layout(*s, id)
        } else {
            captbl_fresh()
        },
        r is Ok ==> captbl_wf(final(cfg).ct@),
{
    if !s.service_is_a(id, ServiceType::CapMgr) {
        assert(forest(old(cfg).args@) + capmgr_sections(*s, id) =~= forest(old(cfg).args@));
        proof { lemma_packing_any(Seq::empty()); assert(captbl_add_all(captbl_fresh(), Seq::empty()) == captbl_fresh()); }
        return Ok(());
    }
    let clients = sorted_union(
        s.service_clients(id, ServiceType::Scheduler),
        s.service_clients(id, ServiceType::CapMgr),
    );
    if clients.len() as u64 > (u64::MAX - 60) / 12 {
        return Err(ConfigError::CaptblFull(id));
    }
    let ghost cs = clients@;
    let mut sched_args: Vec<ArgsKV> = Vec::new();
    let mut init_args: Vec<ArgsKV> = Vec::new();
    let mut names_args: Vec<ArgsKV> = Vec::new();
    let mut i: usize = 0;
    while i < clients.len()
        invariant
            s.wf(),
            s.is_a(id, ServiceType::CapMgr),
            cs == clients@,
            cs == capmgr_clients(*s, id),
            capmgr_fits(cs.len()),
            0 <= i <= cs.len(),
            clients_err(*s, id, cs.take(i as int)) is None,
            cfg.ct@ == captbl_add_all(captbl_fresh(), client_caps(cs.take(i as int))),
            captbl_wf(cfg.ct@),
            cfg.args@ == old(cfg).args@,
            forest(sched_args@) == sched_edges(*s, cs.take(i as int)),
            forest(init_args@) == init_edges(*s, cs.take(i as int)),
            forest(names_args@) == client_names(*s, cs.take(i as int)),
        decreases cs.len() - i,
    {
        let c = clients[i];
        let ghost pre = cs.take(i as int);
        let ghost next = cs.take(i + 1 as int);
        assert(next.drop_last() =~= pre);
        assert(next.last() == c);
        if c == id {
            proof { lemma_err_prefix(*s, id, cs, (i + 1) as nat); }
            return Err(ConfigError::SelfClient(c));
        }
        if s.service_is_a(c, ServiceType::CapMgr) {
            proof { lemma_err_prefix(*s, id, cs, (i + 1) as nat); }
            return Err(ConfigError::NestedCapMgr(c));
        }
        proof {
            lemma_client_caps_len(pre);
            lemma_packing_any(client_caps(pre));
            assert(12 * i + 12 <= 12 * cs.len()) by (nonlinear_arith) requires i < cs.len();
        }
        cfg.ct.add(CapRes::CapTbl(c));
        cfg.ct.add(CapRes::PgTbl(c));
        cfg.ct.add(CapRes::Comp(c));
        proof {
            let a = client_caps(pre);
            let b = client_caps(next);
            assert(b =~= a.push(CapRes::CapTbl(c)).push(CapRes::PgTbl(c)).push(CapRes::Comp(c)));
            assert(b.drop_last() =~= a.push(CapRes::CapTbl(c)).push(CapRes::PgTbl(c)));
            assert(b.drop_last().drop_last() =~= a.push(CapRes::CapTbl(c)));
            assert(b.drop_last().drop_last().drop_last() =~= a);
            let f = captbl_fresh();
            assert(captbl_add_all(f, b.drop_last().drop_last()) == captbl_add(
                captbl_add_all(f, a),
                CapRes::CapTbl(c),
            ));
            assert(captbl_add_all(f, b.drop_last()) == captbl_add(
                captbl_add_all(f, b.drop_last().drop_last()),
                CapRes::PgTbl(c),
            ));
            assert(captbl_add_all(f, b) == captbl_add(
                captbl_add_all(f, b.drop_last()),
                CapRes::Comp(c),
            ));
        }
        if s.service_is_a(c, ServiceType::Scheduler) {
            match s.service_dependency(c, ServiceType::Scheduler) {
                None => {
                    proof { lemma_err_prefix(*s, id, cs, (i + 1) as nat); }
                    return Err(ConfigError::MissingSchedParent(c));
                },
                Some(p) => {
                    let kv = ArgsKV::new_key(dec_string(c as u64), dec_string(p as u64));
                    proof { lemma_forest_push(sched_args@, kv); }
                    sched_args.push(kv);
                },
            }
        }
        assert(forest(sched_args@) =~= sched_edges(*s, next));
        let mut init_clients = sched_config_serv_client(s, c);
        proof {
            lemma_forest_append(init_args@, init_clients@);
        }
        init_args.append(&mut init_clients);
        match s.component(c) {
            None => {
                proof { lemma_err_prefix(*s, id, cs, (i + 1) as nat); }
                return Err(ConfigError::UnknownComponent(c));
            },
            Some(sc) => {
                let mut name = sc.source.clone();
                name.append(".");
                name.append(sc.scope_name.as_str());
                name.append(".");
                name.append(sc.var_name.as_str());
                let kv = ArgsKV::new_key(dec_string(c as u64), name);
                proof { lemma_forest_push(names_args@, kv); }
                names_args.push(kv);
                assert(forest(names_args@) =~= client_names(*s, next));
            },
        }
        i = i + 1;
    }
    assert(cs.take(cs.len() as int) =~= cs);
    let shared_vas = shared_args(s);
    let ct_args = captbl_args(&cfg.ct);
    let ghost base = forest(cfg.args@);
    let k1 = ArgsKV::new_arr(String::from_str("scheduler_hierarchy"), sched_args);
    let k2 = ArgsKV::new_arr(String::from_str("init_hierarchy"), init_args);
    let k3 = ArgsKV::new_arr(String::from_str("captbl"), ct_args);
    let k4 = ArgsKV::new_arr(String::from_str("names"), names_args);
    let k5 = ArgsKV::new_arr(String::from_str("addrspc_shared"), shared_vas);
    proof { lemma_forest_push(cfg.args@, k1); }
    cfg.args.push(k1);
    proof { lemma_forest_push(cfg.args@, k2); }
    cfg.args.push(k2);
    proof { lemma_forest_push(cfg.args@, k3); }
    cfg.args.push(k3);
    proof { lemma_forest_push(cfg.args@, k4); }
    cfg.args.push(k4);
    proof { lemma_forest_push(cfg.args@, k5); }
    cfg.args.push(k5);
    assert(forest(cfg.args@) =~= base + capmgr_sections(*s, id));
    Ok(())
}

// ---------------------------------------------------------------------------
// Constructor configuration
// ---------------------------------------------------------------------------

/// The capability managers among the constructor `id`'s clients, ascending.
pub open spec fn con_capmgrs(s: SystemState, id: ComponentId) -> Seq<ComponentId> {
    sorted_ids(
        Set::new(
            |c: ComponentId|
                s.clients(id, ServiceType::Constructor).contains(c) && s.is_a(c, ServiceType::CapMgr),
        ),
    )
}

/// The first fault among the layouts of capability managers `cms`.
pub open spec fn cms_err(s: SystemState, cms: Seq<ComponentId>) -> Option<ConfigError>
    decreases cms.len(),
{
    if cms.len() == 0 {
        None
    } else {
        match cms_err(s, cms.drop_last()) {
            Some(e) => Some(e),
            None => capmgr_err(s, cms.last()),
        }
    }
}

/// The fault, if any, that the constructor configuration of `id` meets.
pub open spec fn con_err(s: SystemState, id: ComponentId) -> Option<ConfigError> {
    if !s.is_a(id, ServiceType::Constructor) {
        None
    } else if s.comp(id).constructor.dependency is Some {
        Some(ConfigError::MultipleConstructors(id))
    } else {
        cms_err(s, con_capmgrs(s, id))
    }
}

/// The table that the constructor holds for the capability manager `cm`.
pub open spec fn delegation_entry(s: SystemState, cm: ComponentId) -> KvTree {
    KvTree::Node(dec(cm as nat), captbl_entries(capmgr_layout(s, cm)))
}

/// The sections that the constructor configuration adds for `id`.
pub open spec fn con_sections(s: SystemState, id: ComponentId) -> Seq<KvTree> {
    let cms = con_capmgrs(s, id);
    if s.is_a(id, ServiceType::Constructor) {
        seq![
            KvTree::Node(
                "captbl_delegations"@,
                Seq::new(cms.len(), |j: int| delegation_entry(s, cms[j])),
            ),
        ]
    } else {
        Seq::empty()
    }
}

proof fn lemma_cms_err_prefix(s: SystemState, cms: Seq<ComponentId>, k: nat)
    requires
        k <= cms.len(),
        cms_err(s, cms.take(k as int)) is Some,
    ensures
        cms_err(s, cms) == cms_err(s, cms.take(k as int)),
    decreases cms.len() - k,
{
    if k < cms.len() {
        assert(cms.take(k + 1 as int).drop_last() =~= cms.take(k as int));
        lemma_cms_err_prefix(s, cms, k + 1);
    } else {
        assert(cms.take(k as int) =~= cms);
    }
}

/// The capability managers among the clients of the constructor `id`, ascending.
fn constructor_capmgrs(s: &SystemState, id: ComponentId) -> (r: Vec<ComponentId>)
    requires
        s.wf(),
    ensures
        r@ == con_capmgrs(*s, id),
        forall|c: ComponentId| #[trigger] r@.contains(c) ==> s.is_a(c, ServiceType::CapMgr),
{
    let cs = s.service_clients(id, ServiceType::Constructor);
    let mut v: Vec<ComponentId> = Vec::new();
    let mut i: usize = 0;
    while i < cs.len()
        invariant
            s.wf(),
            cs@ == s.clients(id, ServiceType::Constructor),
            0 <= i <= cs@.len(),
            sorted_strict(v@),
            v@.to_set() == Set::new(
                |c: ComponentId| cs@.take(i as int).contains(c) && s.is_a(c, ServiceType::CapMgr),
            ),
        decreases cs@.len() - i,
    {
        let c = cs[i];
        let ghost old_set = v@.to_set();
        if s.service_is_a(c, ServiceType::CapMgr) {
            insert_sorted(&mut v, c);
        }
        proof {
            let t0 = cs@.take(i as int);
            let t1 = cs@.take(i + 1 as int);
            assert(t1 =~= t0.push(c));
            assert forall|x: ComponentId| t1.contains(x) <==> t0.contains(x) || x == c by {
                if t1.contains(x) {
                    let k = choose|k: int| 0 <= k < t1.len() && t1[k] == x;
                    if k < i {
                        assert(t0[k] == x);
                    }
                }
                if t0.contains(x) {
                    let k = choose|k: int| 0 <= k < t0.len() && t0[k] == x;
                    assert(t1[k] == x);
                }
                if x == c {
                    assert(t1[i as int] == x);
                }
            }
            assert(v@.to_set() =~= Set::new(
                |x: ComponentId| t1.contains(x) && s.is_a(x, ServiceType::CapMgr),
            ));
        }
        i = i + 1;
    }
    proof {
        assert(cs@.take(cs@.len() as int) =~= cs@);
        let u = Set::new(
            |c: ComponentId| s.clients(id, ServiceType::Constructor).contains(c) && s.is_a(c, ServiceType::CapMgr),
        );
        assert(v@.to_set() =~= u);
        assert(sorted_strict(v@) && v@.to_set() == u);
        lemma_sorted_unique(v@, sorted_ids(u));
        assert forall|c: ComponentId| #[trigger] v@.contains(c) implies s.is_a(c, ServiceType::CapMgr) by {
            assert(v@.to_set().contains(c));
        }
    }
    v
}

pub fn constructor_config(s: &SystemState, id: ComponentId, cfg: &mut CompConfigState) -> (r: Result<(), ConfigError>)
    requires
        s.wf(),
    ensures
        r is Err <==> con_err(*s, id) is Some,
        r is Err ==> con_err(*s, id) == Some(r->Err_0),
        r is Err ==> final(cfg).args@ == old(cfg).args@,
        r is Ok ==> forest(final(cfg).args@) == forest(old(cfg).args@) + con_sections(*s, id),
        final(cfg).ct == old(cfg).ct,
{
    if !s.service_is_a(id, ServiceType::Constructor) {
        assert(forest(old(cfg).args@) + con_sections(*s, id) =~= forest(old(cfg).args@));
        return Ok(());
    }
    if s.service_dependency(id, ServiceType::Constructor).is_some() {
        return Err(ConfigError::MultipleConstructors(id));
    }
    let cms = constructor_capmgrs(s, id);
    assert(cms@.take(0) =~= Seq::<ComponentId>::empty());
    let mut args: Vec<ArgsKV> = Vec::new();
    let mut i: usize = 0;
    while i < cms.len()
        invariant
            s.wf(),
            cms@ == con_capmgrs(*s, id),
            con_err(*s, id) == cms_err(*s, cms@),
            forall|c: ComponentId| #[trigger] cms@.contains(c) ==> s.is_a(c, ServiceType::CapMgr),
            0 <= i <= cms@.len(),
            cms_err(*s, cms@.take(i as int)) is None,
            forest(args@) == Seq::new(i as nat, |j: int| delegation_entry(*s, cms@[j])),
        decreases cms@.len() - i,
    {
        let cm = cms[i];
        assert(cms@.take(i + 1 as int).drop_last() =~= cms@.take(i as int));
        let mut chld = CompConfigState::new();
        match capmgr_config(s, cm, &mut chld) {
            Err(e) => {
                proof { lemma_cms_err_prefix(*s, cms@, (i + 1) as nat); }
                return Err(e);
            },
            Ok(()) => {},
        }
        assert(cms@.contains(cm)) by {
            assert(cms@[i as int] == cm);
        }
        let kv = ArgsKV::new_arr(dec_string(cm as u64), captbl_args(&chld.ct));
        proof { lemma_forest_push(args@, kv); }
        args.push(kv);
        assert(forest(args@) =~= Seq::new((i + 1) as nat, |j: int| delegation_entry(*s, cms@[j])));
        i = i + 1;
    }
    assert(cms@.take(cms@.len() as int) =~= cms@);
    let kv = ArgsKV::new_arr(String::from_str("captbl_delegations"), args);
    proof { lemma_forest_push(cfg.args@, kv); }
    cfg.args.push(kv);
    assert(forest(cfg.args@) =~= forest(old(cfg).args@) + con_sections(*s, id));
    Ok(())
}

/// Closes the configuration of one component: records the end of its
/// capability table.
pub fn comp_config_finalize(cfg: CompConfigState) -> (r: Vec<ArgsKV>)
    ensures
        forest(r@) == forest(cfg.args@).push(KvTree::Leaf("captbl_end"@, dec(cfg.ct@.frontier))),
{
    let frontier = cfg.ct.get_frontier();
    let mut args = cfg.args;
    let kv = ArgsKV::new_key(String::from_str("captbl_end"), dec_string(frontier));
    proof { lemma_forest_push(args@, kv); }
    args.push(kv);
    args
}

} // verus!
