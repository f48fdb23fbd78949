use vstd::prelude::*;

use crate::initargs::{dec, forest, ArgsKV, KvTree};
use crate::resources::{
    capmgr_config, capmgr_err, capmgr_layout, capmgr_sections, comp_config_finalize, con_capmgrs,
    con_err, con_sections, constructor_config, sched_config, sched_sections, CompConfigState, ConfigError,
    BOOT_CAPTBL_FREE,
};
use crate::system::{Component, ComponentId, ServiceType, SystemState};
use crate::ids::lemma_sorted_filter;
use crate::system::VirtResDef;
use crate::virt_res::{
    comp_virt_res_config, comp_vr_sections, served_defs, sys_vr_dropped, views, sys_virt_res_config, sys_vr_err,
    sys_vr_sections,
};

verus! {

/// The fault, if any, that configuring component `id` meets.
pub open spec fn comp_err(s: SystemState, id: ComponentId) -> Option<ConfigError> {
    if capmgr_err(s, id) is Some {
        capmgr_err(s, id)
    } else if con_err(s, id) is Some {
        con_err(s, id)
    } else if sys_vr_err(s, id) is Some {
        sys_vr_err(s, id)
    } else {
        None
    }
}

/// Where the capability table of component `id` ends.
pub open spec fn captbl_end(s: SystemState, id: ComponentId) -> nat {
    if s.is_a(id, ServiceType::CapMgr) {
        capmgr_layout(s, id).frontier
    } else {
        BOOT_CAPTBL_FREE as nat
    }
}

/// The configuration of component `id`: the sections of each generator in
/// turn, then the end of its capability table.
pub open spec fn comp_output(s: SystemState, id: ComponentId) -> Seq<KvTree> {
    capmgr_sections(s, id) + con_sections(s, id) + sched_sections(s, id) + sys_vr_sections(s, id)
        + comp_vr_sections(s, id) + seq![KvTree::Leaf("captbl_end"@, dec(captbl_end(s, id)))]
}

/// The first fault among components `cs`.
pub open spec fn comps_err(s: SystemState, cs: Seq<Component>) -> Option<ConfigError>
    decreases cs.len(),
{
    if cs.len() == 0 {
        None
    } else {
        match comps_err(s, cs.drop_last()) {
            Some(e) => Some(e),
            None => comp_err(s, cs.last().id),
        }
    }
}

/// The virtual-resource references dropped while configuring components `cs`, in order.
pub open spec fn comps_dropped(s: SystemState, cs: Seq<Component>) -> Seq<Seq<char>>
    decreases cs.len(),
{
    if cs.len() == 0 {
        Seq::empty()
    } else {
        comps_dropped(s, cs.drop_last()) + sys_vr_dropped(s, cs.last().id)
    }
}

/// Runs every generator, in their fixed order, on component `id`; returns its
/// configuration and the virtual-resource references that were dropped.
pub fn comp_config(s: &SystemState, id: ComponentId) -> (r: Result<(Vec<ArgsKV>, Vec<String>), ConfigError>)
    requires
        s.wf(),
    ensures
        r is Err <==> comp_err(*s, id) is Some,
        r is Err ==> comp_err(*s, id) == Some(r->Err_0),
        r is Ok ==> forest(r->Ok_0.0@) == comp_output(*s, id),
        r is Ok ==> views(r->Ok_0.1@) == sys_vr_dropped(*s, id),
{
    let mut cfg = CompConfigState::new();
    proof {
        crate::initargs::lemma_forest(cfg.args@);
    }
    let ghost f0 = forest(cfg.args@);
    // capability-manager configuration comes first: the constructor's
    // configuration replicates each capability manager's table
    capmgr_config(s, id, &mut cfg)?;
    constructor_config(s, id, &mut cfg)?;
    sched_config(s, id, &mut cfg);
    let dropped = sys_virt_res_config(s, id, &mut cfg)?;
    match comp_virt_res_config(s, id, &mut cfg) {
        Ok(()) => {},
        Err(e) => {
            assert(sys_vr_err(*s, id) is Some);
            return Err(e);
        },
    }
    let args = comp_config_finalize(cfg);
    assert(f0 =~= Seq::<KvTree>::empty());
    assert(forest(args@) =~= comp_output(*s, id));
    Ok((args, dropped))
}

/// The configuration of every component, by id, and the virtual-resource
/// references that the registry did not know.
pub struct ResAssignPass {
    pub resources: Vec<(ComponentId, Vec<ArgsKV>)>,
    pub unresolved: Vec<String>,
}

impl ResAssignPass {
    /// The configuration recorded for `id` is `v`.
    pub open spec fn maps(&self, id: ComponentId, v: Vec<ArgsKV>) -> bool {
        exists|i: int|
            0 <= i < self.resources@.len() && #[trigger] self.resources@[i] == (id, v) && forall|j: int|
                0 <= j < i ==> self.resources@[j].0 != id
    }

    /// Configures every component of the system, in its canonical order.
    pub fn transition(s: &SystemState) -> (r: Result<ResAssignPass, ConfigError>)
        requires
            s.wf(),
        ensures
            r is Err <==> comps_err(*s, s.comps@) is Some,
            r is Err ==> comps_err(*s, s.comps@) == Some(r->Err_0),
            r is Ok ==> r->Ok_0.resources@.len() == s.comps@.len(),
            r is Ok ==> forall|i: int|
                0 <= i < s.comps@.len() ==> (#[trigger] r->Ok_0.resources@[i]).0 == s.comps@[i].id
                    && forest(r->Ok_0.resources@[i].1@) == comp_output(*s, s.comps@[i].id),
            r is Ok ==> views(r->Ok_0.unresolved@) == comps_dropped(*s, s.comps@),
    {
        let mut res: Vec<(ComponentId, Vec<ArgsKV>)> = Vec::new();
        let mut unresolved: Vec<String> = Vec::new();
        let mut i: usize = 0;
        while i < s.comps.len()
            invariant
                s.wf(),
                0 <= i <= s.comps@.len(),
                res@.len() == i,
                comps_err(*s, s.comps@.take(i as int)) is None,
                forall|k: int|
                    0 <= k < i ==> (#[trigger] res@[k]).0 == s.comps@[k].id && forest(res@[k].1@)
                        == comp_output(*s, s.comps@[k].id),
                views(unresolved@) == comps_dropped(*s, s.comps@.take(i as int)),
            decreases s.comps@.len() - i,
        {
            let id = s.comps[i].id;
            assert(s.comps@.take(i + 1 as int).drop_last() =~= s.comps@.take(i as int));
            match comp_config(s, id) {
                Ok((args, mut dropped)) => {
                    res.push((id, args));
                    let ghost u0 = unresolved@;
                    let ghost d0 = dropped@;
                    unresolved.append(&mut dropped);
                    assert(views(unresolved@) =~= views(u0) + views(d0));
                },
                Err(e) => {
                    proof {
                        lemma_comps_err_prefix(*s, s.comps@, (i + 1) as nat);
                    }
                    return Err(e);
                },
            }
            i = i + 1;
        }
        assert(s.comps@.take(s.comps@.len() as int) =~= s.comps@);
        Ok(ResAssignPass { resources: res, unresolved })
    }

    /// The configuration of component `id`.
    pub fn args(&self, id: ComponentId) -> (r: &Vec<ArgsKV>)
        requires
            exists|i: int| 0 <= i < self.resources@.len() && #[trigger] self.resources@[i].0 == id,
        ensures
            self.maps(id, *r),
    {
        let mut i: usize = 0;
        while i < self.resources.len()
            invariant
                0 <= i <= self.resources@.len(),
                exists|i: int| 0 <= i < self.resources@.len() && #[trigger] self.resources@[i].0 == id,
                forall|j: int| 0 <= j < i ==> self.resources@[j].0 != id,
            decreases self.resources@.len() - i,
        {
            if self.resources[i].0 == id {
                assert(self.resources@[i as int] == (id, self.resources@[i as int].1));
                return &self.resources[i].1;
            }
            i = i + 1;
        }
        &self.resources[0].1
    }
}

proof fn lemma_comps_err_prefix(s: SystemState, cs: Seq<Component>, k: nat)
    requires
        k <= cs.len(),
        comps_err(s, cs.take(k as int)) is Some,
    ensures
        comps_err(s, cs) == comps_err(s, cs.take(k as int)),
    decreases cs.len() - k,
{
    if k < cs.len() {
        assert(cs.take(k + 1 as int).drop_last() =~= cs.take(k as int));
        lemma_comps_err_prefix(s, cs, k + 1);
    } else {
        assert(cs.take(k as int) =~= cs);
    }
}

/// Running the pass twice on the same system gives, for every component,
/// configurations of the same value; with `lemma_same_args_same_source`
/// their generated sources are the same text.
pub proof fn lemma_pass_deterministic(s: SystemState, a: ResAssignPass, b: ResAssignPass)
    requires
        a.resources@.len() == s.comps@.len(),
        b.resources@.len() == s.comps@.len(),
        forall|i: int|
            0 <= i < s.comps@.len() ==> (#[trigger] a.resources@[i]).0 == s.comps@[i].id && forest(
                a.resources@[i].1@,
            ) == comp_output(s, s.comps@[i].id),
        forall|i: int|
            0 <= i < s.comps@.len() ==> (#[trigger] b.resources@[i]).0 == s.comps@[i].id && forest(
                b.resources@[i].1@,
            ) == comp_output(s, s.comps@[i].id),
    ensures
        forall|i: int|
            0 <= i < s.comps@.len() ==> (#[trigger] a.resources@[i]).0 == b.resources@[i].0 && forest(
                a.resources@[i].1@,
            ) == forest(b.resources@[i].1@),
{
    assert forall|i: int| 0 <= i < s.comps@.len() implies (#[trigger] a.resources@[i]).0
        == b.resources@[i].0 && forest(a.resources@[i].1@) == forest(b.resources@[i].1@) by {
        assert(b.resources@[i].0 == s.comps@[i].id);
    }
}

/// The table that a constructor holds for a capability manager among its
/// clients is the `captbl` section that the capability manager itself is given.
pub proof fn lemma_delegation_matches_captbl(s: SystemState, con: ComponentId, k: int)
    requires
        s.is_a(con, ServiceType::Constructor),
        0 <= k < con_capmgrs(s, con).len(),
        s.is_a(con_capmgrs(s, con)[k], ServiceType::CapMgr),
    ensures
        ({
            let cm = con_capmgrs(s, con)[k];
            let del = comp_output(s, con)[capmgr_sections(s, con).len() as int];
            let own = comp_output(s, cm)[2];
            &&& del is Node
            &&& del->Node_0 == "captbl_delegations"@
            &&& own is Node
            &&& own->Node_0 == "captbl"@
            &&& del->Node_1[k] == KvTree::Node(dec(cm as nat), own->Node_1)
        }),
{
    let cm = con_capmgrs(s, con)[k];
    let o = comp_output(s, con);
    assert(o[capmgr_sections(s, con).len() as int] == con_sections(s, con)[0]);
    assert(comp_output(s, cm)[2] == capmgr_sections(s, cm)[2]);
}

proof fn lemma_served_none(s: SystemState, defs: Seq<VirtResDef>, server: Seq<char>)
    requires
        forall|k: int| 0 <= k < defs.len() ==> (#[trigger] defs[k]).server@ != server,
    ensures
        served_defs(s, defs, server).len() == 0,
    decreases defs.len(),
{
    if defs.len() > 0 {
        let p = defs.drop_last();
        assert forall|k: int| 0 <= k < p.len() implies (#[trigger] p[k]).server@ != server by {
            assert(p[k] == defs[k]);
        }
        lemma_served_none(s, p, server);
        assert(defs.last() == defs[defs.len() - 1]);
    }
}

/// A component that neither declares nor serves a virtual resource is
/// given no virtual-resource section: its configuration is that of the other
/// generators and the end of its table.
pub proof fn lemma_no_virt_res_sections(s: SystemState, id: ComponentId)
    requires
        s.comp(id).virt_res@.len() == 0,
        forall|k: int|
            0 <= k < s.virt_resources@.len() ==> (#[trigger] s.virt_resources@[k]).server@ != s.comp(
                id,
            ).var_name@,
    ensures
        sys_vr_sections(s, id).len() == 0,
        comp_vr_sections(s, id).len() == 0,
        comp_output(s, id) == capmgr_sections(s, id) + con_sections(s, id) + sched_sections(s, id)
            + seq![KvTree::Leaf("captbl_end"@, dec(captbl_end(s, id)))],
{
    lemma_served_none(s, s.virt_resources@, s.comp(id).var_name@);
    assert(sys_vr_sections(s, id) =~= Seq::<KvTree>::empty());
    assert(comp_vr_sections(s, id) =~= Seq::<KvTree>::empty());
    assert(comp_output(s, id) =~= capmgr_sections(s, id) + con_sections(s, id) + sched_sections(s, id)
        + seq![KvTree::Leaf("captbl_end"@, dec(captbl_end(s, id)))]);
}

/// The key of a node.
pub open spec fn key_of(t: KvTree) -> Seq<char> {
    match t {
        KvTree::Leaf(k, _) => k,
        KvTree::Node(k, _) => k,
    }
}

/// A component that neither declares nor serves a virtual resource has no
/// entry keyed `sys_virt_resources` or `comp_virt_resources` in its configuration.
pub proof fn lemma_no_virt_res_keys(s: SystemState, id: ComponentId)
    requires
        s.comp(id).virt_res@.len() == 0,
        forall|k: int|
            0 <= k < s.virt_resources@.len() ==> (#[trigger] s.virt_resources@[k]).server@ != s.comp(
                id,
            ).var_name@,
    ensures
        forall|k: int|
            0 <= k < comp_output(s, id).len() ==> key_of(#[trigger] comp_output(s, id)[k])
                != "sys_virt_resources"@ && key_of(comp_output(s, id)[k]) != "comp_virt_resources"@,
{
    lemma_no_virt_res_sections(s, id);
    reveal_strlit("sys_virt_resources");
    reveal_strlit("comp_virt_resources");
    reveal_strlit("scheduler_hierarchy");
    reveal_strlit("init_hierarchy");
    reveal_strlit("captbl");
    reveal_strlit("names");
    reveal_strlit("addrspc_shared");
    reveal_strlit("captbl_delegations");
    reveal_strlit("execute");
    reveal_strlit("captbl_end");
    let sv = "sys_virt_resources"@;
    let cv = "comp_virt_resources"@;
    let keys = seq![
        "scheduler_hierarchy"@,
        "init_hierarchy"@,
        "captbl"@,
        "names"@,
        "addrspc_shared"@,
        "captbl_delegations"@,
        "execute"@,
        "captbl_end"@,
    ];
    assert(sv[0] == 's' && cv[0] == 'c');
    assert(keys[0][0] == 's' && keys[5][0] == 'c');
    assert forall|j: int| 0 <= j < keys.len() implies #[trigger] keys[j] != sv && keys[j] != cv by {
        if keys[j].len() == sv.len() {
            assert(keys[j][0] != sv[0]);
        }
        if keys[j].len() == cv.len() {
            assert(keys[j][0] != cv[0]);
        }
    }
    let o = comp_output(s, id);
    assert forall|k: int| 0 <= k < o.len() implies key_of(#[trigger] o[k]) != sv && key_of(o[k]) != cv by {
        assert(exists|j: int| 0 <= j < keys.len() && key_of(o[k]) == #[trigger] keys[j]) by {
            let a = capmgr_sections(s, id);
            let b = con_sections(s, id);
            let c = sched_sections(s, id);
            if k < a.len() {
                assert(key_of(o[k]) == keys[k]);
            } else if k < a.len() + b.len() {
                assert(key_of(o[k]) == keys[5]);
            } else if k < a.len() + b.len() + c.len() {
                assert(key_of(o[k]) == keys[6]);
            } else {
                assert(key_of(o[k]) == keys[7]);
            }
        }
    }
}

/// For a capability manager `cm` among the clients of the constructor `con`,
/// the constructor's configuration holds a table keyed by `cm` that is the
/// `captbl` section of `cm`'s own configuration.
pub proof fn lemma_constructor_holds_captbl_of(s: SystemState, con: ComponentId, cm: ComponentId)
    requires
        s.is_a(con, ServiceType::Constructor),
        s.clients(con, ServiceType::Constructor).contains(cm),
        s.is_a(cm, ServiceType::CapMgr),
    ensures
        ({
            let del = comp_output(s, con)[capmgr_sections(s, con).len() as int];
            let own = comp_output(s, cm)[2];
            &&& del is Node
            &&& del->Node_0 == "captbl_delegations"@
            &&& own is Node
            &&& own->Node_0 == "captbl"@
            &&& exists|k: int|
                0 <= k < del->Node_1.len() && #[trigger] del->Node_1[k] == KvTree::Node(
                    dec(cm as nat),
                    own->Node_1,
                )
        }),
{
    let xs = s.clients(con, ServiceType::Constructor);
    let p = |c: ComponentId| s.is_a(c, ServiceType::CapMgr);
    lemma_sorted_filter(xs, p);
    let u = Set::new(|c: ComponentId| xs.contains(c) && p(c));
    assert(u =~= Set::new(
        |c: ComponentId| s.clients(con, ServiceType::Constructor).contains(c) && s.is_a(c, ServiceType::CapMgr),
    ));
    let cms = con_capmgrs(s, con);
    assert(cms.to_set().contains(cm));
    let k = choose|k: int| 0 <= k < cms.len() && cms[k] == cm;
    lemma_delegation_matches_captbl(s, con, k);
    let del = comp_output(s, con)[capmgr_sections(s, con).len() as int];
    assert(del->Node_1[k] == KvTree::Node(dec(cm as nat), comp_output(s, cm)[2]->Node_1));
    assert(k < del->Node_1.len());
}

} // verus!
