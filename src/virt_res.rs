use vstd::prelude::*;

use crate::initargs::{
    dec, dec_string, forest, lemma_forest_append, lemma_forest_push, tree, ArgsKV, KvTree,
};
use crate::resources::{CompConfigState, ConfigError};
use crate::system::{
    CompVirtRes, Component, ComponentId, ParamValue, SystemState, VirtResDef, VrAssoc, VrInstance,
    VrParam, VrResource,
};

verus! {

// ---------------------------------------------------------------------------
// System-level virtual resources
// ---------------------------------------------------------------------------

/// References to the registered instances named by the string items of `elems`;
/// items that are not strings, or that the registry does not know, are dropped.
pub open spec fn arr_refs(s: SystemState, elems: Seq<ParamValue>) -> Seq<KvTree>
    decreases elems.len(),
{
    if elems.len() == 0 {
        Seq::empty()
    } else {
        arr_refs(s, elems.drop_last()) + match elems.last() {
            ParamValue::Str(x) => match s.vr_id(x@) {
                Some(i) => seq![
                    KvTree::Node("sub_sub_virt_resource"@, seq![KvTree::Leaf("id"@, i)]),
                ],
                None => Seq::empty(),
            },
            _ => Seq::empty(),
        }
    }
}

/// The resolved parameters of a served instance.
pub open spec fn sys_param_entries(s: SystemState, ps: Seq<VrParam>) -> Seq<KvTree>
    decreases ps.len(),
{
    if ps.len() == 0 {
        Seq::empty()
    } else {
        sys_param_entries(s, ps.drop_last()) + match ps.last().value {
            ParamValue::Arr(elems) => arr_refs(s, elems@),
            ParamValue::Str(v) => seq![KvTree::Leaf(ps.last().key@, v@)],
            ParamValue::Other => Seq::empty(),
        }
    }
}

/// One `comp_id` entry for each of `insts` named `inst`.
pub open spec fn inst_hits(insts: Seq<VrInstance>, inst: Seq<char>, cid: ComponentId) -> Seq<KvTree>
    decreases insts.len(),
{
    if insts.len() == 0 {
        Seq::empty()
    } else {
        inst_hits(insts.drop_last(), inst, cid) + if insts.last().instance@ == inst {
            seq![KvTree::Leaf("comp_id"@, dec(cid as nat))]
        } else {
            Seq::empty()
        }
    }
}

/// The `comp_id` entries for a component that declares `vrs`.
pub open spec fn vres_hits(vrs: Seq<CompVirtRes>, ty: Seq<char>, inst: Seq<char>, cid: ComponentId) -> Seq<KvTree>
    decreases vrs.len(),
{
    if vrs.len() == 0 {
        Seq::empty()
    } else {
        vres_hits(vrs.drop_last(), ty, inst, cid) + if vrs.last().vr_type@ == ty {
            inst_hits(vrs.last().instances@, inst, cid)
        } else {
            Seq::empty()
        }
    }
}

/// The clients of instance `inst` of type `ty` among `comps`.
pub open spec fn vr_client_entries(comps: Seq<Component>, ty: Seq<char>, inst: Seq<char>) -> Seq<KvTree>
    decreases comps.len(),
{
    if comps.len() == 0 {
        Seq::empty()
    } else {
        vr_client_entries(comps.drop_last(), ty, inst) + vres_hits(
            comps.last().virt_res@,
            ty,
            inst,
            comps.last().id,
        )
    }
}

/// Every instance of `rs` is registered.
pub open spec fn all_registered(s: SystemState, rs: Seq<VrResource>) -> bool {
    forall|k: int| 0 <= k < rs.len() ==> (#[trigger] s.vr_id(rs[k].instance@)) is Some
}

/// The entry of one served instance.
pub open spec fn served_entry(s: SystemState, ty: Seq<char>, r: VrResource) -> KvTree {
    KvTree::Node(
        "sub_virt_resource"@,
        seq![
            KvTree::Leaf("id"@, s.vr_id(r.instance@)->Some_0),
            KvTree::Node("params"@, sys_param_entries(s, r.param@)),
            KvTree::Node("client"@, vr_client_entries(s.comps@, ty, r.instance@)),
        ],
    )
}

/// The entry of one definition served by the component.
pub open spec fn served_def(s: SystemState, d: VirtResDef) -> KvTree {
    KvTree::Node(
        d.vr_type@,
        Seq::new(d.resources@.len(), |k: int| served_entry(s, d.vr_type@, d.resources@[k])),
    )
}

/// The entries of the definitions among `defs` served by the component named `server`.
pub open spec fn served_defs(s: SystemState, defs: Seq<VirtResDef>, server: Seq<char>) -> Seq<KvTree>
    decreases defs.len(),
{
    if defs.len() == 0 {
        Seq::empty()
    } else {
        served_defs(s, defs.drop_last(), server) + if defs.last().server@ == server {
            seq![served_def(s, defs.last())]
        } else {
            Seq::empty()
        }
    }
}

/// Every instance of every definition among `defs` served by `server` is registered.
pub open spec fn served_registered(s: SystemState, defs: Seq<VirtResDef>, server: Seq<char>) -> bool {
    forall|k: int|
        0 <= k < defs.len() && (#[trigger] defs[k]).server@ == server ==> all_registered(
            s,
            defs[k].resources@,
        )
}

/// The fault, if any, that the system-level configuration of `id` meets.
pub open spec fn sys_vr_err(s: SystemState, id: ComponentId) -> Option<ConfigError> {
    if !s.has(id) {
        Some(ConfigError::UnknownComponent(id))
    } else if !served_registered(s, s.virt_resources@, s.comp(id).var_name@) {
        Some(ConfigError::UnknownVirtResInstance(id))
    } else {
        None
    }
}

/// The sections that the system-level configuration adds for `id`: none
/// when it serves no virtual resource.
pub open spec fn sys_vr_sections(s: SystemState, id: ComponentId) -> Seq<KvTree> {
    let e = served_defs(s, s.virt_resources@, s.comp(id).var_name@);
    if e.len() == 0 {
        Seq::empty()
    } else {
        seq![KvTree::Node("sys_virt_resources"@, e)]
    }
}

/// The character sequences of `v`.
pub open spec fn views(v: Seq<String>) -> Seq<Seq<char>> {
    v.map_values(|x: String| x@)
}

/// The string items of `elems` that the registry does not know, in order:
/// the references that are dropped with a warning.
pub open spec fn arr_dropped(s: SystemState, elems: Seq<ParamValue>) -> Seq<Seq<char>>
    decreases elems.len(),
{
    if elems.len() == 0 {
        Seq::empty()
    } else {
        arr_dropped(s, elems.drop_last()) + match elems.last() {
            ParamValue::Str(x) => if s.vr_id(x@) is None {
                seq![x@]
            } else {
                Seq::empty()
            },
            _ => Seq::empty(),
        }
    }
}

/// The references dropped from the array parameters among `ps`.
pub open spec fn params_dropped(s: SystemState, ps: Seq<VrParam>) -> Seq<Seq<char>>
    decreases ps.len(),
{
    if ps.len() == 0 {
        Seq::empty()
    } else {
        params_dropped(s, ps.drop_last()) + match ps.last().value {
            ParamValue::Arr(elems) => arr_dropped(s, elems@),
            _ => Seq::empty(),
        }
    }
}

/// The references dropped from the parameters of the resources `rs`.
pub open spec fn res_dropped(s: SystemState, rs: Seq<VrResource>) -> Seq<Seq<char>>
    decreases rs.len(),
{
    if rs.len() == 0 {
        Seq::empty()
    } else {
        res_dropped(s, rs.drop_last()) + params_dropped(s, rs.last().param@)
    }
}

/// The references dropped from the definitions among `defs` served by `server`.
pub open spec fn served_dropped(s: SystemState, defs: Seq<VirtResDef>, server: Seq<char>) -> Seq<Seq<char>>
    decreases defs.len(),
{
    if defs.len() == 0 {
        Seq::empty()
    } else {
        served_dropped(s, defs.drop_last(), server) + if defs.last().server@ == server {
            res_dropped(s, defs.last().resources@)
        } else {
            Seq::empty()
        }
    }
}

/// The references dropped while configuring the virtual resources that `id` serves.
pub open spec fn sys_vr_dropped(s: SystemState, id: ComponentId) -> Seq<Seq<char>> {
    served_dropped(s, s.virt_resources@, s.comp(id).var_name@)
}

fn param_refs(s: &SystemState, elems: &Vec<ParamValue>, dropped: &mut Vec<String>) -> (r: Vec<ArgsKV>)
    requires
        s.wf(),
    ensures
        forest(r@) == arr_refs(*s, elems@),
        views(final(dropped)@) == views(old(dropped)@) + arr_dropped(*s, elems@),
{
    let ghost d0 = views(dropped@);
    let mut out: Vec<ArgsKV> = Vec::new();
    let mut i: usize = 0;
    while i < elems.len()
        invariant
            s.wf(),
            0 <= i <= elems@.len(),
            forest(out@) == arr_refs(*s, elems@.take(i as int)),
            views(dropped@) == d0 + arr_dropped(*s, elems@.take(i as int)),
        decreases elems@.len() - i,
    {
        assert(elems@.take(i + 1 as int).drop_last() =~= elems@.take(i as int));
        if let ParamValue::Str(x) = &elems[i] {
            let found = s.vr_lookup(x);
            let ghost dd = dropped@;
            if found.is_none() {
                let name = x.clone();
                dropped.push(name);
                assert(views(dropped@) =~= views(dd).push(x@));
            }
            if let Some(id) = found {
                let kv = ArgsKV::new_arr(
                    String::from_str("sub_sub_virt_resource"),
                    vec![ArgsKV::new_key(String::from_str("id"), id.clone())],
                );
                proof {
                    crate::initargs::lemma_forest_eq(
                        kv.val->Arr_0@,
                        seq![KvTree::Leaf("id"@, id@)],
                    );
                    lemma_forest_push(out@, kv);
                }
                out.push(kv);
            }
        }
        assert(forest(out@) =~= arr_refs(*s, elems@.take(i + 1 as int)));
        assert(views(dropped@) =~= d0 + arr_dropped(*s, elems@.take(i + 1 as int)));
        i = i + 1;
    }
    assert(elems@.take(elems@.len() as int) =~= elems@);
    out
}

fn sys_params(s: &SystemState, ps: &Vec<VrParam>, dropped: &mut Vec<String>) -> (r: Vec<ArgsKV>)
    requires
        s.wf(),
    ensures
        forest(r@) == sys_param_entries(*s, ps@),
        views(final(dropped)@) == views(old(dropped)@) + params_dropped(*s, ps@),
{
    let ghost d0 = views(dropped@);
    let mut out: Vec<ArgsKV> = Vec::new();
    let mut i: usize = 0;
    while i < ps.len()
        invariant
            s.wf(),
            0 <= i <= ps@.len(),
            forest(out@) == sys_param_entries(*s, ps@.take(i as int)),
            views(dropped@) == d0 + params_dropped(*s, ps@.take(i as int)),
        decreases ps@.len() - i,
    {
        assert(ps@.take(i + 1 as int).drop_last() =~= ps@.take(i as int));
        match &ps[i].value {
            ParamValue::Arr(elems) => {
                let mut more = param_refs(s, elems, dropped);
                proof {
                    lemma_forest_append(out@, more@);
                }
                out.append(&mut more);
            },
            ParamValue::Str(v) => {
                let kv = ArgsKV::new_key(ps[i].key.clone(), v.clone());
                proof {
                    lemma_forest_push(out@, kv);
                }
                out.push(kv);
            },
            ParamValue::Other => {},
        }
        assert(views(dropped@) =~= d0 + params_dropped(*s, ps@.take(i + 1 as int)));
        i = i + 1;
    }
    assert(ps@.take(ps@.len() as int) =~= ps@);
    out
}

fn comp_hits(c: &Component, ty: &String, inst: &String) -> (r: Vec<ArgsKV>)
    ensures
        forest(r@) == vres_hits(c.virt_res@, ty@, inst@, c.id),
{
    let mut out: Vec<ArgsKV> = Vec::new();
    let vrs = &c.virt_res;
    let mut i: usize = 0;
    while i < vrs.len()
        invariant
            vrs == &c.virt_res,
            0 <= i <= vrs@.len(),
            forest(out@) == vres_hits(vrs@.take(i as int), ty@, inst@, c.id),
        decreases vrs@.len() - i,
    {
        assert(vrs@.take(i + 1 as int).drop_last() =~= vrs@.take(i as int));
        if vrs[i].vr_type == *ty {
            let insts = &vrs[i].instances;
            let ghost base = forest(out@);
            let mut j: usize = 0;
            while j < insts.len()
                invariant
                    insts == &vrs@[i as int].instances,
                    0 <= j <= insts@.len(),
                    forest(out@) == base + inst_hits(insts@.take(j as int), inst@, c.id),
                decreases insts@.len() - j,
            {
                assert(insts@.take(j + 1 as int).drop_last() =~= insts@.take(j as int));
                if insts[j].instance == *inst {
                    let kv = ArgsKV::new_key(String::from_str("comp_id"), dec_string(c.id as u64));
                    proof {
                        lemma_forest_push(out@, kv);
                    }
                    out.push(kv);
                }
                assert(forest(out@) =~= base + inst_hits(insts@.take(j + 1 as int), inst@, c.id));
                j = j + 1;
            }
            assert(insts@.take(insts@.len() as int) =~= insts@);
        }
        assert(forest(out@) =~= vres_hits(vrs@.take(i + 1 as int), ty@, inst@, c.id));
        i = i + 1;
    }
    assert(vrs@.take(vrs@.len() as int) =~= vrs@);
    out
}

fn vr_clients(s: &SystemState, ty: &String, inst: &String) -> (r: Vec<ArgsKV>)
    ensures
        forest(r@) == vr_client_entries(s.comps@, ty@, inst@),
{
    let mut out: Vec<ArgsKV> = Vec::new();
    let mut i: usize = 0;
    while i < s.comps.len()
        invariant
            0 <= i <= s.comps@.len(),
            forest(out@) == vr_client_entries(s.comps@.take(i as int), ty@, inst@),
        decreases s.comps@.len() - i,
    {
        assert(s.comps@.take(i + 1 as int).drop_last() =~= s.comps@.take(i as int));
        let mut more = comp_hits(&s.comps[i], ty, inst);
        proof {
            lemma_forest_append(out@, more@);
        }
        out.append(&mut more);
        i = i + 1;
    }
    assert(s.comps@.take(s.comps@.len() as int) =~= s.comps@);
    out
}

/// The entry for definition `d`, or `None` when one of its instances is not registered.
fn served_def_args(s: &SystemState, d: &VirtResDef, dropped: &mut Vec<String>) -> (r: Option<ArgsKV>)
    requires
        s.wf(),
    ensures
        r is Some <==> all_registered(*s, d.resources@),
        r is Some ==> tree(r->Some_0) == served_def(*s, *d),
        r is Some ==> views(final(dropped)@) == views(old(dropped)@) + res_dropped(*s, d.resources@),
{
    let ghost d0 = views(dropped@);
    let rs = &d.resources;
    let mut out: Vec<ArgsKV> = Vec::new();
    let mut i: usize = 0;
    while i < rs.len()
        invariant
            s.wf(),
            rs == &d.resources,
            0 <= i <= rs@.len(),
            all_registered(*s, rs@.take(i as int)),
            forest(out@) == Seq::new(i as nat, |k: int| served_entry(*s, d.vr_type@, rs@[k])),
            views(dropped@) == d0 + res_dropped(*s, rs@.take(i as int)),
        decreases rs@.len() - i,
    {
        let r = &rs[i];
        let id = match s.vr_lookup(&r.instance) {
            Some(id) => id,
            None => {
                assert(!all_registered(*s, rs@)) by {
                    assert(s.vr_id(rs@[i as int].instance@) is None);
                }
                return None;
            },
        };
        let kv = ArgsKV::new_arr(
            String::from_str("sub_virt_resource"),
            vec![
                ArgsKV::new_key(String::from_str("id"), id.clone()),
                ArgsKV::new_arr(String::from_str("params"), sys_params(s, &r.param, dropped)),
                ArgsKV::new_arr(String::from_str("client"), vr_clients(s, &d.vr_type, &r.instance)),
            ],
        );
        proof {
            crate::initargs::lemma_forest_eq(
                kv.val->Arr_0@,
                served_entry(*s, d.vr_type@, *r)->Node_1,
            );
            lemma_forest_push(out@, kv);
        }
        out.push(kv);
        assert(forest(out@) =~= Seq::new((i + 1) as nat, |k: int| served_entry(*s, d.vr_type@, rs@[k])));
        assert(rs@.take(i + 1 as int).drop_last() =~= rs@.take(i as int));
        assert(views(dropped@) =~= d0 + res_dropped(*s, rs@.take(i + 1 as int)));
        assert(all_registered(*s, rs@.take(i + 1 as int))) by {
            assert forall|k: int| 0 <= k < i + 1 implies (#[trigger] s.vr_id(rs@.take(i + 1 as int)[k].instance@)) is Some by {
                if k < i {
                    assert(rs@.take(i + 1 as int)[k] == rs@.take(i as int)[k]);
                }
            }
        }
        i = i + 1;
    }
    assert(rs@.take(rs@.len() as int) =~= rs@);
    let kv = ArgsKV::new_arr(d.vr_type.clone(), out);
    Some(kv)
}

/// System-level virtual-resource configuration. On success it returns the
/// array-parameter references that the registry does not know, which are
/// dropped from the section and left for the caller to warn of.
pub fn sys_virt_res_config(s: &SystemState, id: ComponentId, cfg: &mut CompConfigState) -> (r: Result<Vec<String>, ConfigError>)
    requires
        s.wf(),
    ensures
        r is Err <==> sys_vr_err(*s, id) is Some,
        r is Err ==> sys_vr_err(*s, id) == Some(r->Err_0),
        r is Err ==> final(cfg).args@ == old(cfg).args@,
        r is Ok ==> views(r->Ok_0@) == sys_vr_dropped(*s, id),
        r is Ok ==> forest(final(cfg).args@) == forest(old(cfg).args@) + sys_vr_sections(*s, id),
        final(cfg).ct == old(cfg).ct,
{
    let comp = match s.component(id) {
        Some(c) => c,
        None => return Err(ConfigError::UnknownComponent(id)),
    };
    let defs = &s.virt_resources;
    let ghost server = comp.var_name@;
    let mut dropped: Vec<String> = Vec::new();
    let mut out: Vec<ArgsKV> = Vec::new();
    let mut i: usize = 0;
    while i < defs.len()
        invariant
            s.wf(),
            s.has(id),
            defs == &s.virt_resources,
            server == s.comp(id).var_name@,
            *comp == s.comp(id),
            0 <= i <= defs@.len(),
            served_registered(*s, defs@.take(i as int), server),
            forest(out@) == served_defs(*s, defs@.take(i as int), server),
            views(dropped@) == served_dropped(*s, defs@.take(i as int), server),
            cfg.args@ == old(cfg).args@,
        decreases defs@.len() - i,
    {
        let ghost t0 = defs@.take(i as int);
        let ghost t1 = defs@.take(i + 1 as int);
        assert(t1.drop_last() =~= t0);
        if defs[i].server == comp.var_name {
            match served_def_args(s, &defs[i], &mut dropped) {
                Some(kv) => {
                    proof {
                        lemma_forest_push(out@, kv);
                    }
                    out.push(kv);
                },
                None => {
                    assert(!served_registered(*s, defs@, server)) by {
                        assert(defs@[i as int].server@ == server);
                    }
                    return Err(ConfigError::UnknownVirtResInstance(id));
                },
            }
        }
        assert(views(dropped@) =~= served_dropped(*s, t1, server));
        assert(served_registered(*s, t1, server)) by {
            assert forall|k: int| 0 <= k < t1.len() && (#[trigger] t1[k]).server@ == server implies all_registered(*s, t1[k].resources@) by {
                if k < i {
                    assert(t1[k] == t0[k]);
                }
            }
        }
        i = i + 1;
    }
    assert(defs@.take(defs@.len() as int) =~= defs@);
    if out.len() > 0 {
        let kv = ArgsKV::new_arr(String::from_str("sys_virt_resources"), out);
        proof {
            lemma_forest_push(cfg.args@, kv);
        }
        cfg.args.push(kv);
        assert(forest(cfg.args@) =~= forest(old(cfg).args@) + sys_vr_sections(*s, id));
    } else {
        proof { crate::initargs::lemma_forest(out@); }
        assert(forest(cfg.args@) =~= forest(old(cfg).args@) + sys_vr_sections(*s, id));
    }
    Ok(dropped)
}

// ---------------------------------------------------------------------------
// Component-level virtual resources
// ---------------------------------------------------------------------------

/// The string items of an array parameter as flat keys `key_0`, `key_1`, ...,
/// each suffixed with its position in the array.
pub open spec fn indexed_params(key: Seq<char>, elems: Seq<ParamValue>) -> Seq<KvTree>
    decreases elems.len(),
{
    if elems.len() == 0 {
        Seq::empty()
    } else {
        indexed_params(key, elems.drop_last()) + match elems.last() {
            ParamValue::Str(x) => seq![
                KvTree::Leaf(key + "_"@ + dec((elems.len() - 1) as nat), x@),
            ],
            _ => Seq::empty(),
        }
    }
}

/// The parameters `ps` as flat entries.
pub open spec fn flat_params(ps: Seq<VrParam>) -> Seq<KvTree>
    decreases ps.len(),
{
    if ps.len() == 0 {
        Seq::empty()
    } else {
        flat_params(ps.drop_last()) + match ps.last().value {
            ParamValue::Arr(elems) => indexed_params(ps.last().key@, elems@),
            ParamValue::Str(v) => seq![KvTree::Leaf(ps.last().key@, v@)],
            ParamValue::Other => Seq::empty(),
        }
    }
}

/// The flat parameters of the resources among `rs` named `inst`.
pub open spec fn inst_params(rs: Seq<VrResource>, inst: Seq<char>) -> Seq<KvTree>
    decreases rs.len(),
{
    if rs.len() == 0 {
        Seq::empty()
    } else {
        inst_params(rs.drop_last(), inst) + if rs.last().instance@ == inst {
            flat_params(rs.last().param@)
        } else {
            Seq::empty()
        }
    }
}

/// The first definition among `defs` of type `ty`.
pub open spec fn first_def(defs: Seq<VirtResDef>, ty: Seq<char>) -> Option<VirtResDef>
    decreases defs.len(),
{
    if defs.len() == 0 {
        None
    } else if defs[0].vr_type@ == ty {
        Some(defs[0])
    } else {
        first_def(defs.drop_first(), ty)
    }
}

/// The entry of one association.
pub open spec fn assoc_entry(s: SystemState, a: VrAssoc) -> KvTree {
    KvTree::Node(
        "_"@,
        seq![KvTree::Leaf("vr_type"@, a.vr_type@)] + match s.vr_id(a.instance@) {
            Some(i) => seq![KvTree::Leaf("inst_id"@, i)],
            None => Seq::empty(),
        },
    )
}

/// The configuration entries of one instance of type `ty` that a component declares.
pub open spec fn inst_config(s: SystemState, ty: Seq<char>, inst: VrInstance) -> Seq<KvTree> {
    (match inst.association {
        Some(a) => seq![
            KvTree::Node("association"@, Seq::new(a@.len(), |k: int| assoc_entry(s, a@[k]))),
        ],
        None => Seq::empty(),
    }) + (match s.vr_id(inst.instance@) {
        Some(i) => seq![KvTree::Leaf("id"@, i)],
        None => Seq::empty(),
    }) + (match first_def(s.virt_resources@, ty) {
        Some(d) => if inst_params(d.resources@, inst.instance@).len() > 0 {
            seq![KvTree::Node("param"@, inst_params(d.resources@, inst.instance@))]
        } else {
            Seq::empty()
        },
        None => Seq::empty(),
    }) + seq![
        KvTree::Node(
            "access_list"@,
            Seq::new(inst.access@.len(), |k: int| KvTree::Leaf("access"@, inst.access@[k]@)),
        ),
        KvTree::Leaf("name"@, inst.name@),
    ]
}

/// The entry of one virtual-resource type that a component declares.
pub open spec fn comp_vr_entry(s: SystemState, vr: CompVirtRes) -> KvTree {
    KvTree::Node(
        vr.vr_type@,
        Seq::new(
            vr.instances@.len(),
            |k: int|
                KvTree::Node(
                    vr.instances@[k].instance@,
                    inst_config(s, vr.vr_type@, vr.instances@[k]),
                ),
        ),
    )
}

/// The sections that the component-level configuration adds for `id`: none
/// when it declares no virtual resource.
pub open spec fn comp_vr_sections(s: SystemState, id: ComponentId) -> Seq<KvTree> {
    let vrs = s.comp(id).virt_res@;
    if vrs.len() == 0 {
        Seq::empty()
    } else {
        seq![
            KvTree::Node("comp_virt_resources"@, Seq::new(vrs.len(), |k: int| comp_vr_entry(s, vrs[k]))),
        ]
    }
}

fn indexed_params_args(key: &String, elems: &Vec<ParamValue>) -> (r: Vec<ArgsKV>)
    ensures
        forest(r@) == indexed_params(key@, elems@),
{
    let mut out: Vec<ArgsKV> = Vec::new();
    let mut i: usize = 0;
    while i < elems.len()
        invariant
            0 <= i <= elems@.len(),
            forest(out@) == indexed_params(key@, elems@.take(i as int)),
        decreases elems@.len() - i,
    {
        let ghost t1 = elems@.take(i + 1 as int);
        assert(t1.drop_last() =~= elems@.take(i as int));
        if let ParamValue::Str(x) = &elems[i] {
            let mut k = key.clone();
            k.append("_");
            let d = dec_string(i as u64);
            k.append(d.as_str());
            let kv = ArgsKV::new_key(k, x.clone());
            proof {
                lemma_forest_push(out@, kv);
            }
            out.push(kv);
        }
        assert(forest(out@) =~= indexed_params(key@, t1));
        i = i + 1;
    }
    assert(elems@.take(elems@.len() as int) =~= elems@);
    out
}

fn flat_params_args(ps: &Vec<VrParam>) -> (r: Vec<ArgsKV>)
    ensures
        forest(r@) == flat_params(ps@),
{
    let mut out: Vec<ArgsKV> = Vec::new();
    let mut i: usize = 0;
    while i < ps.len()
        invariant
            0 <= i <= ps@.len(),
            forest(out@) == flat_params(ps@.take(i as int)),
        decreases ps@.len() - i,
    {
        assert(ps@.take(i + 1 as int).drop_last() =~= ps@.take(i as int));
        match &ps[i].value {
            ParamValue::Arr(elems) => {
                let mut more = indexed_params_args(&ps[i].key, elems);
                proof {
                    lemma_forest_append(out@, more@);
                }
                out.append(&mut more);
            },
            ParamValue::Str(v) => {
                let kv = ArgsKV::new_key(ps[i].key.clone(), v.clone());
                proof {
                    lemma_forest_push(out@, kv);
                }
                out.push(kv);
            },
            ParamValue::Other => {},
        }
        assert(forest(out@) =~= flat_params(ps@.take(i + 1 as int)));
        i = i + 1;
    }
    assert(ps@.take(ps@.len() as int) =~= ps@);
    out
}

fn inst_params_args(rs: &Vec<VrResource>, inst: &String) -> (r: Vec<ArgsKV>)
    ensures
        forest(r@) == inst_params(rs@, inst@),
{
    let mut out: Vec<ArgsKV> = Vec::new();
    let mut i: usize = 0;
    while i < rs.len()
        invariant
            0 <= i <= rs@.len(),
            forest(out@) == inst_params(rs@.take(i as int), inst@),
        decreases rs@.len() - i,
    {
        assert(rs@.take(i + 1 as int).drop_last() =~= rs@.take(i as int));
        if rs[i].instance == *inst {
            let mut more = flat_params_args(&rs[i].param);
            proof {
                lemma_forest_append(out@, more@);
            }
            out.append(&mut more);
        }
        assert(forest(out@) =~= inst_params(rs@.take(i + 1 as int), inst@));
        i = i + 1;
    }
    assert(rs@.take(rs@.len() as int) =~= rs@);
    out
}

fn find_def<'a>(defs: &'a Vec<VirtResDef>, ty: &String) -> (r: Option<&'a VirtResDef>)
    ensures
        r is Some <==> first_def(defs@, ty@) is Some,
        r is Some ==> *r->Some_0 == first_def(defs@, ty@)->Some_0,
{
    let mut i: usize = 0;
    assert(defs@.skip(0) =~= defs@);
    while i < defs.len()
        invariant
            0 <= i <= defs@.len(),
            first_def(defs@, ty@) == first_def(defs@.skip(i as int), ty@),
        decreases defs@.len() - i,
    {
        assert(defs@.skip(i as int)[0] == defs@[i as int]);
        if defs[i].vr_type == *ty {
            return Some(&defs[i]);
        }
        assert(defs@.skip(i as int).drop_first() =~= defs@.skip(i + 1 as int));
        i = i + 1;
    }
    assert(defs@.skip(i as int).len() == 0);
    None
}

fn assoc_args(s: &SystemState, assocs: &Vec<VrAssoc>) -> (r: Vec<ArgsKV>)
    requires
        s.wf(),
    ensures
        forest(r@) == Seq::new(assocs@.len(), |k: int| assoc_entry(*s, assocs@[k])),
{
    let mut out: Vec<ArgsKV> = Vec::new();
    let mut i: usize = 0;
    while i < assocs.len()
        invariant
            s.wf(),
            0 <= i <= assocs@.len(),
            forest(out@) == Seq::new(i as nat, |k: int| assoc_entry(*s, assocs@[k])),
        decreases assocs@.len() - i,
    {
        let a = &assocs[i];
        let mut m: Vec<ArgsKV> = Vec::new();
        let k1 = ArgsKV::new_key(String::from_str("vr_type"), a.vr_type.clone());
        proof {
            lemma_forest_push(m@, k1);
        }
        m.push(k1);
        if let Some(id) = s.vr_lookup(&a.instance) {
            let k2 = ArgsKV::new_key(String::from_str("inst_id"), id.clone());
            proof {
                lemma_forest_push(m@, k2);
            }
            m.push(k2);
        }
        assert(forest(m@) =~= assoc_entry(*s, *a)->Node_1);
        let kv = ArgsKV::new_arr(String::from_str("_"), m);
        proof {
            lemma_forest_push(out@, kv);
        }
        out.push(kv);
        assert(forest(out@) =~= Seq::new((i + 1) as nat, |k: int| assoc_entry(*s, assocs@[k])));
        i = i + 1;
    }
    out
}

fn inst_config_args(s: &SystemState, ty: &String, inst: &VrInstance) -> (r: Vec<ArgsKV>)
    requires
        s.wf(),
    ensures
        forest(r@) == inst_config(*s, ty@, *inst),
{
    let mut out: Vec<ArgsKV> = Vec::new();
    if let Some(assocs) = &inst.association {
        let kv = ArgsKV::new_arr(String::from_str("association"), assoc_args(s, assocs));
        proof {
            lemma_forest_push(out@, kv);
        }
        out.push(kv);
    }
    if let Some(id) = s.vr_lookup(&inst.instance) {
        let kv = ArgsKV::new_key(String::from_str("id"), id.clone());
        proof {
            lemma_forest_push(out@, kv);
        }
        out.push(kv);
    }
    if let Some(d) = find_def(&s.virt_resources, ty) {
        let p = inst_params_args(&d.resources, &inst.instance);
        if p.len() > 0 {
            let kv = ArgsKV::new_arr(String::from_str("param"), p);
            proof {
                lemma_forest_push(out@, kv);
            }
            out.push(kv);
        } else {
            proof {
                crate::initargs::lemma_forest(p@);
            }
        }
    }
    let mut access: Vec<ArgsKV> = Vec::new();
    let mut i: usize = 0;
    while i < inst.access.len()
        invariant
            0 <= i <= inst.access@.len(),
            forest(access@) == Seq::new(i as nat, |k: int| KvTree::Leaf("access"@, inst.access@[k]@)),
        decreases inst.access@.len() - i,
    {
        let kv = ArgsKV::new_key(String::from_str("access"), inst.access[i].clone());
        proof {
            lemma_forest_push(access@, kv);
        }
        access.push(kv);
        assert(forest(access@) =~= Seq::new((i + 1) as nat, |k: int| KvTree::Leaf("access"@, inst.access@[k]@)));
        i = i + 1;
    }
    let k1 = ArgsKV::new_arr(String::from_str("access_list"), access);
    proof {
        lemma_forest_push(out@, k1);
    }
    out.push(k1);
    let k2 = ArgsKV::new_key(String::from_str("name"), inst.name.clone());
    proof {
        lemma_forest_push(out@, k2);
    }
    out.push(k2);
    assert(forest(out@) =~= inst_config(*s, ty@, *inst));
    out
}

/* component level virtual resource process */
pub fn comp_virt_res_config(s: &SystemState, id: ComponentId, cfg: &mut CompConfigState) -> (r: Result<(), ConfigError>)
    requires
        s.wf(),
    ensures
        r is Err <==> !s.has(id),
        r is Err ==> r->Err_0 == ConfigError::UnknownComponent(id),
        r is Err ==> final(cfg).args@ == old(cfg).args@,
        r is Ok ==> forest(final(cfg).args@) == forest(old(cfg).args@) + comp_vr_sections(*s, id),
        final(cfg).ct == old(cfg).ct,
{
    let c = match s.component(id) {
        Some(c) => c,
        None => return Err(ConfigError::UnknownComponent(id)),
    };
    let vrs = &c.virt_res;
    let mut vr_args: Vec<ArgsKV> = Vec::new();
    let mut i: usize = 0;
    while i < vrs.len()
        invariant
            s.wf(),
            vrs == &c.virt_res,
            0 <= i <= vrs@.len(),
            forest(vr_args@) == Seq::new(i as nat, |k: int| comp_vr_entry(*s, vrs@[k])),
        decreases vrs@.len() - i,
    {
        let vr = &vrs[i];
        let insts = &vr.instances;
        let mut inst_args: Vec<ArgsKV> = Vec::new();
        let mut j: usize = 0;
        while j < insts.len()
            invariant
                s.wf(),
                insts == &vr.instances,
                0 <= j <= insts@.len(),
                forest(inst_args@) == Seq::new(
                    j as nat,
                    |k: int| KvTree::Node(insts@[k].instance@, inst_config(*s, vr.vr_type@, insts@[k])),
                ),
            decreases insts@.len() - j,
        {
            let kv = ArgsKV::new_arr(insts[j].instance.clone(), inst_config_args(s, &vr.vr_type, &insts[j]));
            proof {
                lemma_forest_push(inst_args@, kv);
            }
            inst_args.push(kv);
            assert(forest(inst_args@) =~= Seq::new(
                (j + 1) as nat,
                |k: int| KvTree::Node(insts@[k].instance@, inst_config(*s, vr.vr_type@, insts@[k])),
            ));
            j = j + 1;
        }
        let kv = ArgsKV::new_arr(vr.vr_type.clone(), inst_args);
        assert(tree(kv) == comp_vr_entry(*s, *vr)) by {
            assert(forest(inst_args@) =~= comp_vr_entry(*s, *vr)->Node_1);
        }
        proof {
            lemma_forest_push(vr_args@, kv);
        }
        vr_args.push(kv);
        assert(forest(vr_args@) =~= Seq::new((i + 1) as nat, |k: int| comp_vr_entry(*s, vrs@[k])));
        i = i + 1;
    }
    if vr_args.len() > 0 {
        let kv = ArgsKV::new_arr(String::from_str("comp_virt_resources"), vr_args);
        proof {
            lemma_forest_push(cfg.args@, kv);
        }
        cfg.args.push(kv);
    }
    assert(forest(cfg.args@) =~= forest(old(cfg).args@) + comp_vr_sections(*s, id));
    Ok(())
}

} // verus!
