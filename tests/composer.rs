use composer::initargs::{dec_string, merge_params, ArgsKV, ArgsValType, Parameters, VarNamespace};
use composer::pass::{comp_config, ResAssignPass};
use composer::resources::{
    cap2kvarg, cap_info, cap_sz, sched_config_clients, CapRes, CaptblState, CompConfigState,
    ConfigError,
};
use composer::system::{
    CompVirtRes, Component, ComponentId, ParamValue, ServiceInfo, SystemState, VirtResDef, VrAssoc,
    VrId, VrInstance, VrParam, VrResource,
};

fn s(x: &str) -> String {
    x.to_string()
}

fn no_service() -> ServiceInfo {
    ServiceInfo { provides: false, clients: None, dependency: None }
}

fn provides(clients: Vec<ComponentId>) -> ServiceInfo {
    ServiceInfo { provides: true, clients: Some(clients), dependency: None }
}

fn depends(on: ComponentId) -> ServiceInfo {
    ServiceInfo { provides: false, clients: None, dependency: Some(on) }
}

fn comp(id: ComponentId, name: &str) -> Component {
    Component {
        id,
        source: s("pkg"),
        scope_name: s("global"),
        var_name: s(name),
        virt_res: Vec::new(),
        scheduler: no_service(),
        capmgr: no_service(),
        constructor: no_service(),
    }
}

fn system(comps: Vec<Component>) -> SystemState {
    SystemState { comps, addrspc_shared: Vec::new(), virt_resources: Vec::new(), vr_ids: Vec::new() }
}

/// A compact rendering of a tree: `k=v` for a leaf, `k[..]` for an array.
fn show(kv: &ArgsKV) -> String {
    match &kv.val {
        ArgsValType::Str(v) => format!("{}={}", kv.key, v),
        ArgsValType::Arr(kids) => {
            let inner: Vec<String> = kids.iter().map(show).collect();
            format!("{}[{}]", kv.key, inner.join(","))
        }
    }
}

fn show_all(kvs: &Vec<ArgsKV>) -> Vec<String> {
    kvs.iter().map(show).collect()
}

fn leaf(k: &str, v: &str) -> ArgsKV {
    ArgsKV::new_key(s(k), s(v))
}

fn root_line() -> &'static str {
    "struct initargs __initargs_root = { type: ARGS_IMPL_KV, d: { kv_ent: &__initargs_autogen_0 } };"
}

#[test]
fn decimal_rendering() {
    assert_eq!(dec_string(0), "0");
    assert_eq!(dec_string(7), "7");
    assert_eq!(dec_string(10), "10");
    assert_eq!(dec_string(1234), "1234");
    assert_eq!(dec_string(u64::MAX), u64::MAX.to_string());
}

#[test]
fn namespace_mints_fresh_names() {
    let mut ns = VarNamespace::new();
    assert_eq!(ns.fresh_name(), "__initargs_autogen_0");
    assert_eq!(ns.fresh_name(), "__initargs_autogen_1");
    assert_eq!(ns.id, 2);
}

#[test]
fn serialize_single_leaf() {
    let t = leaf("k", "v");
    let expected = format!(
        "#include <initargs.h>\nstatic struct kv_entry __initargs_autogen_0 = {{ key: \"k\", vtype: VTYPE_STR, val: {{ str: \"v\" }} }};\n\n{}",
        root_line()
    );
    assert_eq!(t.serialize(), expected);
}

#[test]
fn serialize_keeps_child_order() {
    let t = ArgsKV::new_top(vec![leaf("a", "1"), leaf("b", "2"), leaf("c", "3")]);
    let expected = format!(
        "#include <initargs.h>\n\
static struct kv_entry __initargs_autogen_2 = {{ key: \"a\", vtype: VTYPE_STR, val: {{ str: \"1\" }} }};\n\
static struct kv_entry __initargs_autogen_3 = {{ key: \"b\", vtype: VTYPE_STR, val: {{ str: \"2\" }} }};\n\
static struct kv_entry __initargs_autogen_4 = {{ key: \"c\", vtype: VTYPE_STR, val: {{ str: \"3\" }} }};\n\
static struct kv_entry *__initargs_autogen_1[] = {{&__initargs_autogen_2, &__initargs_autogen_3, &__initargs_autogen_4}};\n\
static struct kv_entry __initargs_autogen_0 = {{ key: \"_\", vtype: VTYPE_ARR, val: {{ arr: {{ sz: 3, kvs: __initargs_autogen_1 }} }} }};\n\n{}",
        root_line()
    );
    assert_eq!(t.serialize(), expected);
}

#[test]
fn serialize_empty_array() {
    let t = ArgsKV::new_top(Vec::new());
    let expected = format!(
        "#include <initargs.h>\n\
static struct kv_entry *__initargs_autogen_1[] = {{}};\n\
static struct kv_entry __initargs_autogen_0 = {{ key: \"_\", vtype: VTYPE_ARR, val: {{ arr: {{ sz: 0, kvs: __initargs_autogen_1 }} }} }};\n\n{}",
        root_line()
    );
    assert_eq!(t.serialize(), expected);
}

#[test]
fn serialize_nested_declares_before_use() {
    let t = ArgsKV::new_top(vec![
        ArgsKV::new_arr(s("inner"), vec![leaf("x", "y")]),
        leaf("z", "w"),
    ]);
    let out = t.serialize();
    // every symbol is declared once, before any list that refers to it
    for n in 0..6 {
        let decl_a = format!("kv_entry __initargs_autogen_{} =", n);
        let decl_b = format!("kv_entry *__initargs_autogen_{}[]", n);
        let count = out.matches(&decl_a).count() + out.matches(&decl_b).count();
        assert_eq!(count, 1, "symbol {}", n);
    }
    let pos_x = out.find("__initargs_autogen_4 =").unwrap();
    let pos_inner_list = out.find("*__initargs_autogen_3[]").unwrap();
    assert!(pos_x < pos_inner_list);
    assert!(out.contains("{&__initargs_autogen_2, &__initargs_autogen_5}"));
    assert_eq!(t.symbol_count(), Some(6));
}

#[test]
fn serialize_is_deterministic() {
    let mk = || ArgsKV::new_top(vec![ArgsKV::new_arr(s("p"), vec![leaf("a", "b")]), leaf("c", "d")]);
    assert_eq!(mk().serialize(), mk().serialize());
    let t = mk();
    assert_eq!(t.serialize(), t.serialize());
}

#[test]
fn capability_sizes_and_names() {
    assert_eq!(cap_sz(&CapRes::CapTbl(1)), 4);
    assert_eq!(cap_sz(&CapRes::PgTbl(1)), 4);
    assert_eq!(cap_sz(&CapRes::Comp(1)), 4);
    assert_eq!(cap_info(&CapRes::CapTbl(3)), (s("captbl"), 3));
    assert_eq!(cap_info(&CapRes::PgTbl(4)), (s("pgtbl"), 4));
    assert_eq!(cap_info(&CapRes::Comp(5)), (s("comp"), 5));
    assert_eq!(show(&cap2kvarg(56, &CapRes::PgTbl(9))), "56[type=pgtbl,target=9]");
}

#[test]
fn allocator_packs_from_reserved_boundary() {
    let mut ct = CaptblState::new();
    assert_eq!(ct.get_frontier(), 52);
    ct.add(CapRes::CapTbl(1));
    ct.add(CapRes::PgTbl(1));
    ct.add(CapRes::Comp(1));
    let slots: Vec<u64> = ct.get_captbl().iter().map(|p| p.0).collect();
    assert_eq!(slots, vec![52, 56, 60]);
    assert_eq!(ct.get_frontier(), 64);
}

#[test]
fn allocator_rounds_up_on_class_change() {
    let mut ct = CaptblState { captbl: Vec::new(), frontier: 53, prev_sz: 1 };
    ct.add(CapRes::Comp(2));
    assert_eq!(ct.get_captbl()[0].0, 56);
    assert_eq!(ct.get_frontier(), 60);
    let mut same = CaptblState { captbl: Vec::new(), frontier: 53, prev_sz: 4 };
    same.add(CapRes::Comp(2));
    assert_eq!(same.get_captbl()[0].0, 53);
    assert_eq!(same.get_frontier(), 57);
}

fn capmgr_system() -> SystemState {
    let mut cm = comp(1, "cm");
    cm.capmgr = provides(vec![2, 3]);
    let mut a = comp(2, "a");
    a.capmgr = depends(1);
    let mut b = comp(3, "b");
    b.capmgr = depends(1);
    system(vec![cm, a, b])
}

#[test]
fn capmgr_end_to_end() {
    let sys = capmgr_system();
    let pass = ResAssignPass::transition(&sys).unwrap();
    assert_eq!(
        show_all(pass.args(1)),
        vec![
            s("scheduler_hierarchy[]"),
            s("init_hierarchy[]"),
            s("captbl[52[type=captbl,target=2],56[type=pgtbl,target=2],60[type=comp,target=2],64[type=captbl,target=3],68[type=pgtbl,target=3],72[type=comp,target=3]]"),
            s("names[2=pkg.global.a,3=pkg.global.b]"),
            s("addrspc_shared[]"),
            s("captbl_end=76"),
        ]
    );
    assert_eq!(show_all(pass.args(2)), vec![s("captbl_end=52")]);
}

#[test]
fn capmgr_clients_sorted_and_deduplicated() {
    let mut cm = comp(1, "cm");
    cm.capmgr = provides(vec![3, 2]);
    cm.scheduler = provides(vec![3]);
    let sys = system(vec![cm, comp(2, "a"), comp(3, "b")]);
    let out = comp_config(&sys, 1).unwrap().0;
    let names = show(&out[3]);
    assert_eq!(names, "names[2=pkg.global.a,3=pkg.global.b]");
}

#[test]
fn capmgr_scheduler_client_hierarchy() {
    let mut cm = comp(1, "cm");
    cm.capmgr = provides(vec![2]);
    let mut sch = comp(2, "sched");
    sch.scheduler = ServiceInfo { provides: true, clients: Some(vec![3, 4]), dependency: Some(1) };
    let sys = system(vec![cm, sch, comp(3, "x"), comp(4, "y")]);
    let out = comp_config(&sys, 1).unwrap().0;
    assert_eq!(show(&out[0]), "scheduler_hierarchy[2=1]");
    assert_eq!(show(&out[1]), "init_hierarchy[3=2,4=2]");
}

#[test]
fn capmgr_shared_address_spaces() {
    let mut sys = capmgr_system();
    sys.addrspc_shared = vec![vec![2, 3], vec![1]];
    let out = comp_config(&sys, 1).unwrap().0;
    assert_eq!(show(&out[4]), "addrspc_shared[_=2,_=3,_=1]");
}

#[test]
fn error_self_client() {
    let mut cm = comp(1, "cm");
    cm.capmgr = provides(vec![1]);
    let sys = system(vec![cm]);
    assert_eq!(comp_config(&sys, 1).unwrap_err(), ConfigError::SelfClient(1));
}

#[test]
fn error_nested_capmgr() {
    let mut cm = comp(1, "cm");
    cm.capmgr = provides(vec![2]);
    let mut cm2 = comp(2, "cm2");
    cm2.capmgr = provides(vec![]);
    let sys = system(vec![cm, cm2]);
    assert_eq!(comp_config(&sys, 1).unwrap_err(), ConfigError::NestedCapMgr(2));
    assert_eq!(ResAssignPass::transition(&sys).err(), Some(ConfigError::NestedCapMgr(2)));
}

#[test]
fn error_missing_scheduler_parent() {
    let mut cm = comp(1, "cm");
    cm.capmgr = provides(vec![2]);
    let mut sch = comp(2, "sched");
    sch.scheduler = provides(vec![]);
    let sys = system(vec![cm, sch]);
    assert_eq!(comp_config(&sys, 1).unwrap_err(), ConfigError::MissingSchedParent(2));
}

#[test]
fn error_unknown_client() {
    let mut cm = comp(1, "cm");
    cm.capmgr = provides(vec![9]);
    let sys = system(vec![cm]);
    assert_eq!(comp_config(&sys, 1).unwrap_err(), ConfigError::UnknownComponent(9));
}

#[test]
fn error_multiple_constructors() {
    let mut con = comp(1, "con");
    con.constructor = ServiceInfo { provides: true, clients: Some(vec![]), dependency: Some(2) };
    let sys = system(vec![con, comp(2, "other")]);
    assert_eq!(comp_config(&sys, 1).unwrap_err(), ConfigError::MultipleConstructors(1));
}

#[test]
fn error_unknown_component() {
    let sys = system(vec![comp(1, "a")]);
    assert_eq!(comp_config(&sys, 5).unwrap_err(), ConfigError::UnknownComponent(5));
}

#[test]
fn constructor_replicates_capmgr_table() {
    let mut con = comp(1, "con");
    con.constructor = provides(vec![2, 3, 4]);
    let mut cm = comp(2, "cm");
    cm.capmgr = provides(vec![3, 4]);
    let sys = system(vec![con, cm, comp(3, "a"), comp(4, "b")]);
    let pass = ResAssignPass::transition(&sys).unwrap();
    let con_out = show_all(pass.args(1));
    let cm_out = show_all(pass.args(2));
    let captbl = cm_out[2].strip_prefix("captbl").unwrap().to_string();
    assert_eq!(con_out[0], format!("captbl_delegations[2{}]", captbl));
    assert_eq!(con_out[1], "captbl_end=52");
}

#[test]
fn scheduler_executes_in_reverse_discovery_order() {
    let mut sch = comp(1, "sched");
    sch.scheduler = provides(vec![2, 3, 4]);
    let mut sub = comp(3, "sub");
    sub.scheduler = ServiceInfo { provides: true, clients: Some(vec![]), dependency: Some(1) };
    let sys = system(vec![sch, comp(2, "a"), sub, comp(4, "c")]);
    let out = comp_config(&sys, 1).unwrap().0;
    assert_eq!(show_all(&out), vec![s("execute[4=init,3=sched,2=init]"), s("captbl_end=52")]);
}

#[test]
fn non_scheduler_has_no_execute_section() {
    let sys = system(vec![comp(1, "a")]);
    let out = comp_config(&sys, 1).unwrap().0;
    assert_eq!(show_all(&out), vec![s("captbl_end=52")]);
}

fn vr_system() -> SystemState {
    let srv = comp(1, "shmem_srv");
    let mut user = comp(2, "user");
    user.virt_res = vec![CompVirtRes {
        vr_type: s("shm"),
        instances: vec![VrInstance {
            instance: s("region0"),
            name: s("buf"),
            access: vec![s("read"), s("write")],
            association: Some(vec![VrAssoc { vr_type: s("shm"), instance: s("region1") }]),
        }],
    }];
    let mut sys = system(vec![srv, user]);
    sys.virt_resources = vec![VirtResDef {
        server: s("shmem_srv"),
        vr_type: s("shm"),
        resources: vec![VrResource {
            instance: s("region0"),
            param: vec![
                VrParam { key: s("size"), value: ParamValue::Str(s("4096")) },
                VrParam {
                    key: s("peers"),
                    value: ParamValue::Arr(vec![
                        ParamValue::Str(s("region1")),
                        ParamValue::Str(s("missing")),
                        ParamValue::Other,
                    ]),
                },
            ],
        }],
    }];
    sys.vr_ids = vec![VrId { name: s("region0"), id: s("10") }, VrId { name: s("region1"), id: s("11") }];
    sys
}

#[test]
fn system_level_virtual_resources() {
    let sys = vr_system();
    let out = comp_config(&sys, 1).unwrap().0;
    assert_eq!(
        show(&out[0]),
        "sys_virt_resources[shm[sub_virt_resource[id=10,params[size=4096,sub_sub_virt_resource[id=11]],client[comp_id=2]]]]"
    );
}

#[test]
fn component_level_virtual_resources() {
    let sys = vr_system();
    let out = comp_config(&sys, 2).unwrap().0;
    assert_eq!(
        show(&out[0]),
        "comp_virt_resources[shm[region0[association[_[vr_type=shm,inst_id=11]],id=10,param[size=4096,peers_0=region1,peers_1=missing],access_list[access=read,access=write],name=buf]]]"
    );
}

#[test]
fn error_unregistered_instance() {
    let mut sys = vr_system();
    sys.vr_ids = vec![VrId { name: s("region1"), id: s("11") }];
    assert_eq!(comp_config(&sys, 1).unwrap_err(), ConfigError::UnknownVirtResInstance(1));
}

#[test]
fn no_virtual_resource_sections_without_declarations() {
    let sys = capmgr_system();
    let pass = ResAssignPass::transition(&sys).unwrap();
    for id in [1, 2, 3] {
        for line in show_all(pass.args(id)) {
            assert!(!line.starts_with("sys_virt_resources"));
            assert!(!line.starts_with("comp_virt_resources"));
        }
    }
}

#[test]
fn pass_twice_gives_identical_sources() {
    let sys = vr_system();
    let a = ResAssignPass::transition(&sys).unwrap();
    let b = ResAssignPass::transition(&sys).unwrap();
    for id in [1, 2] {
        let ta = ArgsKV::new_top(comp_config(&sys, id).unwrap().0).serialize();
        let tb = ArgsKV::new_top(comp_config(&sys, id).unwrap().0).serialize();
        assert_eq!(ta, tb);
        assert_eq!(show_all(a.args(id)), show_all(b.args(id)));
    }
}

#[test]
fn fresh_config_state() {
    let cfg = CompConfigState::new();
    assert!(cfg.args.is_empty());
    assert_eq!(cfg.ct.get_frontier(), 52);
}

#[test]
fn merged_parameters() {
    let args = merge_params(vec![leaf("p", "q")], vec![leaf("captbl_end", "52")], 7);
    assert_eq!(show_all(&args), vec![s("param[p=q]"), s("captbl_end=52"), s("compid=7")]);
    let (p, text) =
        Parameters::transition_iter(s("out/initargs.c"), vec![leaf("p", "q")], vec![], 7).unwrap();
    assert_eq!(p.param_prog(), "out/initargs.c");
    assert!(p.param_fs().is_none());
    assert_eq!(show_all(p.param_list()), vec![s("param[p=q]"), s("compid=7")]);
    assert_eq!(text, ArgsKV::new_top(merge_params(vec![leaf("p", "q")], vec![], 7)).serialize());
    assert!(text.contains("key: \"compid\", vtype: VTYPE_STR, val: { str: \"7\" }"));
}

#[test]
fn unresolved_references_are_reported() {
    let sys = vr_system();
    let (_, dropped) = comp_config(&sys, 1).unwrap();
    assert_eq!(dropped, vec![s("missing")]);
    let (_, none) = comp_config(&sys, 2).unwrap();
    assert!(none.is_empty());
    let pass = ResAssignPass::transition(&sys).unwrap();
    assert_eq!(pass.unresolved, vec![s("missing")]);
}

#[test]
fn non_scheduler_clients_give_no_execute_entries() {
    let mut c = comp(1, "plain");
    c.scheduler = ServiceInfo { provides: false, clients: Some(vec![2]), dependency: None };
    let sys = system(vec![c, comp(2, "a")]);
    assert!(sched_config_clients(&sys, 1).is_empty());
}

#[test]
fn well_formedness_check() {
    assert!(vr_system().check_wf());
    assert!(!system(vec![comp(1, "a"), comp(1, "b")]).check_wf());
    let mut dup = vr_system();
    dup.vr_ids.push(VrId { name: s("region0"), id: s("12") });
    assert!(!dup.check_wf());
}
