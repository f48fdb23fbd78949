use vstd::prelude::*;

verus! {

/// The id of a component instance; its canonical text is its decimal form.
pub type ComponentId = usize;

/// What the system declares of one service kind for one component.
pub struct ServiceInfo {
    /// The component provides this service.
    pub provides: bool,
    /// The components that depend on it for this service.
    pub clients: Option<Vec<ComponentId>>,
    /// The component it depends on for this service.
    pub dependency: Option<ComponentId>,
}

/// A virtual-resource parameter value: a string, an array, or anything else.
pub enum ParamValue {
    Str(String),
    Arr(Vec<ParamValue>),
    Other,
}

/// One named parameter of a virtual-resource instance.
pub struct VrParam {
    pub key: String,
    pub value: ParamValue,
}

/// One instance of a system-level virtual-resource definition.
pub struct VrResource {
    pub instance: String,
    pub param: Vec<VrParam>,
}

/// A system-level virtual-resource definition, served by one component.
pub struct VirtResDef {
    /// The variable name of the serving component.
    pub server: String,
    pub vr_type: String,
    pub resources: Vec<VrResource>,
}

/// An association of a virtual-resource instance with an instance of another type.
pub struct VrAssoc {
    pub vr_type: String,
    pub instance: String,
}

/// How a component uses one virtual-resource instance.
pub struct VrInstance {
    pub instance: String,
    pub name: String,
    pub access: Vec<String>,
    pub association: Option<Vec<VrAssoc>>,
}

/// The instances of one virtual-resource type that a component declares.
pub struct CompVirtRes {
    pub vr_type: String,
    pub instances: Vec<VrInstance>,
}

/// A virtual-resource instance name and the id the registry gave it.
pub struct VrId {
    pub name: String,
    pub id: String,
}

/// What the system declares of one component.
pub struct Component {
    pub id: ComponentId,
    pub source: String,
    pub scope_name: String,
    pub var_name: String,
    pub virt_res: Vec<CompVirtRes>,
    pub scheduler: ServiceInfo,
    pub capmgr: ServiceInfo,
    pub constructor: ServiceInfo,
}

/// The read-only facts that the configuration pass consumes.
pub struct SystemState {
    /// Every component, in the canonical naming order.
    pub comps: Vec<Component>,
    /// The ids of the components of each shared address-space group.
    pub addrspc_shared: Vec<Vec<ComponentId>>,
    pub virt_resources: Vec<VirtResDef>,
    /// The virtual-resource instance registry.
    pub vr_ids: Vec<VrId>,
}

/// The service kinds that the pass reads.
#[derive(PartialEq, Eq, Structural, Clone, Copy, Debug)]
pub enum ServiceType {
    Scheduler,
    CapMgr,
    Constructor,
}

impl Component {
    pub open spec fn service(&self, t: ServiceType) -> &ServiceInfo {
        match t {
            ServiceType::Scheduler => &self.scheduler,
            ServiceType::CapMgr => &self.capmgr,
            ServiceType::Constructor => &self.constructor,
        }
    }

    pub fn get_service(&self, t: ServiceType) -> (r: &ServiceInfo)
        ensures
            r == self.service(t),
    {
        match t {
            ServiceType::Scheduler => &self.scheduler,
            ServiceType::CapMgr => &self.capmgr,
            ServiceType::Constructor => &self.constructor,
        }
    }
}

impl SystemState {
    /// Component ids are unique, and so are the registry's instance names.
    pub open spec fn wf(&self) -> bool {
        &&& forall|i: int, j: int|
            #![trigger self.comps@[i].id, self.comps@[j].id]
            0 <= i < self.comps@.len() && 0 <= j < self.comps@.len() && self.comps@[i].id
                == self.comps@[j].id ==> i == j
        &&& forall|i: int, j: int|
            #![trigger self.vr_ids@[i].name, self.vr_ids@[j].name]
            0 <= i < self.vr_ids@.len() && 0 <= j < self.vr_ids@.len() && self.vr_ids@[i].name@
                == self.vr_ids@[j].name@ ==> i == j
    }

    /// `id` names a component of the system.
    pub open spec fn has(&self, id: ComponentId) -> bool {
        exists|i: int| 0 <= i < self.comps@.len() && #[trigger] self.comps@[i].id == id
    }

    /// The component named `id`.
    pub open spec fn comp(&self, id: ComponentId) -> Component
        recommends
            self.has(id),
    {
        self.comps@[choose|i: int| 0 <= i < self.comps@.len() && #[trigger] self.comps@[i].id == id]
    }

    /// `id` is a known component providing service `t`.
    pub open spec fn is_a(&self, id: ComponentId, t: ServiceType) -> bool {
        self.has(id) && self.comp(id).service(t).provides
    }

    /// The components that depend on `id` for service `t`, empty when there are none.
    pub open spec fn clients(&self, id: ComponentId, t: ServiceType) -> Seq<ComponentId> {
        if self.has(id) && self.comp(id).service(t).clients is Some {
            self.comp(id).service(t).clients->Some_0@
        } else {
            Seq::empty()
        }
    }

    /// The id that the registry gives the instance `name`.
    pub open spec fn vr_id(&self, name: Seq<char>) -> Option<Seq<char>> {
        if exists|i: int| 0 <= i < self.vr_ids@.len() && #[trigger] self.vr_ids@[i].name@ == name {
            Some(
                self.vr_ids@[choose|i: int|
                    0 <= i < self.vr_ids@.len() && #[trigger] self.vr_ids@[i].name@ == name].id@,
            )
        } else {
            None
        }
    }

    /// Finds the component named `id`.
    pub fn component(&self, id: ComponentId) -> (r: Option<&Component>)
        requires
            self.wf(),
        ensures
            r is Some <==> self.has(id),
            r is Some ==> *r->Some_0 == self.comp(id),
    {
        let mut i: usize = 0;
        while i < self.comps.len()
            invariant
                self.wf(),
                0 <= i <= self.comps@.len(),
                forall|j: int| 0 <= j < i ==> #[trigger] self.comps@[j].id != id,
            decreases self.comps@.len() - i,
        {
            if self.comps[i].id == id {
                proof {
                    assert(self.has(id));
                    let k = choose|k: int| 0 <= k < self.comps@.len() && #[trigger] self.comps@[k].id == id;
                    assert(self.comps@[k].id == self.comps@[i as int].id);
                }
                return Some(&self.comps[i]);
            }
            i = i + 1;
        }
        None
    }

    /// Whether `id` is a known component providing service `t`.
    pub fn service_is_a(&self, id: ComponentId, t: ServiceType) -> (r: bool)
        requires
            self.wf(),
        ensures
            r == self.is_a(id, t),
    {
        match self.component(id) {
            Some(c) => c.get_service(t).provides,
            None => false,
        }
    }

    /// The clients of `id` for service `t`.
    pub fn service_clients(&self, id: ComponentId, t: ServiceType) -> (r: &[ComponentId])
        requires
            self.wf(),
        ensures
            r@ == self.clients(id, t),
    {
        match self.component(id) {
            Some(c) => match &c.get_service(t).clients {
                Some(cs) => cs.as_slice(),
                None => &[],
            },
            None => &[],
        }
    }

    /// The component that `id` depends on for service `t`.
    pub fn service_dependency(&self, id: ComponentId, t: ServiceType) -> (r: Option<ComponentId>)
        requires
            self.wf(),
        ensures
            self.has(id) ==> r == self.comp(id).service(t).dependency,
            !self.has(id) ==> r is None,
    {
        match self.component(id) {
            Some(c) => c.get_service(t).dependency,
            None => None,
        }
    }

    /// Looks up the id that the registry gives the instance `name`.
    pub fn vr_lookup(&self, name: &String) -> (r: Option<&String>)
        requires
            self.wf(),
        ensures
            r is Some <==> self.vr_id(name@) is Some,
            r is Some ==> r->Some_0@ == self.vr_id(name@)->Some_0,
    {
        let mut i: usize = 0;
        while i < self.vr_ids.len()
            invariant
                self.wf(),
                0 <= i <= self.vr_ids@.len(),
                forall|j: int| 0 <= j < i ==> #[trigger] self.vr_ids@[j].name@ != name@,
            decreases self.vr_ids@.len() - i,
        {
            if self.vr_ids[i].name == *name {
                proof {
                    assert(self.vr_ids@[i as int].name@ == name@);
                    let k = choose|k: int|
                        0 <= k < self.vr_ids@.len() && #[trigger] self.vr_ids@[k].name@ == name@;
                    assert(self.vr_ids@[k].name@ == self.vr_ids@[i as int].name@);
                }
                return Some(&self.vr_ids[i].id);
            }
            i = i + 1;
        }
        None
    }
}

impl SystemState {
    /// Whether component ids and registry names are unique, as the pass requires.
    pub fn check_wf(&self) -> (r: bool)
        ensures
            r == self.wf(),
    {
        let n = self.comps.len();
        let mut i: usize = 0;
        while i < n
            invariant
                n == self.comps@.len(),
                0 <= i <= n,
                forall|a: int, b: int|
                    #![trigger self.comps@[a].id, self.comps@[b].id]
                    0 <= a < i && 0 <= b < n && self.comps@[a].id == self.comps@[b].id ==> a == b,
            decreases n - i,
        {
            let mut j: usize = 0;
            while j < n
                invariant
                    n == self.comps@.len(),
                    0 <= i < n,
                    0 <= j <= n,
                    forall|a: int, b: int|
                        #![trigger self.comps@[a].id, self.comps@[b].id]
                        0 <= a < i && 0 <= b < n && self.comps@[a].id == self.comps@[b].id ==> a == b,
                    forall|b: int| 0 <= b < j && #[trigger] self.comps@[b].id == self.comps@[i as int].id ==> b == i,
                decreases n - j,
            {
                if j != i && self.comps[j].id == self.comps[i].id {
                    return false;
                }
                j = j + 1;
            }
            i = i + 1;
        }
        let m = self.vr_ids.len();
        let mut i: usize = 0;
        while i < m
            invariant
                n == self.comps@.len(),
                m == self.vr_ids@.len(),
                0 <= i <= m,
                forall|a: int, b: int|
                    #![trigger self.comps@[a].id, self.comps@[b].id]
                    0 <= a < n && 0 <= b < n && self.comps@[a].id == self.comps@[b].id ==> a == b,
                forall|a: int, b: int|
                    #![trigger self.vr_ids@[a].name, self.vr_ids@[b].name]
                    0 <= a < i && 0 <= b < m && self.vr_ids@[a].name@ == self.vr_ids@[b].name@ ==> a == b,
            decreases m - i,
        {
            let mut j: usize = 0;
            while j < m
                invariant
                    m == self.vr_ids@.len(),
                    0 <= i < m,
                    0 <= j <= m,
                    forall|a: int, b: int|
                        #![trigger self.vr_ids@[a].name, self.vr_ids@[b].name]
                        0 <= a < i && 0 <= b < m && self.vr_ids@[a].name@ == self.vr_ids@[b].name@ ==> a == b,
                    forall|b: int|
                        0 <= b < j && #[trigger] self.vr_ids@[b].name@ == self.vr_ids@[i as int].name@ ==> b == i,
                decreases m - j,
            {
                if j != i && self.vr_ids[j].name == self.vr_ids[i].name {
                    return false;
                }
                j = j + 1;
            }
            i = i + 1;
        }
        true
    }
}

} // verus!
