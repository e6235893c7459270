//! The runtime state: services with their variables, definitions and
//! dependency analysis, held by a manager.
use vstd::prelude::*;
use crate::ast::{ActionStmt, EnvV, Expr, ExprV, StmtV, Value, ValueV, env_view, expr_view, names_view, stmts_view, value_view};
use crate::scope::{last_index, lemma_last_index_none, lemma_last_index_unique};

verus! {

/// The dependency analysis of a service: the definitions in the order in
/// which they are recomputed, and for each definition the names of the
/// declarations it depends on, directly or through other definitions.
pub struct DependAnalysis {
    pub topo_order: Vec<String>,
    pub dep_vars: Vec<(String, Vec<String>)>,
}

/// A service: its variables (and the current values of its definitions),
/// the expressions of its definitions, and their dependencies.
pub struct Service {
    pub name: String,
    pub vars: Vec<(String, Value)>,
    pub defs: Vec<(String, Expr)>,
    pub dep: DependAnalysis,
}

/// An action to be run by a service that lives elsewhere.
pub struct RemoteAction {
    pub service: String,
    pub stmts: Vec<ActionStmt>,
    pub env: Vec<(String, Value)>,
}

/// The services of a program; the services that live elsewhere (by name
/// and address); the answers received for members of those services (by
/// service, member and value); and the actions waiting to be sent to them.
/// Whoever holds the network connection fills the answers and empties the
/// outbox.
pub struct Manager {
    pub services: Vec<Service>,
    pub remote_services: Vec<(String, String)>,
    pub remote_answers: Vec<(String, String, Value)>,
    pub outbox: Vec<RemoteAction>,
}

pub struct RemoteActionV {
    pub service: Seq<char>,
    pub stmts: Seq<StmtV>,
    pub env: EnvV,
}

pub struct DependV {
    pub topo_order: Seq<Seq<char>>,
    pub dep_vars: Seq<(Seq<char>, Set<Seq<char>>)>,
}

pub struct ServiceV {
    pub name: Seq<char>,
    pub vars: EnvV,
    pub defs: Seq<(Seq<char>, ExprV)>,
    pub dep: DependV,
}

pub struct ManagerV {
    pub services: Seq<ServiceV>,
    pub remote_services: Seq<(Seq<char>, Seq<char>)>,
    pub remote_answers: Seq<(Seq<char>, Seq<char>, ValueV)>,
    pub outbox: Seq<RemoteActionV>,
}

pub open spec fn answers_view(a: Seq<(String, String, Value)>) -> Seq<(Seq<char>, Seq<char>, ValueV)> {
    Seq::new(a.len(), |i: int| (a[i].0@, a[i].1@, value_view(a[i].2)))
}

impl View for RemoteAction {
    type V = RemoteActionV;

    open spec fn view(&self) -> RemoteActionV {
        RemoteActionV { service: self.service@, stmts: stmts_view(self.stmts@), env: env_view(self.env@) }
    }
}

pub open spec fn outbox_view(o: Seq<RemoteAction>) -> Seq<RemoteActionV> {
    Seq::new(o.len(), |i: int| o[i]@)
}

/// The answer received for `member` of the remote `service`: the last one wins.
pub open spec fn remote_answer(a: Seq<(Seq<char>, Seq<char>, ValueV)>, service: Seq<char>, member: Seq<char>) -> Option<ValueV>
    decreases a.len(),
{
    if a.len() == 0 {
        None
    } else if a.last().0 == service && a.last().1 == member {
        Some(a.last().2)
    } else {
        remote_answer(a.drop_last(), service, member)
    }
}

/// The answer received for `member` of the remote `service`, copied.
pub fn find_remote_answer(a: &Vec<(String, String, Value)>, service: &String, member: &String) -> (r: Option<Value>)
    ensures
        match r {
            Some(v) => remote_answer(answers_view(a@), service@, member@) == Some(v@),
            None => remote_answer(answers_view(a@), service@, member@) is None,
        },
{
    let ghost av = answers_view(a@);
    let mut i: usize = a.len();
    assert(av.take(a@.len() as int) =~= av);
    while i > 0
        invariant
            i <= a@.len(),
            av == answers_view(a@),
            remote_answer(av, service@, member@) == remote_answer(av.take(i as int), service@, member@),
        decreases i,
    {
        assert(av.take(i as int).drop_last() =~= av.take(i - 1));
        if a[i - 1].0 == *service && a[i - 1].1 == *member {
            return Some(a[i - 1].2.duplicate());
        }
        i = i - 1;
    }
    None
}

pub open spec fn deps_view(d: Seq<(String, Vec<String>)>) -> Seq<(Seq<char>, Set<Seq<char>>)> {
    Seq::new(d.len(), |i: int| (d[i].0@, names_view(d[i].1@).to_set()))
}

pub open spec fn defs_view(d: Seq<(String, Expr)>) -> Seq<(Seq<char>, ExprV)> {
    Seq::new(d.len(), |i: int| (d[i].0@, expr_view(d[i].1)))
}

pub open spec fn pairs_view(d: Seq<(String, String)>) -> Seq<(Seq<char>, Seq<char>)> {
    Seq::new(d.len(), |i: int| (d[i].0@, d[i].1@))
}

impl View for DependAnalysis {
    type V = DependV;

    open spec fn view(&self) -> DependV {
        DependV { topo_order: names_view(self.topo_order@), dep_vars: deps_view(self.dep_vars@) }
    }
}

impl View for Service {
    type V = ServiceV;

    open spec fn view(&self) -> ServiceV {
        ServiceV {
            name: self.name@,
            vars: env_view(self.vars@),
            defs: defs_view(self.defs@),
            dep: self.dep@,
        }
    }
}

pub open spec fn services_view(s: Seq<Service>) -> Seq<ServiceV> {
    Seq::new(s.len(), |i: int| s[i]@)
}

impl View for Manager {
    type V = ManagerV;

    open spec fn view(&self) -> ManagerV {
        ManagerV {
            services: services_view(self.services@),
            remote_services: pairs_view(self.remote_services@),
            remote_answers: answers_view(self.remote_answers@),
            outbox: outbox_view(self.outbox@),
        }
    }
}

/// The names of the services.
pub open spec fn service_names(s: Seq<ServiceV>) -> Seq<Seq<char>> {
    Seq::new(s.len(), |i: int| s[i].name)
}

/// The service called `name`.
pub open spec fn service_named(m: ManagerV, name: Seq<char>) -> Option<ServiceV> {
    let i = last_index(service_names(m.services), name);
    if i >= 0 {
        Some(m.services[i])
    } else {
        None
    }
}

/// `m` with `s` in place of the service of the same name, or with `s` added.
pub open spec fn put_service(m: ManagerV, s: ServiceV) -> ManagerV {
    let i = last_index(service_names(m.services), s.name);
    ManagerV {
        services: if i >= 0 { m.services.update(i, s) } else { m.services.push(s) },
        ..m
    }
}

/// Whether the service called `name` is one that lives elsewhere.
pub open spec fn is_remote(m: ManagerV, name: Seq<char>) -> bool {
    names_a_pair(m.remote_services, name)
}

/// Whether some pair of `s` has `name` as its first component.
pub open spec fn names_a_pair(s: Seq<(Seq<char>, Seq<char>)>, name: Seq<char>) -> bool {
    exists|i: int| #![trigger s[i]] 0 <= i < s.len() && s[i].0 == name
}

/// The empty manager.
pub open spec fn empty_manager() -> ManagerV {
    ManagerV { services: Seq::empty(), remote_services: Seq::empty(), remote_answers: Seq::empty(), outbox: Seq::empty() }
}

/// The position of the service called `name`.
pub fn find_service(services: &Vec<Service>, name: &String) -> (r: Option<usize>)
    ensures
        match r {
            Some(i) => i < services@.len() && i as int == last_index(service_names(services_view(services@)), name@)
                && services@[i as int].name@ == name@,
            None => last_index(service_names(services_view(services@)), name@) == -1,
        },
{
    let ghost names = service_names(services_view(services@));
    let mut i: usize = services.len();
    while i > 0
        invariant
            i <= services@.len(),
            names.len() == services@.len(),
            names == service_names(services_view(services@)),
            forall|j: int| i <= j < services@.len() ==> names[j] != name@,
        decreases i,
    {
        if services[i - 1].name == *name {
            proof {
                lemma_last_index_unique(names, name@, i - 1);
            }
            return Some(i - 1);
        }
        i = i - 1;
    }
    proof {
        lemma_last_index_none(names, name@);
    }
    None
}

/// Whether the service called `name` lives elsewhere.
pub fn remote_contains(remote: &Vec<(String, String)>, name: &String) -> (r: bool)
    ensures
        r == names_a_pair(pairs_view(remote@), name@),
{
    let ghost pv = pairs_view(remote@);
    let mut i: usize = 0;
    while i < remote.len()
        invariant
            i <= remote@.len(),
            pv == pairs_view(remote@),
            forall|j: int| 0 <= j < i ==> #[trigger] pv[j].0 != name@,
        decreases remote@.len() - i,
    {
        if remote[i].0 == *name {
            assert(pv[i as int].0 == name@);
            return true;
        }
        i = i + 1;
    }
    false
}

impl Manager {
    /// A manager with no services.
    pub fn new() -> (m: Manager)
        ensures
            m@ == empty_manager(),
    {
        let m = Manager { services: Vec::new(), remote_services: Vec::new(), remote_answers: Vec::new(), outbox: Vec::new() };
        assert(m@.services =~= Seq::<ServiceV>::empty());
        assert(m@.remote_services =~= Seq::<(Seq<char>, Seq<char>)>::empty());
        assert(m@.remote_answers =~= Seq::<(Seq<char>, Seq<char>, ValueV)>::empty());
        assert(m@.outbox =~= Seq::<RemoteActionV>::empty());
        m
    }
}

impl Manager {
    /// Records the answer received for `member` of the remote `service`.
    pub fn record_remote_answer(&mut self, service: String, member: String, value: Value)
        ensures
            final(self)@ == (ManagerV {
                remote_answers: old(self)@.remote_answers.push((service@, member@, value@)),
                ..old(self)@
            }),
    {
        let ghost m0 = self@;
        let ghost e = (service@, member@, value@);
        self.remote_answers.push((service, member, value));
        assert(self@.remote_answers =~= m0.remote_answers.push(e));
        assert(self@.services =~= m0.services);
        assert(self@.remote_services =~= m0.remote_services);
        assert(self@.outbox =~= m0.outbox);
    }
}

impl Default for Manager {
    fn default() -> (m: Manager)
        ensures
            m@ == empty_manager(),
    {
        Manager::new()
    }
}

} // verus!
