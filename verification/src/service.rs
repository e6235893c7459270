//! Creating services, reading their names, and assigning their variables.
use vstd::prelude::*;
use crate::ast::{Decl, Expr, ExprV, Value, ValueV, decls_view, env_view, names_view};
use crate::dependency::calc_dep_srv;
use crate::evaluator::{
    EVAL_FUEL, EvalError, eval_fuel, lookup_error_value, lookup_fuel, result_view,
};
use crate::manager::{
    Manager, ManagerV, Service, ServiceV, defs_view, deps_view, find_service,
    put_service, service_named, service_names, };
use crate::scope::{
    assoc_get, assoc_put, exec_keys, find_last, keys_of, last_index, lemma_env_keys,
    lemma_last_index, names_contain,
};
use crate::semantics::{
    eval_f, ErrV, StepOutcome, assign_f, build_f, create_f, depends_on, lookup_f, propagate_f,
    service_error, with_var,
};

verus! {

broadcast use {vstd::std_specs::vec::group_vec_axioms, vstd::string::to_string_from_display_ensures_for_str};

/// The model of a step's result and the manager after it.
pub open spec fn step_view(m: ManagerV, r: Option<Result<(), EvalError>>) -> StepOutcome {
    match r {
        Some(Ok(())) => Some((m, Ok(()))),
        Some(Err(e)) => Some((m, Err(e@))),
        None => None,
    }
}

/// The model of a unit result.
pub open spec fn unit_view(r: Result<(), EvalError>) -> Result<(), ErrV> {
    match r {
        Ok(()) => Ok(()),
        Err(e) => Err(e@),
    }
}

/// The order in which the definitions of service `svc` are recomputed.
pub open spec fn topo_of(m: ManagerV, svc: Seq<char>) -> Seq<Seq<char>> {
    match service_named(m, svc) {
        Some(s) => s.dep.topo_order,
        None => Seq::empty(),
    }
}

/// The service put in a manager is the one found under its name.
pub proof fn lemma_put_service_named(m: ManagerV, s: ServiceV)
    ensures
        service_named(put_service(m, s), s.name) == Some(s),
{
    let names = service_names(m.services);
    lemma_last_index(names, s.name);
    let i = last_index(names, s.name);
    let m2 = put_service(m, s);
    let names2 = service_names(m2.services);
    if i >= 0 {
        assert(names2 =~= names.update(i, s.name));
        crate::scope::lemma_last_index_unique(names2, s.name, i);
    } else {
        assert(names2 =~= names.push(s.name));
        crate::scope::lemma_last_index_unique(names2, s.name, names.len() as int);
    }
}

/// Binds `x` to `v` in `vars`, in place of its last binding or after the others.
pub fn put_var(vars: &mut Vec<(String, Value)>, x: String, v: Value)
    ensures
        env_view(final(vars)@) == assoc_put(env_view(old(vars)@), x@, v@),
{
    proof {
        lemma_env_keys(vars@);
    }
    let ghost old_view = env_view(vars@);
    let ghost xv = x@;
    let ghost vv = v@;
    match find_last(vars.as_slice(), &x) {
        Some(i) => {
            vars.set(i, (x, v));
            assert(env_view(vars@) =~= old_view.update(i as int, (xv, vv)));
        },
        None => {
            vars.push((x, v));
            assert(env_view(vars@) =~= old_view.push((xv, vv)));
        },
    }
}

/// Binds `x` to `e` in `defs`, in place of its last binding or after the others.
pub fn put_def(defs: &mut Vec<(String, Expr)>, x: String, e: Expr)
    ensures
        defs_view(final(defs)@) == assoc_put(defs_view(old(defs)@), x@, e@),
{
    proof {
        assert(keys_of(defs_view(defs@)) =~= exec_keys(defs@));
    }
    let ghost old_view = defs_view(defs@);
    let ghost xv = x@;
    let ghost ev = e@;
    match find_last(defs.as_slice(), &x) {
        Some(i) => {
            defs.set(i, (x, e));
            assert(defs_view(defs@) =~= old_view.update(i as int, (xv, ev)));
        },
        None => {
            defs.push((x, e));
            assert(defs_view(defs@) =~= old_view.push((xv, ev)));
        },
    }
}

impl Manager {
    /// Sets variable `x` of the service at position `i`, which is the one found under its name.
    fn set_var(&mut self, i: usize, x: String, v: Value)
        requires
            i < old(self).services@.len(),
            i as int == last_index(service_names(old(self)@.services), old(self)@.services[i as int].name),
        ensures
            final(self)@ == with_var(old(self)@, old(self)@.services[i as int], x@, v@),
    {
        let ghost m0 = self@;
        let ghost s0 = self@.services[i as int];
        let mut s = self.services.remove(i);
        assert(s@ == s0);
        put_var(&mut s.vars, x, v);
        let ghost s1 = s@;
        self.services.insert(i, s);
        assert(self@.services =~= m0.services.update(i as int, s1));
        assert(self@.remote_services =~= m0.remote_services);
        assert(self@.remote_answers =~= m0.remote_answers);
        assert(self@.outbox =~= m0.outbox);
    }

    /// Puts `s` in place of the service of the same name, or adds it.
    fn put_service(&mut self, s: Service)
        ensures
            final(self)@ == put_service(old(self)@, s@),
    {
        let ghost m0 = self@;
        let ghost sv = s@;
        match find_service(&self.services, &s.name) {
            Some(i) => {
                self.services.set(i, s);
                assert(self@.services =~= m0.services.update(i as int, sv));
            },
            None => {
                self.services.push(s);
                assert(self@.services =~= m0.services.push(sv));
            },
        }
        assert(self@.remote_services =~= m0.remote_services);
        assert(self@.remote_answers =~= m0.remote_answers);
        assert(self@.outbox =~= m0.outbox);
    }

    /// The value of `ident` in service `service_name`: a definition is
    /// evaluated afresh from its expression, a variable gives its value.
    pub fn lookup(&self, ident: &str, service_name: &str) -> (r: Result<Value, EvalError>)
        requires
            lookup_f(EVAL_FUEL as nat, self@, ident@, service_name@) is Some,
        ensures
            Some(result_view(r)) == lookup_f(EVAL_FUEL as nat, self@, ident@, service_name@),
    {
        let id = ident.to_string();
        let svc = service_name.to_string();
        match lookup_fuel(self, &id, &svc, EVAL_FUEL) {
            Some(r) => r,
            None => Err(EvalError::NotImplemented),
        }
    }

    /// Recomputes the definitions of service `svc` that depend on `changed`,
    /// in the order of the service's dependency analysis.
    pub fn propagate_fuel(&mut self, svc: &String, changed: &String, fuel: u64) -> (r: Option<Result<(), EvalError>>)
        ensures
            step_view(final(self)@, r) == propagate_f(fuel as nat, old(self)@, svc@, changed@, topo_of(old(self)@, svc@)),
    {
        let ghost order = topo_of(self@, svc@);
        let topo: Vec<String> = match find_service(&self.services, svc) {
            Some(i) => crate::ast::copy_names(&self.services[i].dep.topo_order),
            None => Vec::new(),
        };
        assert(names_view(topo@) =~= order);
        let ghost total = propagate_f(fuel as nat, self@, svc@, changed@, order);
        let mut k: usize = 0;
        assert(order.skip(0) =~= order);
        while k < topo.len()
            invariant
                k <= topo@.len(),
                order == names_view(topo@),
                order == topo_of(old(self)@, svc@),
                total == propagate_f(fuel as nat, old(self)@, svc@, changed@, order),
                total == propagate_f(fuel as nat, self@, svc@, changed@, order.skip(k as int)),
            decreases topo@.len() - k,
        {
            let ghost m = self@;
            let ghost rest = order.skip(k as int);
            assert(rest.drop_first() =~= order.skip(k + 1));
            assert(rest[0] == topo@[k as int]@);
            let d = &topo[k];
            match find_service(&self.services, svc) {
                Some(i) => {
                    let ghost s = m.services[i as int];
                    assert(service_named(m, svc@) == Some(s));
                    let sref = &self.services[i];
                    proof {
                        assert(keys_of(deps_view(sref.dep.dep_vars@)) =~= exec_keys(sref.dep.dep_vars@));
                        assert(keys_of(defs_view(sref.defs@)) =~= exec_keys(sref.defs@));
                        lemma_env_keys(sref.vars@);
                    }
                    let needs = match find_last(sref.dep.dep_vars.as_slice(), d) {
                        Some(j) => {
                            let b = names_contain(&sref.dep.dep_vars[j].1, changed);
                            assert(deps_view(sref.dep.dep_vars@)[j as int].1 == names_view(sref.dep.dep_vars@[j as int].1@).to_set());
                            b
                        },
                        None => false,
                    };
                    assert(needs == depends_on(s, rest[0], changed@));
                    let def_idx = find_last(sref.defs.as_slice(), d);
                    if needs && def_idx.is_some() {
                        let j = def_idx.unwrap();
                        assert(assoc_get(s.defs, rest[0])->0 == sref.defs@[j as int].1@);
                        assert(s.vars == env_view(sref.vars@));
                        assert(assoc_get(s.defs, rest[0]) is Some);
                        let ghost ev = eval_f(fuel as nat, assoc_get(s.defs, rest[0])->0, Seq::empty(), s.vars, m, svc@);
                        assert(propagate_f(fuel as nat, m, svc@, changed@, rest) == match ev {
                            Some(Ok(v)) => propagate_f(fuel as nat, with_var(m, s, rest[0], v), svc@, changed@, rest.drop_first()),
                            Some(Err(e)) => Some((m, Err(e))),
                            None => None,
                        });
                        let vs = sref.vars.as_slice();
                        assert(vs@ == sref.vars@);
                        let none: Vec<(String, Value)> = Vec::new();
                        assert(env_view(none@) =~= Seq::<(Seq<char>, ValueV)>::empty());
                        let value = match eval_fuel(&sref.defs[j].1, none.as_slice(), vs, self, svc, fuel) {
                            Some(Ok(v)) => v,
                            Some(Err(e)) => {
                                assert(ev == Some(Err::<ValueV, ErrV>(e@)));
                                assert(total == Some((self@, Err::<(), ErrV>(e@))));
                                return Some(Err(e));
                            },
                            None => return None,
                        };
                        self.set_var(i, d.clone(), value);
                    }
                },
                None => {},
            }
            k = k + 1;
        }
        assert(order.skip(topo@.len() as int) =~= Seq::<Seq<char>>::empty());
        Some(Ok(()))
    }

    /// Sets variable `var` of service `svc` to `value`, then recomputes the
    /// definitions that depend on it.
    pub fn assign_fuel(&mut self, svc: &String, var: &String, value: Value, fuel: u64) -> (r: Option<Result<(), EvalError>>)
        ensures
            step_view(final(self)@, r) == assign_f(fuel as nat, old(self)@, svc@, var@, value@),
    {
        let ghost m0 = self@;
        match find_service(&self.services, svc) {
            Some(i) => {
                let ghost s = m0.services[i as int];
                proof {
                    lemma_env_keys(self.services@[i as int].vars@);
                }
                match find_last(self.services[i].vars.as_slice(), var) {
                    Some(_) => {
                        self.set_var(i, var.clone(), value);
                        proof {
                            lemma_put_service_named(m0, ServiceV { vars: assoc_put(s.vars, var@, value@), ..s });
                        }
                        self.propagate_fuel(svc, var, fuel)
                    },
                    None => Some(Err(lookup_error_value(var, svc))),
                }
            },
            None => {
                let mut msg = "Service '".to_string();
                msg.append(svc.as_str());
                msg.append("' not found");
                assert(EvalError::LookupError(msg)@ == service_error(svc@));
                Some(Err(EvalError::LookupError(msg)))
            },
        }
    }

    /// Sets variable `var` of service `service_name` to `value`, then
    /// recomputes the definitions that depend on it.
    pub fn assign(&mut self, service_name: &str, var: &str, value: Value) -> (r: Result<(), EvalError>)
        requires
            assign_f(EVAL_FUEL as nat, old(self)@, service_name@, var@, value@) is Some,
        ensures
            Some((final(self)@, unit_view(r))) == assign_f(EVAL_FUEL as nat, old(self)@, service_name@, var@, value@),
    {
        let svc = service_name.to_string();
        let v = var.to_string();
        match self.assign_fuel(&svc, &v, value, EVAL_FUEL) {
            Some(r) => r,
            None => Err(EvalError::NotImplemented),
        }
    }
    /// Creates service `name` from its declarations, evaluated in order, each
    /// with the bindings of the ones before it at hand (values it makes do
    /// not capture them); the service replaces one of the same name. On an
    /// error the manager is unchanged.
    pub fn create_service_fuel(&mut self, name: String, decls: Vec<Decl>, fuel: u64) -> (r: Option<Result<(), EvalError>>)
        ensures
            match create_f(fuel as nat, old(self)@, name@, decls_view(decls@)) {
                Some(Ok(m)) => r == Some(Ok::<(), EvalError>(())) && final(self)@ == m,
                Some(Err(e)) => r matches Some(Err(e2)) && e2@ == e && final(self)@ == old(self)@,
                None => r is None,
            },
    {
        let ghost dv = decls_view(decls@);
        let ghost m0 = self@;
        let dep = calc_dep_srv(&decls);
        let mut env: Vec<(String, Value)> = Vec::new();
        let mut vars: Vec<(String, Value)> = Vec::new();
        let mut defs: Vec<(String, Expr)> = Vec::new();
        let ghost total = build_f(fuel as nat, m0, name@, dv, Seq::empty(), Seq::empty(), Seq::empty());
        let none: Vec<(String, Value)> = Vec::new();
        assert(env_view(none@) =~= Seq::<(Seq<char>, ValueV)>::empty());
        assert(env_view(env@) =~= Seq::<(Seq<char>, ValueV)>::empty());
        assert(env_view(vars@) =~= Seq::<(Seq<char>, ValueV)>::empty());
        assert(defs_view(defs@) =~= Seq::<(Seq<char>, ExprV)>::empty());
        assert(dv.skip(0) =~= dv);
        let mut k: usize = 0;
        while k < decls.len()
            invariant
                k <= decls@.len(),
                dv == decls_view(decls@),
                self@ == m0,
                m0 == old(self)@,
                env_view(none@) == Seq::<(Seq<char>, ValueV)>::empty(),
                total == build_f(fuel as nat, m0, name@, dv, Seq::empty(), Seq::empty(), Seq::empty()),
                total == build_f(fuel as nat, m0, name@, dv.skip(k as int), env_view(env@), env_view(vars@), defs_view(defs@)),
            decreases decls@.len() - k,
        {
            let ghost rest = dv.skip(k as int);
            assert(rest.drop_first() =~= dv.skip(k + 1));
            assert(rest[0] == decls@[k as int]@);
            let ghost env0 = env_view(env@);
            match &decls[k] {
                Decl::VarDecl { name: n, val } => {
                    let v = match eval_fuel(val, none.as_slice(), env.as_slice(), self, &name, fuel) {
                        Some(Ok(v)) => v,
                        Some(Err(e)) => return Some(Err(e)),
                        None => return None,
                    };
                    let ghost vv = v@;
                    env.push((n.clone(), v.duplicate()));
                    assert(env_view(env@) =~= env0.push((n@, vv)));
                    put_var(&mut vars, n.clone(), v);
                },
                Decl::DefDecl { name: n, val, .. } => {
                    let v = match eval_fuel(val, none.as_slice(), env.as_slice(), self, &name, fuel) {
                        Some(Ok(v)) => v,
                        Some(Err(e)) => return Some(Err(e)),
                        None => return None,
                    };
                    let ghost vv = v@;
                    env.push((n.clone(), v.duplicate()));
                    assert(env_view(env@) =~= env0.push((n@, vv)));
                    put_var(&mut vars, n.clone(), v);
                    put_def(&mut defs, n.clone(), val.duplicate());
                },
                Decl::TableDecl { .. } => {
                    return Some(Err(EvalError::NotImplemented));
                },
            }
            k = k + 1;
        }
        assert(dv.skip(decls@.len() as int) =~= Seq::<crate::ast::DeclV>::empty());
        let service = Service { name, vars, defs, dep };
        self.put_service(service);
        Some(Ok(()))
    }

    /// Creates service `name` from its declarations; see `create_service_fuel`.
    pub fn create_service(&mut self, name: String, decls: Vec<Decl>) -> (r: Result<(), EvalError>)
        requires
            create_f(EVAL_FUEL as nat, old(self)@, name@, decls_view(decls@)) is Some,
        ensures
            match create_f(EVAL_FUEL as nat, old(self)@, name@, decls_view(decls@)) {
                Some(Ok(m)) => r is Ok && final(self)@ == m,
                Some(Err(e)) => r matches Err(e2) && e2@ == e && final(self)@ == old(self)@,
                None => false,
            },
    {
        match self.create_service_fuel(name, decls, EVAL_FUEL) {
            Some(r) => r,
            None => Err(EvalError::NotImplemented),
        }
    }
}

} // verus!
