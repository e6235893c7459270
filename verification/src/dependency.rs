//! Dependency analysis of a service's declarations: which declared names
//! each definition depends on, directly or through earlier definitions.
use vstd::prelude::*;
use crate::ast::{Decl, DeclV, ExprV, decls_view, names_view};
use crate::manager::{DependAnalysis, DependV};
use crate::scope::{is_free, names_contain, occurs_free};

verus! {

broadcast use {vstd::std_specs::vec::group_vec_axioms, vstd::seq_lib::lemma_seq_contains_after_push};

/// The name a declaration declares.
pub open spec fn decl_name(d: DeclV) -> Seq<char> {
    match d {
        DeclV::VarDecl { name, .. } => name,
        DeclV::DefDecl { name, .. } => name,
        DeclV::TableDecl { name } => name,
    }
}

/// The names the declarations declare.
pub open spec fn declared(decls: Seq<DeclV>) -> Set<Seq<char>> {
    Set::new(|n: Seq<char>| exists|i: int| 0 <= i < decls.len() && #[trigger] decl_name(decls[i]) == n)
}

/// The declared names that occur free in `e`.
pub open spec fn direct_deps(decls: Seq<DeclV>, e: ExprV) -> Set<Seq<char>> {
    Set::new(|n: Seq<char>| declared(decls).contains(n) && is_free(e, n))
}

/// `s` closed under the definitions among the first `j` declarations,
/// visited from the last to the first: a definition whose name is in the
/// set adds its own direct dependencies.
pub open spec fn close_deps(decls: Seq<DeclV>, s: Set<Seq<char>>, j: int) -> Set<Seq<char>>
    decreases j,
{
    if j <= 0 {
        s
    } else {
        let s2 = match decls[j - 1] {
            DeclV::DefDecl { name, val, .. } => if s.contains(name) {
                s.union(direct_deps(decls, val))
            } else {
                s
            },
            _ => s,
        };
        close_deps(decls, s2, j - 1)
    }
}

/// The dependencies of the definition at position `i` with expression `e`.
pub open spec fn def_deps(decls: Seq<DeclV>, e: ExprV, i: int) -> Set<Seq<char>> {
    close_deps(decls, direct_deps(decls, e), i)
}

/// The analysis of the first `k` declarations: the definitions in
/// declaration order, each with its dependencies.
pub open spec fn analysis_upto(decls: Seq<DeclV>, k: int) -> DependV
    decreases k,
{
    if k <= 0 {
        DependV { topo_order: Seq::empty(), dep_vars: Seq::empty() }
    } else {
        let d = analysis_upto(decls, k - 1);
        match decls[k - 1] {
            DeclV::DefDecl { name, val, .. } => DependV {
                topo_order: d.topo_order.push(name),
                dep_vars: d.dep_vars.push((name, def_deps(decls, val, k - 1))),
            },
            _ => d,
        }
    }
}

/// The analysis of all declarations.
pub open spec fn analysis(decls: Seq<DeclV>) -> DependV {
    analysis_upto(decls, decls.len() as int)
}

/// The names of the declarations, in order.
fn decl_names(decls: &Vec<Decl>) -> (r: Vec<String>)
    ensures
        names_view(r@) == Seq::new(decls@.len(), |i: int| decl_name(decls_view(decls@)[i])),
{
    let ghost target = Seq::new(decls@.len(), |i: int| decl_name(decls_view(decls@)[i]));
    let mut r: Vec<String> = Vec::new();
    let mut i: usize = 0;
    while i < decls.len()
        invariant
            i <= decls@.len(),
            target == Seq::new(decls@.len(), |i: int| decl_name(decls_view(decls@)[i])),
            names_view(r@) == target.take(i as int),
        decreases decls@.len() - i,
    {
        let n = match &decls[i] {
            Decl::VarDecl { name, .. } => name.clone(),
            Decl::DefDecl { name, .. } => name.clone(),
            Decl::TableDecl { name } => name.clone(),
        };
        assert(decls_view(decls@)[i as int] == decls@[i as int]@);
        assert(target[i as int] == n@);
        let ghost before = names_view(r@);
        let ghost nv = n@;
        r.push(n);
        assert(names_view(r@) =~= before.push(nv));
        i = i + 1;
        assert(names_view(r@) =~= target.take(i as int));
    }
    assert(target.take(decls@.len() as int) =~= target);
    r
}

/// The names among `names` that occur free in `e`.
fn free_among(names: &Vec<String>, e: &crate::ast::Expr) -> (r: Vec<String>)
    ensures
        forall|n: Seq<char>| #[trigger] names_view(r@).contains(n) <==> (names_view(names@).contains(n) && is_free(e@, n)),
{
    let mut r: Vec<String> = Vec::new();
    let mut i: usize = 0;
    while i < names.len()
        invariant
            i <= names@.len(),
            forall|n: Seq<char>| #[trigger] names_view(r@).contains(n) <==> (names_view(names@).take(i as int).contains(n) && is_free(e@, n)),
        decreases names@.len() - i,
    {
        let ghost before = names_view(r@);
        let ghost x = names@[i as int]@;
        let b = occurs_free(e, &names[i]);
        if b {
            r.push(names[i].clone());
            assert(names_view(r@) =~= before.push(x));
        }
        assert(names_view(names@).take(i + 1) =~= names_view(names@).take(i as int).push(x));
        i = i + 1;
    }
    assert(names_view(names@).take(names@.len() as int) =~= names_view(names@));
    r
}

/// Appends `extra` to `s`.
fn append_names(s: &mut Vec<String>, extra: Vec<String>)
    ensures
        forall|n: Seq<char>| #[trigger] names_view(final(s)@).contains(n) <==> (names_view(old(s)@).contains(n) || names_view(extra@).contains(n)),
{
    let mut i: usize = 0;
    let ghost start = names_view(s@);
    while i < extra.len()
        invariant
            i <= extra@.len(),
            forall|n: Seq<char>| #[trigger] names_view(s@).contains(n) <==> (start.contains(n) || names_view(extra@).take(i as int).contains(n)),
        decreases extra@.len() - i,
    {
        let ghost before = names_view(s@);
        let ghost x = extra@[i as int]@;
        s.push(extra[i].clone());
        assert(names_view(s@) =~= before.push(x));
        assert(names_view(extra@).take(i + 1) =~= names_view(extra@).take(i as int).push(x));
        i = i + 1;
    }
    assert(names_view(extra@).take(extra@.len() as int) =~= names_view(extra@));
}

/// Computes the dependency analysis of a service's declarations.
pub fn calc_dep_srv(decls: &Vec<Decl>) -> (r: DependAnalysis)
    ensures
        r@ == analysis(decls_view(decls@)),
{
    let ghost dv = decls_view(decls@);
    let names = decl_names(decls);
    proof {
        assert forall|n: Seq<char>| #[trigger] names_view(names@).contains(n) <==> declared(dv).contains(n) by {
            if names_view(names@).contains(n) {
                let i = choose|i: int| 0 <= i < names_view(names@).len() && names_view(names@)[i] == n;
                assert(decl_name(dv[i]) == n);
            }
            if declared(dv).contains(n) {
                let i = choose|i: int| 0 <= i < dv.len() && #[trigger] decl_name(dv[i]) == n;
                assert(names_view(names@)[i] == n);
            }
        }
    }
    let mut topo: Vec<String> = Vec::new();
    let mut deps: Vec<(String, Vec<String>)> = Vec::new();
    assert((DependAnalysis { topo_order: topo, dep_vars: deps })@.topo_order =~= Seq::<Seq<char>>::empty());
    assert((DependAnalysis { topo_order: topo, dep_vars: deps })@.dep_vars =~= Seq::<(Seq<char>, Set<Seq<char>>)>::empty());
    let mut k: usize = 0;
    while k < decls.len()
        invariant
            k <= decls@.len(),
            dv == decls_view(decls@),
            forall|n: Seq<char>| #[trigger] names_view(names@).contains(n) <==> declared(dv).contains(n),
            (DependAnalysis { topo_order: topo, dep_vars: deps })@ == analysis_upto(dv, k as int),
        decreases decls@.len() - k,
    {
        assert(dv[k as int] == decls@[k as int]@);
        match &decls[k] {
            Decl::DefDecl { name, val, .. } => {
                let mut s = free_among(&names, val);
                assert(names_view(s@).to_set() =~= direct_deps(dv, val@));
                let mut j: usize = k;
                while j > 0
                    invariant
                        j <= k < decls@.len(),
                        dv == decls_view(decls@),
                        forall|n: Seq<char>| #[trigger] names_view(names@).contains(n) <==> declared(dv).contains(n),
                        close_deps(dv, names_view(s@).to_set(), j as int) == def_deps(dv, val@, k as int),
                    decreases j,
                {
                    let ghost cur = names_view(s@).to_set();
                    assert(dv[j - 1] == decls@[j - 1]@);
                    match &decls[j - 1] {
                        Decl::DefDecl { name: dn, val: dval, .. } => {
                            if names_contain(&s, dn) {
                                let extra = free_among(&names, dval);
                                append_names(&mut s, extra);
                                assert(names_view(s@).to_set() =~= cur.union(direct_deps(dv, dval@)));
                            }
                        },
                        _ => {},
                    }
                    j = j - 1;
                }
                let ghost before = (DependAnalysis { topo_order: topo, dep_vars: deps })@;
                let ghost sset = names_view(s@).to_set();
                topo.push(name.clone());
                deps.push((name.clone(), s));
                assert((DependAnalysis { topo_order: topo, dep_vars: deps })@.topo_order =~= before.topo_order.push(name@));
                assert((DependAnalysis { topo_order: topo, dep_vars: deps })@.dep_vars =~= before.dep_vars.push((name@, sset)));
            },
            _ => {},
        }
        k = k + 1;
    }
    DependAnalysis { topo_order: topo, dep_vars: deps }
}

/// Closing a set only adds names.
pub proof fn lemma_close_deps_grows(decls: Seq<DeclV>, s: Set<Seq<char>>, j: int)
    ensures
        s.subset_of(close_deps(decls, s, j)),
    decreases j,
{
    if j > 0 {
        let s2 = match decls[j - 1] {
            DeclV::DefDecl { name, val, .. } => if s.contains(name) {
                s.union(direct_deps(decls, val))
            } else {
                s
            },
            _ => s,
        };
        lemma_close_deps_grows(decls, s2, j - 1);
    }
}

/// Closing a set that names a definition among the first `k` declarations
/// adds that definition's own direct dependencies.
pub proof fn lemma_close_deps_follows(decls: Seq<DeclV>, s: Set<Seq<char>>, k: int, j: int)
    requires
        0 <= j < k <= decls.len(),
        decls[j] is DefDecl,
        s.contains(decls[j]->DefDecl_name),
    ensures
        direct_deps(decls, decls[j]->DefDecl_val).subset_of(close_deps(decls, s, k)),
    decreases k,
{
    let s2 = match decls[k - 1] {
        DeclV::DefDecl { name, val, .. } => if s.contains(name) {
            s.union(direct_deps(decls, val))
        } else {
            s
        },
        _ => s,
    };
    assert(s.subset_of(s2));
    if k - 1 == j {
        lemma_close_deps_grows(decls, s2, k - 1);
    } else {
        lemma_close_deps_follows(decls, s2, k - 1, j);
    }
}

/// The dependencies of a definition hold the declared names it uses, and
/// the dependencies of every earlier definition it uses: assigning a name
/// that an earlier definition uses recomputes the later one too.
pub proof fn law_dependencies_follow_definitions(decls: Seq<DeclV>, i: int, j: int)
    requires
        0 <= j < i < decls.len(),
        decls[i] is DefDecl,
        decls[j] is DefDecl,
        direct_deps(decls, decls[i]->DefDecl_val).contains(decls[j]->DefDecl_name),
    ensures
        direct_deps(decls, decls[i]->DefDecl_val).subset_of(def_deps(decls, decls[i]->DefDecl_val, i)),
        direct_deps(decls, decls[j]->DefDecl_val).subset_of(def_deps(decls, decls[i]->DefDecl_val, i)),
{
    lemma_close_deps_grows(decls, direct_deps(decls, decls[i]->DefDecl_val), i);
    lemma_close_deps_follows(decls, direct_deps(decls, decls[i]->DefDecl_val), i, j);
}

/// One step of closing `s`: the definition at position `t`, if its name
/// is in `s`, adds its direct dependencies.
pub open spec fn close_step(decls: Seq<DeclV>, s: Set<Seq<char>>, t: int) -> Set<Seq<char>> {
    match decls[t] {
        DeclV::DefDecl { name, val, .. } => if s.contains(name) {
            s.union(direct_deps(decls, val))
        } else {
            s
        },
        _ => s,
    }
}

/// Every declared name that a definition uses is declared only before it.
pub open spec fn uses_only_earlier(decls: Seq<DeclV>) -> bool {
    forall|t: int, u: int|
        #![trigger direct_deps(decls, decls[t]->DefDecl_val).contains(decl_name(decls[u]))]
        0 <= t < decls.len() && 0 <= u < decls.len() && decls[t] is DefDecl && direct_deps(
            decls,
            decls[t]->DefDecl_val,
        ).contains(decl_name(decls[u])) ==> u < t
}

/// Closing a larger set gives a larger set.
pub proof fn lemma_close_deps_monotone(decls: Seq<DeclV>, s: Set<Seq<char>>, t: Set<Seq<char>>, j: int)
    requires
        s.subset_of(t),
    ensures
        close_deps(decls, s, j).subset_of(close_deps(decls, t, j)),
    decreases j,
{
    if j > 0 {
        assert(close_deps(decls, s, j) == close_deps(decls, close_step(decls, s, j - 1), j - 1));
        assert(close_deps(decls, t, j) == close_deps(decls, close_step(decls, t, j - 1), j - 1));
        assert(close_step(decls, s, j - 1).subset_of(close_step(decls, t, j - 1)));
        lemma_close_deps_monotone(decls, close_step(decls, s, j - 1), close_step(decls, t, j - 1), j - 1);
    }
}

/// Where definitions use only earlier names, closing over the first `k`
/// declarations never adds the name of a declaration at or after `k - 1`.
pub proof fn lemma_close_deps_keeps_out(decls: Seq<DeclV>, s: Set<Seq<char>>, k: int, j: int)
    requires
        uses_only_earlier(decls),
        0 <= j < decls.len(),
        k <= j + 1,
        !s.contains(decl_name(decls[j])),
    ensures
        !close_deps(decls, s, k).contains(decl_name(decls[j])),
    decreases k,
{
    if k > 0 {
        let s2 = close_step(decls, s, k - 1);
        assert(close_deps(decls, s, k) == close_deps(decls, s2, k - 1));
        if decls[k - 1] is DefDecl {
            assert(!direct_deps(decls, decls[k - 1]->DefDecl_val).contains(decl_name(decls[j])));
        }
        lemma_close_deps_keeps_out(decls, s2, k - 1, j);
    }
}

/// Where definitions use only earlier names, a closure over the first `k`
/// declarations that holds the name of a definition before `k` holds all
/// of that definition's dependencies.
pub proof fn lemma_close_deps_transitive(decls: Seq<DeclV>, s: Set<Seq<char>>, k: int, j: int)
    requires
        uses_only_earlier(decls),
        0 <= j < k <= decls.len(),
        decls[j] is DefDecl,
        close_deps(decls, s, k).contains(decls[j]->DefDecl_name),
    ensures
        def_deps(decls, decls[j]->DefDecl_val, j).subset_of(close_deps(decls, s, k)),
    decreases k,
{
    let s2 = close_step(decls, s, k - 1);
    assert(close_deps(decls, s, k) == close_deps(decls, s2, k - 1));
    if k - 1 == j {
        assert(decl_name(decls[j]) == decls[j]->DefDecl_name);
        if !s.contains(decls[j]->DefDecl_name) {
            lemma_close_deps_keeps_out(decls, s, k, j);
        }
        assert(direct_deps(decls, decls[j]->DefDecl_val).subset_of(s2));
        lemma_close_deps_monotone(decls, direct_deps(decls, decls[j]->DefDecl_val), s2, j);
    } else {
        lemma_close_deps_transitive(decls, s2, k - 1, j);
    }
}

/// Dependencies are transitively closed: where every definition uses only
/// names declared before it, a definition that depends on an earlier
/// definition depends on everything that one depends on, at any depth, so
/// it depends on every variable reached through any chain of definitions.
pub proof fn law_dependencies_are_transitive(decls: Seq<DeclV>, i: int, j: int)
    requires
        uses_only_earlier(decls),
        0 <= j < i < decls.len(),
        decls[i] is DefDecl,
        decls[j] is DefDecl,
        def_deps(decls, decls[i]->DefDecl_val, i).contains(decls[j]->DefDecl_name),
    ensures
        def_deps(decls, decls[j]->DefDecl_val, j).subset_of(def_deps(decls, decls[i]->DefDecl_val, i)),
{
    lemma_close_deps_transitive(decls, direct_deps(decls, decls[i]->DefDecl_val), i, j);
}

/// The name of a declaration that is a definition.
pub open spec fn def_name_of(d: DeclV) -> Option<Seq<char>> {
    match d {
        DeclV::DefDecl { name, .. } => Some(name),
        _ => None,
    }
}

/// The analysis of the first `k` declarations orders the definitions among
/// them as they are declared.
pub proof fn lemma_topo_order_upto(decls: Seq<DeclV>, k: int)
    requires
        0 <= k <= decls.len(),
    ensures
        analysis_upto(decls, k).topo_order == decls.take(k).filter_map(|d: DeclV| def_name_of(d)),
    decreases k,
{
    let f = |d: DeclV| def_name_of(d);
    if k == 0 {
        assert(decls.take(0) =~= Seq::<DeclV>::empty());
    } else {
        lemma_topo_order_upto(decls, k - 1);
        let t = decls.take(k);
        assert(t.drop_last() =~= decls.take(k - 1));
        assert(t.last() == decls[k - 1]);
        match decls[k - 1] {
            DeclV::DefDecl { name, .. } => {
                assert(t.drop_last().filter_map(f) + seq![name] =~= analysis_upto(decls, k - 1).topo_order.push(name));
            },
            _ => {},
        }
    }
}

/// The order of recomputation lists the definitions, and only them, in the
/// order in which they are declared.
pub proof fn law_topo_order_is_declaration_order(decls: Seq<DeclV>)
    ensures
        analysis(decls).topo_order == decls.filter_map(|d: DeclV| def_name_of(d)),
{
    lemma_topo_order_upto(decls, decls.len() as int);
    assert(decls.take(decls.len() as int) =~= decls);
}

/// Closing a set of declared names over the declarations gives declared
/// names only.
pub proof fn lemma_close_deps_declared(decls: Seq<DeclV>, s: Set<Seq<char>>, j: int)
    requires
        s.subset_of(declared(decls)),
    ensures
        close_deps(decls, s, j).subset_of(declared(decls)),
    decreases j,
{
    if j > 0 {
        assert(close_deps(decls, s, j) == close_deps(decls, close_step(decls, s, j - 1), j - 1));
        lemma_close_deps_declared(decls, close_step(decls, s, j - 1), j - 1);
    }
}

/// A definition depends only on declared names.
pub proof fn law_dependencies_are_declared(decls: Seq<DeclV>, e: ExprV, i: int)
    ensures
        def_deps(decls, e, i).subset_of(declared(decls)),
{
    lemma_close_deps_declared(decls, direct_deps(decls, e), i);
}

} // verus!
