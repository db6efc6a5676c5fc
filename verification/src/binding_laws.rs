//! Which route-maps and filters are bound, and to what.

use crate::filters::{
    babel_filter_of, bindings_of, filters_of, roa_fault, roa_faults, verdict_for, BindingModel,
    EvalResult, FilterSpecModel, PeerPolicyModel, RoaSpecModel,
};
use vstd::prelude::*;

verus! {

/// Whether every route-map that a peer names is known.
pub open spec fn names_known(p: PeerPolicyModel, known: Seq<Seq<char>>) -> bool {
    (p.import is Some ==> known.contains(p.import->0)) && (p.export is Some ==> known.contains(
        p.export->0,
    ))
}

/// A peer's route-maps are bound behind those of the peers before it, to that
/// peer, each in its own direction; one that is unknown binds nothing.
pub proof fn route_maps_are_bound_in_their_direction(
    ps: Seq<PeerPolicyModel>,
    p: PeerPolicyModel,
    known: Seq<Seq<char>>,
)
    ensures
        bindings_of(Seq::empty(), known) == Ok::<Seq<BindingModel>, Seq<char>>(Seq::empty()),
        ({
            let a = bindings_of(ps, known);
            let b = bindings_of(ps.push(p), known);
            let i = ps.len() as int;
            &&& b is Ok <==> a is Ok && names_known(p, known)
            &&& b is Ok ==> {
                let n = a->Ok_0.len() as int;
                let x = b->Ok_0.subrange(n, b->Ok_0.len() as int);
                &&& b->Ok_0.len() >= n
                &&& b->Ok_0.subrange(0, n) == a->Ok_0
                &&& p.import is None && p.export is None ==> x.len() == 0
                &&& p.import is Some && p.export is None ==> x == seq![
                    BindingModel { peer: i, import: true, name: p.import->0 },
                ]
                &&& p.import is None && p.export is Some ==> x == seq![
                    BindingModel { peer: i, import: false, name: p.export->0 },
                ]
                &&& p.import is Some && p.export is Some ==> x == seq![
                    BindingModel { peer: i, import: true, name: p.import->0 },
                    BindingModel { peer: i, import: false, name: p.export->0 },
                ]
            }
        }),
{
    assert(ps.push(p).drop_last() =~= ps);
    let a = bindings_of(ps, known);
    let b = bindings_of(ps.push(p), known);
    if b is Ok {
        let n = a->Ok_0.len() as int;
        let x = b->Ok_0.subrange(n, b->Ok_0.len() as int);
        assert(b->Ok_0.subrange(0, n) =~= a->Ok_0);
        let i = ps.len() as int;
        if p.import is Some && p.export is Some {
            assert(x =~= seq![
                BindingModel { peer: i, import: true, name: p.import->0 },
                BindingModel { peer: i, import: false, name: p.export->0 },
            ]);
        } else if p.import is Some {
            assert(x =~= seq![BindingModel { peer: i, import: true, name: p.import->0 }]);
        } else if p.export is Some {
            assert(x =~= seq![BindingModel { peer: i, import: false, name: p.export->0 }]);
        }
    }
}

/// Filters compile in order under their names; one that is declared twice or
/// does not compile refuses them all.
pub proof fn filters_compile_in_order(fs: Seq<FilterSpecModel>, f: FilterSpecModel)
    ensures
        filters_of(Seq::empty()) == Ok::<Seq<Seq<char>>, Seq<char>>(Seq::empty()),
        ({
            let a = filters_of(fs);
            let b = filters_of(fs.push(f));
            let name = if f.name is Some {
                f.name->0
            } else {
                Seq::empty()
            };
            &&& b is Ok <==> a is Ok && !a->Ok_0.contains(name) && f.fault is None
            &&& b is Ok ==> b->Ok_0 == a->Ok_0.push(name)
            &&& a is Err ==> b == a
        }),
{
    assert(fs.push(f).drop_last() =~= fs);
}

/// A Babel direction uses the filter it names, if the filters compile and it is
/// among them; without a name it uses none.
pub proof fn babel_directions_use_their_filter(fs: Seq<FilterSpecModel>, name: Option<Seq<char>>)
    ensures
        ({
            let r = babel_filter_of(fs, name);
            &&& name is None ==> r is Ok && r->Ok_0 is None
            &&& name is Some ==> (r is Ok <==> filters_of(fs) is Ok && filters_of(fs)->Ok_0.contains(
                name->0,
            ))
            &&& name is Some && r is Ok ==> r->Ok_0 == name
            &&& name is Some && filters_of(fs) is Err ==> r is Err && r->Err_0 == filters_of(fs)->Err_0
        }),
{
}

/// Origin authorisations are taken if each names its AS and the store takes it;
/// the first that is refused refuses them all.
pub proof fn authorisations_need_their_as(ss: Seq<RoaSpecModel>, s: RoaSpecModel)
    ensures
        roa_faults(Seq::empty()) is None,
        roa_faults(ss.push(s)) is None <==> roa_faults(ss) is None && s.asn is Some && s.fault is None,
        roa_faults(ss) is Some ==> roa_faults(ss.push(s)) == roa_faults(ss),
        roa_faults(ss) is None ==> roa_faults(ss.push(s)) == roa_fault(s),
{
    assert(ss.push(s).drop_last() =~= ss);
}

/// A filter drops what it rejects, and keeps what it accepts and what it does not
/// decide.
pub proof fn filters_drop_what_they_reject(r: EvalResult)
    ensures
        r is Reject ==> verdict_for(r) is Drop,
        r is Accept || r is Fallthrough ==> verdict_for(r) is Keep,
{
}

} // verus!
