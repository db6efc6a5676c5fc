//! How route-maps and filters are attached at the daemon's start, and what a
//! filter's result means for a route.

use crate::metrics::{observation, observation_of, Observation};
use crate::policy::built_list;
use crate::table::take_step;
use crate::text::{cat3, join, joined_by, lists_text, no_items, opt_view, own, push_view, views};
use vstd::prelude::*;
use vstd::string::*;

verus! {

/// The route-maps of a peer.
pub struct PeerPolicy {
    /// What messages call the peer.
    pub label: String,
    pub import: Option<String>,
    pub export: Option<String>,
}

/// The same over text.
pub struct PeerPolicyModel {
    pub label: Seq<char>,
    pub import: Option<Seq<char>>,
    pub export: Option<Seq<char>>,
}

impl View for PeerPolicy {
    type V = PeerPolicyModel;

    open spec fn view(&self) -> PeerPolicyModel {
        PeerPolicyModel {
            label: self.label@,
            import: opt_view(self.import),
            export: opt_view(self.export),
        }
    }
}

/// A route-map to bind to the session of a peer.
pub struct Binding {
    /// The position of the peer.
    pub peer: usize,
    pub import: bool,
    pub name: String,
}

/// The same over text.
pub struct BindingModel {
    pub peer: int,
    pub import: bool,
    pub name: Seq<char>,
}

impl View for Binding {
    type V = BindingModel;

    open spec fn view(&self) -> BindingModel {
        BindingModel { peer: self.peer as int, import: self.import, name: self.name@ }
    }
}

/// The message on an unknown route-map.
pub open spec fn unknown_map(label: Seq<char>, name: Seq<char>) -> Seq<char> {
    "peer "@ + label + ": unknown route-map '"@ + name + "'"@
}

/// The bindings with one more, or the error.
pub open spec fn bound(
    before: Seq<BindingModel>,
    p: PeerPolicyModel,
    i: int,
    import: bool,
    name: Option<Seq<char>>,
    known: Seq<Seq<char>>,
) -> Result<Seq<BindingModel>, Seq<char>> {
    match name {
        None => Ok(before),
        Some(n) => if known.contains(n) {
            Ok(before.push(BindingModel { peer: i, import, name: n }))
        } else {
            Err(unknown_map(p.label, n))
        },
    }
}

/// The bindings of the peers, or the first unknown name.
pub open spec fn bindings_of(ps: Seq<PeerPolicyModel>, known: Seq<Seq<char>>) -> Result<
    Seq<BindingModel>,
    Seq<char>,
>
    decreases ps.len(),
{
    if ps.len() == 0 {
        Ok(Seq::empty())
    } else {
        let p = ps.last();
        let i = ps.len() - 1;
        match bindings_of(ps.drop_last(), known) {
            Err(e) => Err(e),
            Ok(a) => match bound(a, p, i, true, p.import, known) {
                Err(e) => Err(e),
                Ok(b) => bound(b, p, i, false, p.export, known),
            },
        }
    }
}

fn bind_one(
    out: &mut Vec<Binding>,
    p: &PeerPolicy,
    i: usize,
    import: bool,
    name: &Option<String>,
    known: &Vec<String>,
) -> (fault: Option<String>)
    ensures
        match bound(views(old(out)@), p@, i as int, import, opt_view(*name), views(known@)) {
            Ok(b) => fault is None && views(final(out)@) == b,
            Err(e) => opt_view(fault) == Some(e),
        },
{
    match name {
        None => None,
        Some(n) => {
            if lists_text(known, n.as_str()) {
                push_view(out, Binding { peer: i, import, name: own(n.as_str()) });
                None
            } else {
                let mut m = cat3("peer ", p.label.as_str(), ": unknown route-map '");
                m.append(n.as_str());
                m.append("'");
                Some(m)
            }
        },
    }
}

/// Binds the route-maps of every peer, or names the first unknown one. `known`
/// lists the route-maps there are.
pub fn bind_peer_policies(peers: &Vec<PeerPolicy>, known: &Vec<String>) -> (r: Result<
    Vec<Binding>,
    String,
>)
    ensures
        built_list(r) == bindings_of(views(peers@), views(known@)),
{
    let ghost pv = views(peers@);
    let mut out: Vec<Binding> = no_items();
    let mut fault: Option<String> = None;
    let mut i: usize = 0;
    while i < peers.len()
        invariant
            i <= peers@.len(),
            pv == views(peers@),
            match bindings_of(pv.take(i as int), views(known@)) {
                Ok(b) => fault is None && views(out@) == b,
                Err(e) => opt_view(fault) == Some(e),
            },
        decreases peers@.len() - i,
    {
        proof {
            take_step(pv, i as int);
            assert(pv.take(i + 1).len() - 1 == i);
        }
        if fault.is_none() {
            fault = bind_one(&mut out, &peers[i], i, true, &peers[i].import, known);
            if fault.is_none() {
                fault = bind_one(&mut out, &peers[i], i, false, &peers[i].export, known);
            }
        }
        i += 1;
    }
    assert(pv.take(i as int) =~= pv);
    match fault {
        Some(m) => Err(m),
        None => Ok(out),
    }
}

/// Every route-map that is bound is known.
pub proof fn bindings_are_known(ps: Seq<PeerPolicyModel>, known: Seq<Seq<char>>, i: int)
    requires
        bindings_of(ps, known) is Ok,
        0 <= i < bindings_of(ps, known)->Ok_0.len(),
    ensures
        known.contains(bindings_of(ps, known)->Ok_0[i].name),
        0 <= bindings_of(ps, known)->Ok_0[i].peer < ps.len(),
    decreases ps.len(),
{
    let before = bindings_of(ps.drop_last(), known)->Ok_0;
    if i < before.len() {
        bindings_are_known(ps.drop_last(), known, i);
    }
}

/// A `[[filter]]` table with what the filter compiler said of its body.
pub struct FilterSpec {
    pub name: Option<String>,
    pub body: Option<String>,
    /// The compiler's error and the place in the source it shows, if the body
    /// does not compile.
    pub fault: Option<Fault>,
}

/// An error of the filter compiler.
pub struct Fault {
    pub message: String,
    pub snippet: String,
}

/// The same over text.
pub struct FilterSpecModel {
    pub name: Option<Seq<char>>,
    pub body: Option<Seq<char>>,
    pub fault: Option<(Seq<char>, Seq<char>)>,
}

impl View for FilterSpec {
    type V = FilterSpecModel;

    open spec fn view(&self) -> FilterSpecModel {
        FilterSpecModel {
            name: opt_view(self.name),
            body: opt_view(self.body),
            fault: match self.fault {
                Some(f) => Some((f.message@, f.snippet@)),
                None => None,
            },
        }
    }
}

/// The name of a filter; an absent one is empty.
pub open spec fn name_of(f: FilterSpecModel) -> Seq<char> {
    match f.name {
        Some(n) => n,
        None => Seq::empty(),
    }
}

/// The names of the compiled filters, or the first error: a name declared
/// twice, or a body that does not compile.
pub open spec fn filters_of(fs: Seq<FilterSpecModel>) -> Result<Seq<Seq<char>>, Seq<char>>
    decreases fs.len(),
{
    if fs.len() == 0 {
        Ok(Seq::empty())
    } else {
        let name = name_of(fs.last());
        match filters_of(fs.drop_last()) {
            Err(e) => Err(e),
            Ok(before) => if before.contains(name) {
                Err("filter '"@ + name + "' declared twice"@)
            } else {
                match fs.last().fault {
                    Some((message, snippet)) => Err(
                        "filter '"@ + name + "': "@ + message + "\n"@ + snippet,
                    ),
                    None => Ok(before.push(name)),
                }
            },
        }
    }
}

fn filter_name(f: &FilterSpec) -> (r: String)
    ensures
        r@ == name_of(f@),
{
    match &f.name {
        Some(n) => own(n.as_str()),
        None => {
            let r = String::new();
            assert(r@ =~= Seq::<char>::empty());
            r
        },
    }
}

/// Lists the compiled filters in order, or gives the first error.
pub fn build_filters(fs: &Vec<FilterSpec>) -> (r: Result<Vec<String>, String>)
    ensures
        built_list(r) == filters_of(views(fs@)),
{
    let ghost fv = views(fs@);
    let mut out: Vec<String> = no_items();
    let mut fault: Option<String> = None;
    let mut i: usize = 0;
    while i < fs.len()
        invariant
            i <= fs@.len(),
            fv == views(fs@),
            match filters_of(fv.take(i as int)) {
                Ok(b) => fault is None && views(out@) == b,
                Err(e) => opt_view(fault) == Some(e),
            },
        decreases fs@.len() - i,
    {
        proof {
            take_step(fv, i as int);
        }
        if fault.is_none() {
            let name = filter_name(&fs[i]);
            if lists_text(&out, name.as_str()) {
                fault = Some(cat3("filter '", name.as_str(), "' declared twice"));
            } else {
                match &fs[i].fault {
                    Some(f) => {
                        let mut m = cat3("filter '", name.as_str(), "': ");
                        m.append(f.message.as_str());
                        m.append("\n");
                        m.append(f.snippet.as_str());
                        fault = Some(m);
                    },
                    None => {
                        push_view(&mut out, name);
                    },
                }
            }
        }
        i += 1;
    }
    assert(fv.take(i as int) =~= fv);
    match fault {
        Some(m) => Err(m),
        None => Ok(out),
    }
}

/// No two compiled filters share a name.
pub proof fn filter_names_are_distinct(fs: Seq<FilterSpecModel>, i: int, j: int)
    requires
        filters_of(fs) is Ok,
        0 <= i < j < filters_of(fs)->Ok_0.len(),
    ensures
        filters_of(fs)->Ok_0[i] != filters_of(fs)->Ok_0[j],
    decreases fs.len(),
{
    let before = filters_of(fs.drop_last())->Ok_0;
    if j < before.len() {
        filter_names_are_distinct(fs.drop_last(), i, j);
    } else {
        assert(before.contains(before[i]));
    }
}

/// The filter that a Babel direction uses: none if none is named, an error if
/// the name is unknown or the filters do not compile.
pub open spec fn babel_filter_of(fs: Seq<FilterSpecModel>, name: Option<Seq<char>>) -> Result<
    Option<Seq<char>>,
    Seq<char>,
> {
    match name {
        None => Ok(None),
        Some(n) => match filters_of(fs) {
            Err(e) => Err(e),
            Ok(names) => if names.contains(n) {
                Ok(Some(n))
            } else {
                Err(
                    "babel: unknown filter '"@ + n + "' (declared filters: "@ + joined_by(
                        names,
                        ", "@,
                    ) + ")"@,
                )
            },
        },
    }
}

/// Finds the filter that a Babel direction uses.
pub fn build_babel_filter(fs: &Vec<FilterSpec>, name: &Option<String>) -> (r: Result<
    Option<String>,
    String,
>)
    ensures
        babel_filter_of(views(fs@), opt_view(*name)) == (match r {
            Ok(o) => Ok(opt_view(o)),
            Err(m) => Err(m@),
        }),
{
    match name {
        None => Ok(None),
        Some(n) => match build_filters(fs) {
            Err(m) => Err(m),
            Ok(names) => if lists_text(&names, n.as_str()) {
                Ok(Some(own(n.as_str())))
            } else {
                let mut m = cat3("babel: unknown filter '", n.as_str(), "' (declared filters: ");
                m.append(join(&names, ", ").as_str());
                m.append(")");
                Err(m)
            },
        },
    }
}

/// The result of a filter.
#[derive(Clone, Copy, Debug, PartialEq, Eq, Structural)]
pub enum EvalResult {
    Accept,
    Reject,
    /// No statement decided.
    Fallthrough,
}

/// What becomes of a route.
#[derive(Clone, Copy, Debug, PartialEq, Eq, Structural)]
pub enum HookVerdict {
    Keep,
    Drop,
}

/// What becomes of a route by the result of its filter.
pub open spec fn verdict_for(r: EvalResult) -> HookVerdict {
    match r {
        EvalResult::Reject => HookVerdict::Drop,
        _ => HookVerdict::Keep,
    }
}

/// A route is dropped only if the filter rejects it.
pub fn map_verdict(r: EvalResult) -> (v: HookVerdict)
    ensures
        v == verdict_for(r),
        v == HookVerdict::Drop <==> r == EvalResult::Reject,
{
    match r {
        EvalResult::Accept => HookVerdict::Keep,
        EvalResult::Reject => HookVerdict::Drop,
        EvalResult::Fallthrough => HookVerdict::Keep,
    }
}

/// The verdict of the Babel import hook: a route of another protocol is kept
/// whatever the filter says.
pub fn babel_verdict(is_babel: bool, r: EvalResult) -> (v: HookVerdict)
    ensures
        v == HookVerdict::Drop <==> is_babel && r == EvalResult::Reject,
        is_babel ==> v == verdict_for(r),
{
    if is_babel {
        map_verdict(r)
    } else {
        HookVerdict::Keep
    }
}

/// A hook that keeps its timings: what an evaluation that took `ns` adds to the
/// filter's histogram, and the verdict, which does not depend on it.
pub fn timed_verdict(ns: u64, r: EvalResult) -> (v: (Observation, HookVerdict))
    ensures
        v.0 == observation_of(ns),
        v.1 == HookVerdict::Drop <==> r == EvalResult::Reject,
{
    (observation(ns), map_verdict(r))
}

/// Whether a Babel export filter lets a route out.
pub fn accepts(r: EvalResult) -> (b: bool)
    ensures
        b == (r != EvalResult::Reject),
        b == (verdict_for(r) == HookVerdict::Keep),
{
    match r {
        EvalResult::Reject => false,
        _ => true,
    }
}

/// A `[[roa]]` table with what the ROA store said of it.
pub struct RoaSpec {
    pub prefix: Option<String>,
    pub asn: Option<u32>,
    /// Why the entry is refused.
    pub fault: Option<String>,
}

/// The same over text.
pub struct RoaSpecModel {
    pub prefix: Option<Seq<char>>,
    pub asn: Option<u32>,
    pub fault: Option<Seq<char>>,
}

impl View for RoaSpec {
    type V = RoaSpecModel;

    open spec fn view(&self) -> RoaSpecModel {
        RoaSpecModel {
            prefix: opt_view(self.prefix),
            asn: self.asn,
            fault: opt_view(self.fault),
        }
    }
}

/// The error of a `[[roa]]` table, if it has one.
pub open spec fn roa_fault(s: RoaSpecModel) -> Option<Seq<char>> {
    let prefix = match s.prefix {
        Some(p) => p,
        None => Seq::empty(),
    };
    if s.asn is None {
        Some("[[roa]] "@ + prefix + " without 'asn'"@)
    } else {
        match s.fault {
            Some(e) => Some("[[roa]] "@ + prefix + ": "@ + e),
            None => None,
        }
    }
}

/// The first error of the `[[roa]]` tables.
pub open spec fn roa_faults(ss: Seq<RoaSpecModel>) -> Option<Seq<char>>
    decreases ss.len(),
{
    if ss.len() == 0 {
        None
    } else {
        match roa_faults(ss.drop_last()) {
            Some(e) => Some(e),
            None => roa_fault(ss.last()),
        }
    }
}

/// Checks the `[[roa]]` tables; an error is the first there is. The store is
/// built from tables without one.
pub fn build_roa_table(ss: &Vec<RoaSpec>) -> (r: Result<(), String>)
    ensures
        match r {
            Ok(()) => roa_faults(views(ss@)) is None,
            Err(m) => roa_faults(views(ss@)) == Some(m@),
        },
{
    let ghost sv = views(ss@);
    let mut fault: Option<String> = None;
    let mut i: usize = 0;
    while i < ss.len()
        invariant
            i <= ss@.len(),
            sv == views(ss@),
            opt_view(fault) == roa_faults(sv.take(i as int)),
        decreases ss@.len() - i,
    {
        proof {
            take_step(sv, i as int);
        }
        if fault.is_none() {
            let mut m = own("[[roa]] ");
            match &ss[i].prefix {
                Some(p) => {
                    m.append(p.as_str());
                },
                None => {},
            }
            assert(m@ =~= "[[roa]] "@ + (match sv[i as int].prefix {
                Some(p) => p,
                None => Seq::empty(),
            }));
            if ss[i].asn.is_none() {
                m.append(" without 'asn'");
                fault = Some(m);
            } else {
                match &ss[i].fault {
                    Some(e) => {
                        m.append(": ");
                        m.append(e.as_str());
                        fault = Some(m);
                    },
                    None => {},
                }
            }
        }
        i += 1;
    }
    assert(sv.take(i as int) =~= sv);
    match fault {
        Some(m) => Err(m),
        None => Ok(()),
    }
}

} // verus!
