//! How the lines of a configuration lead to what it becomes: which statement a
//! line is handed to, and in which order.

use crate::bird::{bird_statement, started, with_current, BirdModel};
use crate::bird_config::{
    attach_all, attach_one, bird_config, bird_fold, bird_scan, bird_step, kept_peers, peer_boundary,
    pending_draft, settled_peers, stanza_notes, static_boundary, static_opened, with_directive,
    with_families,
};
use crate::bird_scan::PendingModel;
use crate::bird_set::{all_roas, filters_of, where_result, CompileOutcome, SourceModel};
use crate::conf::{ConfigModel, PeerModel};
use crate::frr::{
    bgp_line, code_of, covered_statement, drop_notes, frr_config, frr_finish, frr_fold,
    frr_statement, neighbor_line, of_policy, policy_line, punctuates, router_line, settled_peer,
    startable, FrrModel,
};
use crate::ospf3_daemon::{models3, Ospf3Daemon};
use crate::ospf_daemon::{models, OspfDaemon};
use crate::policy::{built, built_list};
use crate::text::{count_of, lines_of, views, words_of};
use crate::text_laws::splits_are_at_the_first;
use vstd::prelude::*;
use vstd::string::*;

verus! {

/// A statement of an FRR configuration is handed on by its first word: a neighbor
/// line to its neighbor, also where it is negated, a network to the networks, and
/// what is none of these to the policies.
pub proof fn frr_statements_are_handed_on(st: FrrModel, ts: Seq<Seq<char>>, line: Seq<char>)
    requires
        ts.len() >= 1,
    ensures
        ({
            let q = covered_statement(st, ts, line);
            let w = ts[0];
            let neighbor = w == "neighbor"@ && ts.len() >= 3;
            let negated = w == "no"@ && ts.len() >= 4 && ts[1] == "neighbor"@;
            let network = w == "network"@ && ts.len() >= 2 && ts[1].contains('/');
            let family = (w == "address-family"@ && ts.len() >= 3) || w == "exit-address-family"@;
            &&& q.skipping == st.skipping
            &&& w == "bgp"@ ==> q.out == bgp_line(st.out, ts, line) && q.af == st.af
            &&& neighbor ==> q.af == st.af && q.out == neighbor_line(
                st.out,
                ts.subrange(2, ts.len() as int),
                ts[1],
                false,
                st.af,
            )
            &&& negated ==> q.af == st.af && q.out == neighbor_line(
                st.out,
                ts.subrange(3, ts.len() as int),
                ts[2],
                true,
                st.af,
            )
            &&& network && ts.len() == 2 ==> q == (FrrModel {
                out: ConfigModel { networks: st.out.networks.push(ts[1]), ..st.out },
                ..st
            })
            &&& network && ts.len() > 2 ==> q.af == st.af && q.out == (ConfigModel {
                networks: st.out.networks.push(ts[1]),
                unmapped_global: st.out.unmapped_global.push(line),
                ..st.out
            })
            &&& w != "bgp"@ && !neighbor && !negated && !network && !family ==> q.af == st.af && q.out
                == policy_line(st.out, ts, line)
        }),
{
    reveal_strlit("bgp");
    reveal_strlit("address-family");
    reveal_strlit("exit-address-family");
    reveal_strlit("network");
    reveal_strlit("neighbor");
    reveal_strlit("no");
    reveal_strlit("router");
    reveal_strlit("exit");
    reveal_strlit("end");
    assert("bgp"@.len() == 3);
    assert("address-family"@.len() == 14);
    assert("exit-address-family"@.len() == 19);
    assert("network"@.len() == 7);
    assert("neighbor"@.len() == 8);
    assert("no"@.len() == 2);
    assert("router"@.len() == 6);
    assert("exit"@.len() == 4);
    assert("end"@.len() == 3);
    assert("bgp"@[0] == 'b');
    assert("end"@[0] == 'e');
    splits_are_at_the_first(ts[1], '/');
}

/// A stanza that is not covered is left out until the next `router`, `exit` or
/// `end` line; the policy tables stand outside every stanza and are always read.
pub proof fn uncovered_stanzas_are_left_out(st: FrrModel, ts: Seq<Seq<char>>, line: Seq<char>)
    requires
        ts.len() >= 1,
    ensures
        ({
            let q = frr_statement(st, ts, line);
            let w = ts[0];
            &&& w == "router"@ ==> q.out == router_line(st.out, ts, line) && q.af == st.af && (
            q.skipping <==> ts.len() >= 2 && (ts[1] != "bgp"@ || (ts.len() >= 4 && ts[3] == "vrf"@)))
            &&& w == "exit"@ || w == "end"@ ==> q == (FrrModel { skipping: false, ..st })
            &&& w != "router"@ && !punctuates(w) && (!st.skipping || of_policy(ts)) ==> q
                == covered_statement(FrrModel { skipping: false, ..st }, ts, line)
            &&& w != "router"@ && !punctuates(w) && st.skipping && !of_policy(ts) ==> q == st
        }),
        of_policy(ts) <==> ts[0] == "route-map"@ || (ts.len() >= 2 && ts[0] == "ip"@ && ts[1]
            == "prefix-list"@) || (ts.len() >= 2 && ts[0] == "bgp"@ && (ts[1] == "as-path"@ || ts[1]
            == "community-list"@)),
{
    reveal_strlit("bgp");
    reveal_strlit("address-family");
    reveal_strlit("exit-address-family");
    reveal_strlit("network");
    reveal_strlit("neighbor");
    reveal_strlit("no");
    reveal_strlit("router");
    reveal_strlit("exit");
    reveal_strlit("end");
    assert("bgp"@.len() == 3);
    assert("address-family"@.len() == 14);
    assert("exit-address-family"@.len() == 19);
    assert("network"@.len() == 7);
    assert("neighbor"@.len() == 8);
    assert("no"@.len() == 2);
    assert("router"@.len() == 6);
    assert("exit"@.len() == 4);
    assert("end"@.len() == 3);
    assert("bgp"@[0] == 'b');
    assert("end"@[0] == 'e');
    exclamation_apart(ts[0]);
}

proof fn exclamation_apart(w: Seq<char>)
    ensures
        w == "router"@ || w == "exit"@ || w == "end"@ ==> !crate::text::starts(w, "!"@),
{
    reveal_strlit("router");
    reveal_strlit("exit");
    reveal_strlit("end");
    reveal_strlit("!");
    if crate::text::starts(w, "!"@) {
        assert(w.subrange(0, 1)[0] == w[0]);
        assert("!"@[0] == '!');
        assert("router"@[0] == 'r' && "exit"@[0] == 'e' && "end"@[0] == 'e');
    }
}

/// An FRR configuration is what its lines leave, finished: the peers that have an
/// AS, and a note on each that has none.
pub proof fn frr_configs_are_finished(text: Seq<char>, st: FrrModel)
    requires
        st == (FrrModel { out: crate::conf::blank_config(), af: None, skipping: false }),
    ensures
        frr_config(text) == frr_finish(frr_fold(st, lines_of(text)).out),
        ({
            let c = frr_fold(st, lines_of(text)).out;
            let d = frr_config(text);
            &&& d.unmapped_global == c.unmapped_global + drop_notes(c.peers)
            &&& d.peers.len() == startable(c.peers).len()
            &&& d.ext_global == c.ext_global
            &&& forall|i: int|
                0 <= i < d.peers.len() ==> #[trigger] d.peers[i] == settled_peer(
                    startable(c.peers)[i],
                    c.route_maps,
                )
        }),
{
}

/// The lines of a BIRD configuration are taken in order; one outside captured
/// blocks has its directive first, and then what it starts or states.
pub proof fn bird_lines_are_taken_in_order(st: BirdModel, ls: Seq<Seq<char>>, raw: Seq<char>)
    ensures
        bird_fold(st, Seq::empty()) == st,
        bird_fold(st, ls.push(raw)) == bird_step(bird_fold(st, ls), raw),
        st.capture is None ==> ({
            let line = code_of(raw);
            let s = with_directive(st, raw);
            let ts = words_of(line);
            let o = count_of(line, '{');
            let c = count_of(line, '}');
            let q = bird_step(st, raw);
            let begins = s.current is None && started(s, ts, line) is Some;
            &&& ts.len() == 0 ==> q == s
            &&& ts.len() > 0 && begins ==> q == (BirdModel {
                other_depth: 0,
                ..started(s, ts, line)->0
            })
            &&& ts.len() > 0 && !begins ==> {
                let t = static_boundary(
                    peer_boundary(bird_statement(static_opened(s, ts), ts, line), o, c),
                    o,
                    c,
                );
                q == (BirdModel { other_depth: q.other_depth, ..t })
            }
        }),
{
    assert(ls.push(raw).drop_last() =~= ls);
}

/// A static stanza opens with its line.
pub proof fn static_stanzas_open(st: BirdModel, ts: Seq<Seq<char>>)
    requires
        ts.len() >= 2,
    ensures
        ts[0] == "protocol"@ && ts[1] == "static"@ ==> static_opened(st, ts) == (BirdModel {
            in_static: true,
            static_depth: 0,
            ..st
        }),
        ts[0] != "protocol"@ || ts[1] != "static"@ ==> static_opened(st, ts) == st,
{
}

/// A BIRD configuration is what its lines leave: the peers that can start, with
/// their families, a note on each that cannot, its filters, its authorisations,
/// and its attachments in order.
pub proof fn bird_configs_are_resolved(
    text: Seq<char>,
    filters: Seq<CompileOutcome>,
    wheres: Seq<CompileOutcome>,
    ps: Seq<PeerModel>,
    p: PeerModel,
)
    ensures
        ({
            let st = bird_scan(text);
            let c = settled_peers(st);
            let f = filters_of(st.src, filters);
            let peers = with_current(st.out.peers, st.current);
            &&& c == (ConfigModel { peers: c.peers, unmapped_global: c.unmapped_global, ..st.out })
            &&& c.peers == kept_peers(peers)
            &&& c.unmapped_global == st.out.unmapped_global + stanza_notes(peers)
            &&& bird_config(text, filters, wheres) == attach_all(
                ConfigModel {
                    filters: f.ok,
                    failed_filters: f.failed,
                    roas: all_roas(st.src.roa_tables),
                    ..c
                },
                st.pending,
                st.src,
                wheres,
            )
        }),
        kept_peers(ps.push(p)) == (if p.remote is Some && p.peer_as is Some {
            kept_peers(ps).push(with_families(p))
        } else {
            kept_peers(ps)
        }),
        p.remote is Some && p.peer_as is Some ==> stanza_notes(ps.push(p)) == stanza_notes(ps),
        !(p.remote is Some && p.peer_as is Some) ==> stanza_notes(ps.push(p)).len() == stanza_notes(
            ps,
        ).len() + 1,
{
    assert(ps.push(p).drop_last() =~= ps);
}

/// The attachments are made in order, each with what the compiler made of it.
pub proof fn attachments_are_made_in_order(
    c: ConfigModel,
    pending: Seq<PendingModel>,
    p: PendingModel,
    src: SourceModel,
    outcomes: Seq<CompileOutcome>,
    o: CompileOutcome,
)
    requires
        outcomes.len() == pending.len(),
    ensures
        attach_all(c, Seq::empty(), src, Seq::empty()) == c,
        attach_all(c, pending.push(p), src, outcomes.push(o)) == attach_one(
            attach_all(c, pending, src, outcomes),
            p,
            where_result(pending_draft(p, src), o),
        ),
{
    assert(pending.push(p).drop_last() =~= pending);
    assert(outcomes.push(o).drop_last() =~= outcomes);
}

/// An interface over text is the interface, part by part.
pub proof fn interfaces_are_seen_as_they_are(a: OspfDaemon, b: Ospf3Daemon, i: int)
    ensures
        0 <= i < a.interfaces@.len() ==> {
            let x = a.interfaces@[i];
            let m = models(a.interfaces@)[i];
            m.name == x.name@ && m.addrs == x.addrs@ && m.core == x.core && m.heard == x.heard@
        },
        0 <= i < b.interfaces@.len() ==> {
            let x = b.interfaces@[i];
            let m = models3(b.interfaces@)[i];
            m.name == x.name@ && m.prefixes == x.prefixes@ && m.core == x.core && m.heard == x.heard@
        },
        models(a.interfaces@).len() == a.interfaces@.len(),
        models3(b.interfaces@).len() == b.interfaces@.len(),
{
}

/// A result over text succeeds and fails as the result does.
pub proof fn results_are_seen_as_they_are<T: View>(
    r: Result<T, String>,
    l: Result<Vec<T>, String>,
)
    ensures
        r is Ok ==> built(r) == Ok::<T::V, Seq<char>>(r->Ok_0@),
        r is Err ==> built(r) == Err::<T::V, Seq<char>>(r->Err_0@),
        l is Ok ==> built_list(l) == Ok::<Seq<T::V>, Seq<char>>(views(l->Ok_0@)),
        l is Err ==> built_list(l) == Err::<Seq<T::V>, Seq<char>>(l->Err_0@),
{
}

} // verus!
