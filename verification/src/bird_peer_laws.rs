//! What the statements of a BIRD `protocol bgp` stanza mean for the peer.

use crate::bird::{
    bird_statement, channel_effect, channel_statement, local_effect, neighbor_peer, peer_name,
    statement_of, value_of, with_current, BirdModel, Statement,
};
use crate::bird_config::{
    attach_all, attach_one, bird_config, bird_scan, kept_peers, settled_peers, with_families,
};
use crate::bird_filter::Translated;
use crate::bird_laws::peer_named_in;
use crate::bird_scan::{cleaned, import_export, local_as_effect, PeerScan, PendingModel};
use crate::bird_set::{all_roas, filters_of, CompileOutcome, SourceModel};
use crate::conf::{ConfigModel, PeerModel};
use crate::render::rendered;
use crate::render_laws::{deny_maps_are_rendered, has};
use crate::text::{next_char, trim_char_of, trim_end_char_of, trim_of, u32_of, words_of};
use vstd::prelude::*;
use vstd::string::*;

verus! {

/// Two peers that agree on everything but their policies, filters and notes.
pub open spec fn same_session(a: PeerModel, b: PeerModel) -> bool {
    &&& a.name == b.name
    &&& a.remote == b.remote
    &&& a.remote_port == b.remote_port
    &&& a.peer_as == b.peer_as
    &&& a.local_address == b.local_address
    &&& a.md5_key == b.md5_key
    &&& a.hold_time == b.hold_time
    &&& a.bfd == b.bfd
    &&& a.tcp_ao_keys == b.tcp_ao_keys
    &&& a.ext == b.ext
}

/// `none` closes one direction with the deny-all route-map of that direction
/// and leaves everything else as it was.
pub proof fn none_closes_one_direction(s: PeerScan, name: Seq<char>, import: bool)
    ensures
        ({
            let r = import_export(s, name, import, "none"@);
            &&& r.pending == s.pending
            &&& import ==> r.peer.import == Some("translate-import-deny"@) && r.peer.export
                == s.peer.export
            &&& !import ==> r.peer.export == Some("translate-export-deny"@) && r.peer.import
                == s.peer.import
            &&& same_session(r.peer, s.peer)
            &&& r.peer.import_filter == s.peer.import_filter
            &&& r.peer.export_filter == s.peer.export_filter
            &&& r.peer.unmapped == s.peer.unmapped
        }),
{
    reveal_strlit("none");
    reveal_strlit("all");
    reveal_strlit("filter ");
    reveal_strlit("where ");
    assert("none"@.len() != "all"@.len());
}

/// `all` is what an unfiltered session does: nothing changes.
pub proof fn all_changes_nothing(s: PeerScan, name: Seq<char>, import: bool)
    ensures
        import_export(s, name, import, "all"@) == s,
{
    reveal_strlit("all");
    reveal_strlit("filter ");
    reveal_strlit("where ");
}

/// A policy that is neither `all` nor `none`, nor names or writes a filter,
/// leaves both directions as they were, and a note that names the direction and
/// the policy.
pub proof fn other_policies_are_noted(
    s: PeerScan,
    name: Seq<char>,
    import: bool,
    value: Seq<char>,
)
    requires
        value != "all"@,
        value != "none"@,
        !(value.len() >= 7 && value.subrange(0, 7) == "filter "@),
        !(value.len() >= 6 && value.subrange(0, 6) == "where "@),
    ensures
        ({
            let r = import_export(s, name, import, value);
            &&& r.pending == s.pending
            &&& r.peer.import == s.peer.import
            &&& r.peer.export == s.peer.export
            &&& same_session(r.peer, s.peer)
            &&& r.peer.unmapped == s.peer.unmapped.push(
                (if import {
                    "import "@
                } else {
                    "export "@
                }) + value,
            )
        }),
{
    reveal_strlit("filter ");
    reveal_strlit("where ");
    reveal_strlit("import ");
    reveal_strlit("export ");
    reveal_strlit("import");
    reveal_strlit("export");
    reveal_strlit(" ");
    assert("import"@ + " "@ =~= "import "@);
    assert("export"@ + " "@ =~= "export "@);
    assert("import"@ + " "@ + value =~= "import "@ + value);
    assert("export"@ + " "@ + value =~= "export "@ + value);
}

/// `filter NAME` and `where EXPRESSION` wait as an attachment of that peer, in
/// that direction, with the name or the expression; the peer is as it was.
pub proof fn filters_wait_for_their_direction(
    s: PeerScan,
    name: Seq<char>,
    import: bool,
    text: Seq<char>,
)
    requires
        trim_of(text) == text,
        text.len() > 0 && text[0] != '{',
    ensures
        import_export(s, name, import, "filter "@ + text) == (PeerScan {
            peer: s.peer,
            pending: s.pending.push(PendingModel { peer: name, import, inline: false, text }),
        }),
        import_export(s, name, import, "where "@ + text) == (PeerScan {
            peer: s.peer,
            pending: s.pending.push(PendingModel { peer: name, import, inline: true, text }),
        }),
{
    reveal_strlit("filter ");
    reveal_strlit("where ");
    reveal_strlit("{");
    let f = "filter "@ + text;
    let w = "where "@ + text;
    assert(f.subrange(0, 7) =~= "filter "@);
    assert(f.subrange(7, f.len() as int) =~= text);
    assert(w.subrange(0, 6) =~= "where "@);
    assert(w.subrange(6, w.len() as int) =~= text);
    assert(w[0] == 'w' && "filter "@[0] == 'f');
    assert(!(w.len() >= 7 && w.subrange(0, 7) == "filter "@)) by {
        if w.len() >= 7 && w.subrange(0, 7) == "filter "@ {
            assert(w.subrange(0, 7)[0] == 'w');
        }
    }
    assert(text.subrange(0, 1)[0] == text[0]);
}

/// The statement `import VALUE` or `export VALUE` of an open stanza, on a line
/// of its own, concerns its own direction of the peer of the stanza.
pub proof fn policies_concern_their_direction(st: BirdModel, ts: Seq<Seq<char>>, line: Seq<char>)
    requires
        st.current is Some,
        ts.len() == 2,
        ts[0] == "import"@ || ts[0] == "export"@,
    ensures
        ({
            let p = st.current->0;
            let next = bird_statement(st, ts, line);
            let s = PeerScan { peer: p, pending: st.pending };
            let name = match p.name {
                Some(n) => n,
                None => "peer"@,
            };
            let r = import_export(s, name, ts[0] == "import"@, cleaned(ts[1]));
            &&& next.current == Some(r.peer)
            &&& next.pending == r.pending
            &&& next.out == st.out
            &&& cleaned(ts[1]) == "none"@ && ts[0] == "export"@ ==> next.current->0.export == Some(
                "translate-export-deny"@,
            ) && next.current->0.import == p.import
            &&& cleaned(ts[1]) == "none"@ && ts[0] == "import"@ ==> next.current->0.import == Some(
                "translate-import-deny"@,
            ) && next.current->0.export == p.export
        }),
{
    words_differ();
    let tail = ts.subrange(1, 2);
    assert(value_of(ts) == cleaned(ts[1]));
    assert(statement_of(ts, line, st.in_static, true) == Statement::Policy);
    let s = PeerScan { peer: st.current->0, pending: st.pending };
    none_closes_one_direction(s, peer_name(s.peer), ts[0] == "import"@);
}

/// The keywords of the statements are different words.
proof fn words_differ()
    ensures
        "import"@ != "export"@,
        "route"@ != "router"@,
        "ipv4"@ != "ipv6"@,
        "protocol"@ != "route"@ && "protocol"@ != "router"@,
        "local"@ != "route"@ && "local"@ != "router"@ && "local"@ != "protocol"@,
        "neighbor"@ != "route"@ && "neighbor"@ != "router"@ && "neighbor"@ != "protocol"@
            && "neighbor"@ != "local"@,
        "password"@ != "route"@ && "password"@ != "router"@ && "password"@ != "protocol"@
            && "password"@ != "local"@ && "password"@ != "neighbor"@,
        "hold"@ != "route"@ && "hold"@ != "router"@ && "hold"@ != "protocol"@ && "hold"@ != "local"@
            && "hold"@ != "neighbor"@ && "hold"@ != "password"@ && "hold"@ != "ipv4"@ && "hold"@
            != "ipv6"@,
        "bfd"@ != "route"@ && "bfd"@ != "router"@ && "bfd"@ != "protocol"@ && "bfd"@ != "local"@
            && "bfd"@ != "neighbor"@ && "bfd"@ != "password"@ && "bfd"@ != "ipv4"@ && "bfd"@
            != "ipv6"@ && "bfd"@ != "hold"@,
        "import"@ != "route"@ && "import"@ != "router"@ && "import"@ != "protocol"@ && "import"@
            != "local"@ && "import"@ != "neighbor"@ && "import"@ != "password"@ && "import"@
            != "ipv4"@ && "import"@ != "ipv6"@ && "import"@ != "hold"@ && "import"@ != "bfd"@,
        "export"@ != "route"@ && "export"@ != "router"@ && "export"@ != "protocol"@ && "export"@
            != "local"@ && "export"@ != "neighbor"@ && "export"@ != "password"@ && "export"@
            != "ipv4"@ && "export"@ != "ipv6"@ && "export"@ != "hold"@ && "export"@ != "bfd"@,
        "ipv4"@ != "route"@ && "ipv4"@ != "router"@ && "ipv4"@ != "protocol"@ && "ipv4"@ != "local"@
            && "ipv4"@ != "neighbor"@ && "ipv4"@ != "password"@,
        "ipv6"@ != "route"@ && "ipv6"@ != "router"@ && "ipv6"@ != "protocol"@ && "ipv6"@ != "local"@
            && "ipv6"@ != "neighbor"@ && "ipv6"@ != "password"@,
{
    reveal_strlit("route");
    reveal_strlit("router");
    reveal_strlit("protocol");
    reveal_strlit("local");
    reveal_strlit("neighbor");
    reveal_strlit("password");
    reveal_strlit("ipv4");
    reveal_strlit("ipv6");
    reveal_strlit("hold");
    reveal_strlit("bfd");
    reveal_strlit("import");
    reveal_strlit("export");
    assert("route"@.len() != "router"@.len());
    assert("ipv4"@[3] == '4' && "ipv6"@[3] == '6');
    assert("import"@[0] == 'i' && "export"@[0] == 'e' && "router"@[0] == 'r');
    assert("local"@[0] == 'l' && "route"@[0] == 'r');
    assert("neighbor"@[0] == 'n' && "password"@[0] == 'p' && "protocol"@[0] == 'p');
    assert("password"@[1] == 'a' && "protocol"@[1] == 'r');
    assert("ipv4"@[0] == 'i' && "hold"@[0] == 'h' && "ipv6"@[0] == 'i');
}

/// `neighbor ADDRESS as NUMBER` gives the peer its address and AS, and `port`
/// between them goes behind the address; nothing else changes.
pub proof fn neighbors_give_address_and_as(st: BirdModel, ts: Seq<Seq<char>>, line: Seq<char>)
    requires
        st.current is Some,
        ts[0] == "neighbor"@,
        ts.len() == 4 || ts.len() == 6,
        ts[ts.len() - 2] == "as"@,
        ts.len() == 6 ==> ts[2] == "port"@ && ts[3] != "port"@ && ts[3] != "as"@,
        ts.last() != "port"@ && ts.last() != "as"@,
        next_char(ts[1], 0, '/') == ts[1].len(),
    ensures
        ({
            let p = st.current->0;
            let next = bird_statement(st, ts, line);
            let q = next.current->0;
            &&& next.current is Some
            &&& q.remote == Some(
                if ts.len() == 6 {
                    ts[1] + ":"@ + ts[3]
                } else {
                    ts[1]
                },
            )
            &&& q.peer_as == u32_of(trim_end_char_of(ts.last(), ';'))
            &&& q == PeerModel { remote: q.remote, peer_as: q.peer_as, ..p }
            &&& next.out == st.out
            &&& next.pending == st.pending
        }),
{
    words_differ();
    reveal_strlit("as");
    reveal_strlit("port");
    let n = ts.len() as int;
    assert(ts[n - 2] == "as"@);
    assert(statement_of(ts, line, st.in_static, true) == Statement::Neighbor);
    assert("as"@.len() != "port"@.len());
    reveal_with_fuel(crate::bird::neighbor_clauses, 6);
}

/// A range of neighbors leaves the peer as it was, with the line as a note.
pub proof fn neighbor_ranges_are_noted(p: PeerModel, ts: Seq<Seq<char>>, line: Seq<char>)
    requires
        ts.len() >= 2,
        next_char(ts[1], 0, '/') < ts[1].len(),
    ensures
        neighbor_peer(p, ts, line) == (PeerModel {
            unmapped: p.unmapped.push(trim_of(line)),
            ..p
        }),
{
}

/// The first `local as` decides the daemon's AS, and a differing one is noted
/// with its peer; the peer keeps all else.
pub proof fn first_local_as_decides(global: Option<u32>, p: PeerModel, text: Seq<char>)
    ensures
        ({
            let (g, q) = local_as_effect(global, p, text);
            &&& global is Some ==> g == global
            &&& global is None ==> g == u32_of(text)
            &&& q == PeerModel { unmapped: q.unmapped, ..p }
            &&& u32_of(text) is Some && (global is None || global == u32_of(text)) ==> q == p
            &&& u32_of(text) is None || (global is Some && global != u32_of(text))
                ==> q.unmapped.len() == p.unmapped.len() + 1 && q.unmapped.drop_last()
                == p.unmapped
        }),
{
    let (g, q) = local_as_effect(global, p, text);
    if q != p {
        assert(q.unmapped.drop_last() =~= p.unmapped);
    }
}

/// `local ADDRESS as NUMBER` gives the peer its own address, and
/// `local as NUMBER` none; the AS goes to the daemon.
pub proof fn locals_give_address_and_as(global: Option<u32>, p: PeerModel, ts: Seq<Seq<char>>)
    requires
        ts.len() == 3 || ts.len() == 4,
        ts[ts.len() - 2] == "as"@,
        ts.len() == 4 ==> ts[1] != "as"@ && ts[1] != "address"@ && ts[1] != "port"@,
    ensures
        ({
            let (g, q) = local_effect(global, p, ts);
            let own = PeerModel {
                local_address: if ts.len() == 4 {
                    Some(cleaned(ts[1]))
                } else {
                    p.local_address
                },
                ..p
            };
            &&& q.local_address == own.local_address
            &&& (g, q) == local_as_effect(global, own, cleaned(ts.last()))
            &&& global is None ==> g == u32_of(cleaned(ts.last()))
            &&& q.remote == p.remote && q.peer_as == p.peer_as && q.import == p.import && q.export
                == p.export
        }),
{
    reveal_with_fuel(crate::bird::local_clauses, 6);
    first_local_as_decides(global, p, cleaned(ts.last()));
}

/// `password "SECRET"` gives the peer its key, without the quotes; nothing else
/// changes.
pub proof fn passwords_become_keys(st: BirdModel, ts: Seq<Seq<char>>, line: Seq<char>)
    requires
        st.current is Some,
        ts.len() >= 2,
        ts[0] == "password"@,
    ensures
        bird_statement(st, ts, line) == (BirdModel {
            current: Some(
                PeerModel { md5_key: Some(trim_char_of(cleaned(ts[1]), '"')), ..st.current->0 },
            ),
            ..st
        }),
{
    words_differ();
    assert(statement_of(ts, line, st.in_static, true) == Statement::Password);
}

/// `hold time NUMBER` gives the peer its hold time; one that is no number leaves
/// it without one, and a note.
pub proof fn hold_times_are_numbers(st: BirdModel, ts: Seq<Seq<char>>, line: Seq<char>)
    requires
        st.current is Some,
        ts.len() >= 3,
        ts[0] == "hold"@,
        ts[1] == "time"@,
    ensures
        ({
            let p = st.current->0;
            let next = bird_statement(st, ts, line);
            let q = next.current->0;
            &&& next == BirdModel { current: Some(q), ..st }
            &&& q == PeerModel { hold_time: q.hold_time, unmapped: q.unmapped, ..p }
            &&& q.hold_time == u32_of(trim_end_char_of(ts[2], ';'))
            &&& q.hold_time is Some ==> q.unmapped == p.unmapped
            &&& q.hold_time is None ==> q.unmapped == p.unmapped.push(trim_of(line))
        }),
{
    words_differ();
    assert(statement_of(ts, line, st.in_static, true) == Statement::HoldTime);
}

/// `bfd`, but for `bfd off`, switches BFD on for the peer, and `bfd off` off.
pub proof fn bfd_is_on_unless_off(st: BirdModel, ts: Seq<Seq<char>>, line: Seq<char>)
    requires
        st.current is Some,
        ts.len() >= 1,
        ts[0] == "bfd"@,
    ensures
        ({
            let next = bird_statement(st, ts, line);
            let q = next.current->0;
            &&& next == BirdModel { current: Some(q), ..st }
            &&& q == PeerModel { bfd: q.bfd, ..st.current->0 }
            &&& ts.len() == 1 ==> q.bfd == Some(true)
            &&& ts.len() >= 2 && cleaned(ts[1]) == "off"@ ==> q.bfd == Some(false)
            &&& ts.len() >= 2 && cleaned(ts[1]) != "off"@ ==> q.bfd == Some(true)
        }),
{
    words_differ();
    assert(statement_of(ts, line, st.in_static, true) == Statement::Bfd);
}

/// A channel line with nothing but braces behind it opens the channel of its
/// family, and does nothing else.
pub proof fn channels_open_their_family(s: PeerScan, ts: Seq<Seq<char>>, line: Seq<char>)
    requires
        ts.len() >= 1,
        ts[0] == "ipv4"@ || ts[0] == "ipv6"@,
        forall|i: int, k: int|
            1 <= i < ts.len() && 0 <= k < ts[i].len() ==> #[trigger] ts[i][k] == '{' || ts[i][k]
                == '}',
    ensures
        ({
            let r = channel_effect(s, ts, line);
            &&& r.pending == s.pending
            &&& r.peer == PeerModel {
                channel_v4: s.peer.channel_v4 || ts[0] == "ipv4"@,
                channel_v6: s.peer.channel_v6 || ts[0] == "ipv6"@,
                ..s.peer
            }
        }),
{
    words_differ();
    assert(!crate::bird::has_body(ts)) by {
        assert forall|i: int| 1 <= i < ts.len() implies !crate::bird::beyond_braces(
            #[trigger] ts[i],
        ) by {
            assert forall|k: int| 0 <= k < ts[i].len() implies #[trigger] ts[i][k] == '{' || ts[i][k]
                == '}' by {}
        }
    }
}

/// A statement of an inline channel body that sets no policy leaves the peer as
/// it was, with the statement as a note.
pub proof fn other_channel_statements_are_noted(s: PeerScan, stmt: Seq<char>)
    requires
        trim_of(stmt).len() > 0,
        !(trim_of(stmt).len() >= 6 && (trim_of(stmt).subrange(0, 6) == "import"@ || trim_of(
            stmt,
        ).subrange(0, 6) == "export"@)),
    ensures
        channel_statement(s, stmt) == (PeerScan {
            peer: PeerModel { unmapped: s.peer.unmapped.push(trim_of(stmt)), ..s.peer },
            ..s
        }),
{
    reveal_strlit("import");
    reveal_strlit("export");
}

/// A policy of an inline channel body is that of its own direction.
pub proof fn channel_policies_concern_their_direction(s: PeerScan, stmt: Seq<char>)
    requires
        trim_of(stmt).len() >= 6,
        trim_of(stmt).subrange(0, 6) == "import"@ || trim_of(stmt).subrange(0, 6) == "export"@,
        words_of(trim_of(stmt)).len() == 2,
    ensures
        ({
            let v = cleaned(words_of(trim_of(stmt))[1]);
            let import = trim_of(stmt)[0] == 'i';
            let r = channel_statement(s, stmt);
            &&& r == import_export(s, peer_name(s.peer), import, v)
            &&& v == "none"@ && import ==> r.peer.import == Some("translate-import-deny"@)
                && r.peer.export == s.peer.export
            &&& v == "none"@ && !import ==> r.peer.export == Some("translate-export-deny"@)
                && r.peer.import == s.peer.import
        }),
{
    reveal_strlit("import");
    reveal_strlit("export");
    let t = trim_of(stmt);
    assert(t.subrange(0, 6)[0] == t[0]);
    let ws = words_of(t);
    assert(value_of(ws) == cleaned(ws[1]));
    none_closes_one_direction(s, peer_name(s.peer), t[0] == 'i');
}

/// `route PREFIX` of a static protocol becomes a network, the last of them; a
/// route elsewhere does not.
pub proof fn static_routes_become_networks(st: BirdModel, ts: Seq<Seq<char>>, line: Seq<char>)
    requires
        ts.len() >= 2,
        ts[0] == "route"@,
        next_char(ts[1], 0, '/') < ts[1].len(),
    ensures
        st.in_static ==> bird_statement(st, ts, line) == (BirdModel {
            out: ConfigModel { networks: st.out.networks.push(cleaned(ts[1])), ..st.out },
            ..st
        }),
        !st.in_static ==> bird_statement(st, ts, line).out.networks == st.out.networks,
{
    words_differ();
}

/// `router id ADDRESS` is the daemon's, unless it stands in the stanza of
/// another protocol.
pub proof fn router_ids_are_the_daemons(st: BirdModel, ts: Seq<Seq<char>>, line: Seq<char>)
    requires
        ts.len() >= 3,
        ts[0] == "router"@,
        ts[1] == "id"@,
    ensures
        st.other_depth == 0 ==> bird_statement(st, ts, line) == (BirdModel {
            out: ConfigModel { router_id: Some(cleaned(ts[2])), ..st.out },
            ..st
        }),
        st.other_depth > 0 ==> bird_statement(st, ts, line) == st,
{
    words_differ();
}

/// `protocol bgp NAME` starts a peer of that name with nothing set, and the
/// peer before it stays.
pub proof fn protocols_start_their_peer(st: BirdModel, ts: Seq<Seq<char>>, line: Seq<char>)
    requires
        ts.len() >= 3,
        ts[0] == "protocol"@,
        ts[1] == "bgp"@,
    ensures
        ({
            let next = bird_statement(st, ts, line);
            let q = next.current->0;
            &&& next.current is Some
            &&& q.name == Some(ts[2])
            &&& q.remote is None && q.peer_as is None && q.import is None && q.export is None
            &&& q.import_filter is None && q.export_filter is None && q.md5_key is None
            &&& !q.channel_v4 && !q.channel_v6
            &&& st.current is None ==> next.out.peers == st.out.peers
            &&& st.current is Some ==> next.out.peers == st.out.peers.push(st.current->0)
        }),
{
    words_differ();
    reveal_strlit("protocol");
}

/// IPv6 alone switches IPv4 off, both channels name both families, and IPv4
/// alone or no channel is the daemon's default; the policies stay.
pub proof fn families_follow_the_channels(p: PeerModel)
    ensures
        ({
            let q = with_families(p);
            &&& p.channel_v6 ==> q.families.contains("ipv6-unicast"@)
            &&& p.channel_v6 && p.channel_v4 ==> q.families.contains("ipv4-unicast"@)
                && q.families.len() == 2 && q.default_ipv4_unicast == p.default_ipv4_unicast
            &&& p.channel_v6 && !p.channel_v4 ==> q.families.len() == 1 && q.default_ipv4_unicast
                == Some(false)
            &&& !p.channel_v6 ==> q == p
            &&& same_session(q, p)
            &&& q.import == p.import && q.export == p.export
            &&& q.import_filter == p.import_filter && q.export_filter == p.export_filter
            &&& q.unmapped == p.unmapped
        }),
{
    let q = with_families(p);
    if p.channel_v6 && p.channel_v4 {
        assert(q.families[0] == "ipv4-unicast"@ && q.families[1] == "ipv6-unicast"@);
    } else if p.channel_v6 {
        assert(q.families[0] == "ipv6-unicast"@);
    }
}

/// A peer of `a` is in `b`, with its session, policies and notes.
pub open spec fn arrives(p: PeerModel, b: Seq<PeerModel>) -> bool {
    exists|j: int|
        0 <= j < b.len() && same_session(#[trigger] b[j], p) && b[j].import == p.import
            && b[j].export == p.export && p.unmapped.len() <= b[j].unmapped.len()
}

proof fn complete_peers_are_kept(peers: Seq<PeerModel>, i: int)
    requires
        0 <= i < peers.len(),
        peers[i].remote is Some && peers[i].peer_as is Some,
    ensures
        exists|j: int|
            0 <= j < kept_peers(peers).len() && #[trigger] kept_peers(peers)[j] == with_families(
                peers[i],
            ),
    decreases peers.len(),
{
    let before = kept_peers(peers.drop_last());
    let all = kept_peers(peers);
    if i < peers.len() - 1 {
        complete_peers_are_kept(peers.drop_last(), i);
        let j = choose|j: int| 0 <= j < before.len() && #[trigger] before[j] == with_families(peers[i]);
        assert(all[j] == with_families(peers[i]));
    } else {
        assert(all[all.len() - 1] == with_families(peers[i]));
    }
}

proof fn attachments_keep_peers(c: ConfigModel, p: PendingModel, body: Translated, i: int)
    requires
        0 <= i < c.peers.len(),
    ensures
        attach_one(c, p, body).peers.len() == c.peers.len(),
        ({
            let q = attach_one(c, p, body).peers[i];
            &&& same_session(q, c.peers[i])
            &&& q.import == c.peers[i].import
            &&& q.export == c.peers[i].export
            &&& c.peers[i].unmapped.len() <= q.unmapped.len()
        }),
{
    peer_named_in(c.peers, 0, p.peer);
}

proof fn all_attachments_keep_peers(
    c: ConfigModel,
    pending: Seq<PendingModel>,
    src: SourceModel,
    outcomes: Seq<CompileOutcome>,
    i: int,
)
    requires
        0 <= i < c.peers.len(),
    ensures
        attach_all(c, pending, src, outcomes).peers.len() == c.peers.len(),
        ({
            let q = attach_all(c, pending, src, outcomes).peers[i];
            &&& same_session(q, c.peers[i])
            &&& q.import == c.peers[i].import
            &&& q.export == c.peers[i].export
            &&& c.peers[i].unmapped.len() <= q.unmapped.len()
        }),
    decreases pending.len(),
{
    if pending.len() > 0 && outcomes.len() == pending.len() {
        all_attachments_keep_peers(c, pending.drop_last(), src, outcomes.drop_last(), i);
        let d = attach_all(c, pending.drop_last(), src, outcomes.drop_last());
        attachments_keep_peers(
            d,
            pending.last(),
            crate::bird_set::where_result(
                crate::bird_config::pending_draft(pending.last(), src),
                outcomes.last(),
            ),
            i,
        );
    }
}

/// Every complete peer of the source arrives in the configuration with its
/// session and its policies, whatever the filters come to.
pub proof fn complete_peers_arrive(
    text: Seq<char>,
    i: int,
    filters: Seq<CompileOutcome>,
    wheres: Seq<CompileOutcome>,
)
    requires
        ({
            let st = bird_scan(text);
            let peers = with_current(st.out.peers, st.current);
            0 <= i < peers.len() && peers[i].remote is Some && peers[i].peer_as is Some
        }),
    ensures
        ({
            let st = bird_scan(text);
            arrives(
                with_current(st.out.peers, st.current)[i],
                bird_config(text, filters, wheres).peers,
            )
        }),
{
    let st = bird_scan(text);
    let peers = with_current(st.out.peers, st.current);
    complete_peers_are_kept(peers, i);
    let kept = kept_peers(peers);
    let j = choose|j: int| 0 <= j < kept.len() && #[trigger] kept[j] == with_families(peers[i]);
    let f = filters_of(st.src, filters);
    let c = ConfigModel {
        filters: f.ok,
        failed_filters: f.failed,
        roas: all_roas(st.src.roa_tables),
        ..settled_peers(st)
    };
    families_follow_the_channels(peers[i]);
    all_attachments_keep_peers(c, st.pending, st.src, wheres, j);
    assert(same_session(bird_config(text, filters, wheres).peers[j], peers[i]));
}

/// A peer with a closed direction stands in the rendering with a route-map that
/// permits nothing.
pub proof fn closed_directions_permit_nothing(c: ConfigModel, i: int)
    requires
        0 <= i < c.peers.len(),
    ensures
        c.peers[i].import == Some("translate-import-deny"@) ==> has(
            rendered(c),
            "[[route-map]]\n"@ + "name = \""@ + "translate-import-deny"@ + "\"\n"@ + "entry = 10\n"@
                + "permit = false\n\n"@,
        ),
        c.peers[i].export == Some("translate-export-deny"@) ==> has(
            rendered(c),
            "[[route-map]]\n"@ + "name = \""@ + "translate-export-deny"@ + "\"\n"@ + "entry = 10\n"@
                + "permit = false\n\n"@,
        ),
{
    if c.peers[i].import == Some("translate-import-deny"@) {
        deny_maps_are_rendered(c, i, "translate-import-deny"@);
    }
    if c.peers[i].export == Some("translate-export-deny"@) {
        deny_maps_are_rendered(c, i, "translate-export-deny"@);
    }
}

} // verus!
