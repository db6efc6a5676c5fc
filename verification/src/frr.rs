//! FRR bgpd configurations: `router bgp` with its `neighbor` lines, and the
//! policy tables. A statement without an equivalent is kept as a note.

use crate::address::{address_text, is_address, is_prefix, prefix_text};
use crate::conf::{
    bare_entry, blank_config, blank_peer, with_note, AsPathListModel, AsPathListRow,
    CommunityListModel, CommunityListRow, ConfigModel, ConfigOut, PeerModel, PeerOut,
    PrefixListModel, PrefixListRow, RouteMapModel, RouteMapRow,
};
use crate::directives::{
    attach_peer_directive, attached, directive_of, lr_marker_body, marker_body, parse_lr_body,
};
use crate::frr_values::{
    are_as_numbers, are_communities, as_numbers, communities, entry_understood, is_entry_understood,
    is_list_understood, list_understood,
};
use crate::table::take_step;
use crate::text::{
    cat, chars_of, contains_char, is_word, join, join_from, joined_by, lines, lines_of, lists_text,
    next_char, no_items, opt_is, opt_view, own, own_opt, push_view, read_u16, read_u32, read_u8,
    same, seek_char, starts, starts_with, text_of, trim, trim_end_char, trim_end_char_of, trim_of,
    u16_of, u32_of, u8_of, views, word_is, words, words_of, words_tail,
};
use vstd::prelude::*;
use vstd::string::*;

verus! {

/// A line without its comment.
pub open spec fn code_of(s: Seq<char>) -> Seq<char> {
    s.subrange(0, next_char(s, 0, '#'))
}

/// Strips the comment of a line. A `#` inside quotes counts too.
pub fn strip_comments(s: &str) -> (r: String)
    ensures
        r@ == code_of(s@),
{
    let v = chars_of(s);
    let i: usize = seek_char(&v, 0, '#');
    text_of(&v, 0, i)
}

/// What is known while an FRR configuration is read.
pub struct FrrState {
    pub out: ConfigOut,
    /// The address family of the enclosing block.
    pub af: Option<String>,
    /// Inside the stanza of a protocol, or of a VRF, that is not covered.
    pub skipping: bool,
}

/// The same over text.
#[verifier::ext_equal]
pub struct FrrModel {
    pub out: ConfigModel,
    pub af: Option<Seq<char>>,
    pub skipping: bool,
}

impl View for FrrState {
    type V = FrrModel;

    open spec fn view(&self) -> FrrModel {
        FrrModel { out: self.out@, af: opt_view(self.af), skipping: self.skipping }
    }
}

/// The place of the peer at `addr`, or the count.
pub open spec fn peer_at(peers: Seq<PeerModel>, i: int, addr: Seq<char>) -> int
    decreases peers.len() - i,
{
    if i < 0 || i >= peers.len() {
        peers.len() as int
    } else if peers[i].remote == Some(addr) {
        i
    } else {
        peer_at(peers, i + 1, addr)
    }
}

/// A peer of which only the address is known.
pub open spec fn stub_peer(addr: Seq<char>) -> PeerModel {
    PeerModel { remote: Some(addr), name: Some("neighbor-"@ + addr), ..blank_peer() }
}

/// The peers with one at `addr`: a stub joins where there was none.
pub open spec fn with_peer(peers: Seq<PeerModel>, addr: Seq<char>) -> Seq<PeerModel> {
    if peer_at(peers, 0, addr) < peers.len() {
        peers
    } else {
        peers.push(stub_peer(addr))
    }
}

/// Where `peer_at` lands.
proof fn peer_at_is(peers: Seq<PeerModel>, i: int, addr: Seq<char>, j: int)
    requires
        0 <= i <= j <= peers.len(),
        forall|k: int| i <= k < j ==> (#[trigger] peers[k]).remote != Some(addr),
        j < peers.len() ==> peers[j].remote == Some(addr),
    ensures
        peer_at(peers, i, addr) == j,
    decreases j - i,
{
    if i < j {
        peer_at_is(peers, i + 1, addr, j);
    }
}

/// Finds the peer at `addr`, making a stub on first reference. Hands back its
/// place.
pub fn peer_for_or_create(out: &mut ConfigOut, addr: &str) -> (i: usize)
    ensures
        final(out)@ == (ConfigModel { peers: with_peer(old(out)@.peers, addr@), ..old(out)@ }),
        i == peer_at(old(out)@.peers, 0, addr@),
        i < final(out).peers@.len(),
{
    let ghost peers = views(out.peers@);
    let mut i: usize = 0;
    while i < out.peers.len() && !opt_is(&out.peers[i].remote, addr)
        invariant
            i <= out.peers@.len(),
            *out == *old(out),
            peers == views(out.peers@),
            forall|k: int| 0 <= k < i ==> (#[trigger] peers[k]).remote != Some(addr@),
        decreases out.peers@.len() - i,
    {
        i += 1;
    }
    proof {
        peer_at_is(peers, 0, addr@, i as int);
    }
    if i == out.peers.len() {
        let mut p = PeerOut::default();
        p.remote = Some(own(addr));
        p.name = Some(cat("neighbor-", addr));
        push_view(&mut out.peers, p);
        assert(views(out.peers@).len() == out.peers@.len());
    }
    i
}

/// One peer replaced.
pub open spec fn set_peer(c: ConfigModel, i: int, p: PeerModel) -> ConfigModel {
    ConfigModel { peers: c.peers.update(i, p), ..c }
}

/// What one `remote-as` word of a neighbor line does.
pub open spec fn remote_as_at(c: ConfigModel, addr: Seq<char>, rest: Seq<Seq<char>>, i: int) -> ConfigModel {
    if rest[i] == "remote-as"@ {
        let peers = with_peer(c.peers, addr);
        let k = peer_at(c.peers, 0, addr);
        let asn = if i + 1 < rest.len() {
            u32_of(rest[i + 1])
        } else {
            None
        };
        ConfigModel { peers: peers.update(k, PeerModel { peer_as: asn, ..peers[k] }), ..c }
    } else {
        c
    }
}

/// What the `remote-as` words behind the first word of a neighbor line do.
pub open spec fn remote_as_scan(
    c: ConfigModel,
    addr: Seq<char>,
    rest: Seq<Seq<char>>,
    n: int,
) -> ConfigModel
    decreases n,
{
    if n <= 1 {
        c
    } else {
        remote_as_at(remote_as_scan(c, addr, rest, n - 1), addr, rest, n - 1)
    }
}

/// Whether a neighbor line concerns a peer at all.
pub open spec fn touches(rest: Seq<Seq<char>>, negated: bool, af: Option<Seq<char>>) -> bool {
    if negated {
        rest[0] != "shutdown"@
    } else {
        rest[0] != "activate"@ || af == Some("ipv6-unicast"@)
    }
}

/// A neighbor line written out.
pub open spec fn neighbor_text(addr: Seq<char>, rest: Seq<Seq<char>>) -> Seq<char> {
    "neighbor "@ + addr + " "@ + joined_by(rest, " "@)
}

/// What a `no neighbor` line does to its peer.
pub open spec fn negated_effect(
    p: PeerModel,
    addr: Seq<char>,
    rest: Seq<Seq<char>>,
    af: Option<Seq<char>>,
) -> PeerModel {
    if rest[0] == "activate"@ {
        if af != Some("ipv6-unicast"@) {
            PeerModel { default_ipv4_unicast: Some(false), ..p }
        } else {
            with_note(p, "no neighbor "@ + addr + " activate (ipv6-unicast)"@)
        }
    } else {
        with_note(p, "no "@ + neighbor_text(addr, rest))
    }
}

/// What a neighbor's password clause does. Type 7 is encrypted and cannot be
/// converted.
pub open spec fn password_effect(p: PeerModel, addr: Seq<char>, rest: Seq<Seq<char>>) -> PeerModel {
    if rest.len() < 2 {
        with_note(p, neighbor_text(addr, rest))
    } else if rest[1] == "0"@ && rest.len() >= 3 {
        PeerModel { md5_key: Some(joined_by(rest.subrange(2, rest.len() as int), " "@)), ..p }
    } else if rest[1] == "7"@ {
        with_note(p, "neighbor "@ + addr + " password 7 (encrypted)"@)
    } else {
        PeerModel { md5_key: Some(rest[1]), ..p }
    }
}

/// What a neighbor's port clause does.
pub open spec fn port_effect(p: PeerModel, addr: Seq<char>, rest: Seq<Seq<char>>) -> PeerModel {
    if rest.len() < 2 {
        with_note(p, neighbor_text(addr, rest))
    } else if u16_of(rest[1]) is Some {
        PeerModel { remote_port: Some(rest[1]), ..p }
    } else {
        with_note(p, "neighbor "@ + addr + " port "@ + rest[1] + " (invalid port)"@)
    }
}

/// What a neighbor's route-map clause does.
pub open spec fn map_effect(p: PeerModel, addr: Seq<char>, rest: Seq<Seq<char>>) -> PeerModel {
    if rest.len() >= 3 && rest[2] == "in"@ {
        PeerModel { import: Some(rest[1]), ..p }
    } else if rest.len() >= 3 && rest[2] == "out"@ {
        PeerModel { export: Some(rest[1]), ..p }
    } else {
        with_note(p, neighbor_text(addr, rest))
    }
}

/// How many words of a neighbor line its attribute speaks for. What is noted
/// anyway speaks for all.
pub open spec fn spoken_for(rest: Seq<Seq<char>>) -> nat {
    if rest[0] == "remote-as"@ || rest[0] == "update-source"@ || rest[0] == "port"@ {
        2
    } else if rest[0] == "bfd"@ || rest[0] == "activate"@ {
        1
    } else if rest[0] == "route-map"@ {
        3
    } else if rest[0] == "password"@ && rest.len() >= 2 && rest[1] != "0"@ && rest[1] != "7"@ {
        2
    } else {
        rest.len()
    }
}

/// Whether a neighbor line says more than its attribute and its AS.
pub open spec fn says_more(rest: Seq<Seq<char>>) -> bool {
    let n = spoken_for(rest);
    rest.len() > n && !(rest.len() == n + 2 && rest[n as int] == "remote-as"@)
}

/// What a neighbor line does to its peer. One that says more than is converted
/// is noted.
pub open spec fn neighbor_effect(p: PeerModel, addr: Seq<char>, rest: Seq<Seq<char>>) -> PeerModel {
    let q = attribute_effect(p, addr, rest);
    if says_more(rest) {
        with_note(q, neighbor_text(addr, rest))
    } else {
        q
    }
}

/// What the attribute of a neighbor line does to its peer.
pub open spec fn attribute_effect(
    p: PeerModel,
    addr: Seq<char>,
    rest: Seq<Seq<char>>,
) -> PeerModel {
    let attr = rest[0];
    if attr == "remote-as"@ {
        PeerModel {
            peer_as: if rest.len() > 1 {
                u32_of(rest[1])
            } else {
                None
            },
            ..p
        }
    } else if attr == "password"@ {
        password_effect(p, addr, rest)
    } else if attr == "update-source"@ && rest.len() > 1 {
        PeerModel { local_address: Some(rest[1]), ..p }
    } else if attr == "port"@ {
        port_effect(p, addr, rest)
    } else if attr == "shutdown"@ {
        with_note(p, "neighbor "@ + addr + " shutdown"@)
    } else if attr == "bfd"@ {
        PeerModel { bfd: Some(true), ..p }
    } else if attr == "route-map"@ {
        map_effect(p, addr, rest)
    } else if attr == "activate"@ {
        if p.families.contains("ipv6-unicast"@) {
            p
        } else {
            PeerModel { families: p.families.push("ipv6-unicast"@), ..p }
        }
    } else {
        with_note(p, neighbor_text(addr, rest))
    }
}

/// What a `neighbor` or `no neighbor` line does.
pub open spec fn neighbor_line(
    c: ConfigModel,
    rest: Seq<Seq<char>>,
    addr: Seq<char>,
    negated: bool,
    af: Option<Seq<char>>,
) -> ConfigModel {
    let d = remote_as_scan(c, addr, rest, rest.len() as int);
    if touches(rest, negated, af) {
        let peers = with_peer(d.peers, addr);
        let k = peer_at(d.peers, 0, addr);
        let p = if negated {
            negated_effect(peers[k], addr, rest, af)
        } else {
            neighbor_effect(peers[k], addr, rest)
        };
        ConfigModel { peers: peers.update(k, p), ..d }
    } else {
        d
    }
}

fn write_neighbor(addr: &str, rest: &Vec<String>) -> (s: String)
    ensures
        s@ == neighbor_text(addr@, views(rest@)),
{
    let mut s = own("neighbor ");
    s.append(addr);
    s.append(" ");
    s.append(join(rest, " ").as_str());
    s
}

fn apply_negated(peer: &mut PeerOut, addr: &str, rest: &Vec<String>, af: &Option<String>)
    requires
        rest@.len() > 0,
    ensures
        final(peer)@ == negated_effect(old(peer)@, addr@, views(rest@), opt_view(*af)),
{
    assert(views(rest@)[0] == rest@[0]@);
    if same(rest[0].as_str(), "activate") {
        if !opt_is(af, "ipv6-unicast") {
            peer.default_ipv4_unicast = Some(false);
        } else {
            let mut s = own("no neighbor ");
            s.append(addr);
            s.append(" activate (ipv6-unicast)");
            push_view(&mut peer.unmapped, s);
        }
    } else {
        let s = cat("no ", write_neighbor(addr, rest).as_str());
        push_view(&mut peer.unmapped, s);
    }
}

fn apply_password(peer: &mut PeerOut, addr: &str, rest: &Vec<String>)
    requires
        rest@.len() > 0,
    ensures
        final(peer)@ == password_effect(old(peer)@, addr@, views(rest@)),
{
    if rest.len() < 2 {
        push_view(&mut peer.unmapped, write_neighbor(addr, rest));
        return;
    }
    assert(views(rest@)[1] == rest@[1]@);
    if same(rest[1].as_str(), "0") && rest.len() >= 3 {
        peer.md5_key = Some(join_from(rest, 2, " "));
    } else if same(rest[1].as_str(), "7") {
        let mut s = own("neighbor ");
        s.append(addr);
        s.append(" password 7 (encrypted)");
        push_view(&mut peer.unmapped, s);
    } else {
        peer.md5_key = Some(own(rest[1].as_str()));
    }
}

fn apply_port(peer: &mut PeerOut, addr: &str, rest: &Vec<String>)
    requires
        rest@.len() > 0,
    ensures
        final(peer)@ == port_effect(old(peer)@, addr@, views(rest@)),
{
    if rest.len() < 2 {
        push_view(&mut peer.unmapped, write_neighbor(addr, rest));
        return;
    }
    assert(views(rest@)[1] == rest@[1]@);
    match read_u16(rest[1].as_str()) {
        Some(_) => {
            peer.remote_port = Some(own(rest[1].as_str()));
        },
        None => {
            let mut s = own("neighbor ");
            s.append(addr);
            s.append(" port ");
            s.append(rest[1].as_str());
            s.append(" (invalid port)");
            push_view(&mut peer.unmapped, s);
        },
    }
}

fn apply_attribute(peer: &mut PeerOut, addr: &str, rest: &Vec<String>)
    requires
        rest@.len() > 0,
    ensures
        final(peer)@ == attribute_effect(old(peer)@, addr@, views(rest@)),
{
    let ghost rv = views(rest@);
    assert(forall|i: int| 0 <= i < rest@.len() ==> rv[i] == (#[trigger] rest@[i])@);
    let attr = rest[0].as_str();
    if same(attr, "remote-as") {
        peer.peer_as = if rest.len() > 1 {
            read_u32(rest[1].as_str())
        } else {
            None
        };
    } else if same(attr, "password") {
        apply_password(peer, addr, rest);
    } else if same(attr, "update-source") && rest.len() > 1 {
        peer.local_address = Some(own(rest[1].as_str()));
    } else if same(attr, "port") {
        apply_port(peer, addr, rest);
    } else if same(attr, "shutdown") {
        let mut s = own("neighbor ");
        s.append(addr);
        s.append(" shutdown");
        push_view(&mut peer.unmapped, s);
    } else if same(attr, "bfd") {
        peer.bfd = Some(true);
    } else if same(attr, "route-map") {
        if rest.len() >= 3 && same(rest[2].as_str(), "in") {
            peer.import = Some(own(rest[1].as_str()));
        } else if rest.len() >= 3 && same(rest[2].as_str(), "out") {
            peer.export = Some(own(rest[1].as_str()));
        } else {
            push_view(&mut peer.unmapped, write_neighbor(addr, rest));
        }
    } else if same(attr, "activate") {
        if !lists_text(&peer.families, "ipv6-unicast") {
            push_view(&mut peer.families, own("ipv6-unicast"));
        }
    } else {
        push_view(&mut peer.unmapped, write_neighbor(addr, rest));
    }
}

fn has_more(rest: &Vec<String>) -> (b: bool)
    requires
        rest@.len() > 0,
    ensures
        b == says_more(views(rest@)),
{
    let ghost rv = views(rest@);
    assert(forall|i: int| 0 <= i < rest@.len() ==> rv[i] == (#[trigger] rest@[i])@);
    let n: usize = if is_word(rest, 0, "remote-as") || is_word(rest, 0, "update-source") || is_word(
        rest,
        0,
        "port",
    ) {
        2
    } else if is_word(rest, 0, "bfd") || is_word(rest, 0, "activate") {
        1
    } else if is_word(rest, 0, "route-map") {
        3
    } else if is_word(rest, 0, "password") && rest.len() >= 2 && !is_word(rest, 1, "0") && !is_word(
        rest,
        1,
        "7",
    ) {
        2
    } else {
        rest.len()
    };
    rest.len() > n && !(rest.len() - n == 2 && is_word(rest, n, "remote-as"))
}

/// One `neighbor ADDR …` line. `rest` starts at the attribute; `negated` marks
/// a `no neighbor` line; `af` is the enclosing address family. `remote-as` may
/// stand anywhere on the line.
pub fn apply_frr_neighbor(
    out: &mut ConfigOut,
    rest: &Vec<String>,
    addr: &str,
    negated: bool,
    af: &Option<String>,
)
    requires
        rest@.len() > 0,
    ensures
        final(out)@ == neighbor_line(
            old(out)@,
            views(rest@),
            addr@,
            negated,
            opt_view(*af),
        ),
{
    let ghost rv = views(rest@);
    let mut i: usize = 1;
    while i < rest.len()
        invariant
            1 <= i <= rest@.len(),
            rv == views(rest@),
            out@ == remote_as_scan(old(out)@, addr@, rv, i as int),
        decreases rest@.len() - i,
    {
        assert(rv[i as int] == rest@[i as int]@);
        if same(rest[i].as_str(), "remote-as") {
            let asn: Option<u32> = if i + 1 < rest.len() {
                assert(rv[i + 1] == rest@[i + 1]@);
                read_u32(rest[i + 1].as_str())
            } else {
                None
            };
            let k: usize = peer_for_or_create(out, addr);
            let ghost before = out.peers@;
            out.peers[k].peer_as = asn;
            assert(views(out.peers@) =~= views(before).update(
                k as int,
                PeerModel { peer_as: asn, ..views(before)[k as int] },
            ));
        }
        i += 1;
    }
    assert(rv[0] == rest@[0]@);
    let concerned = if negated {
        !same(rest[0].as_str(), "shutdown")
    } else {
        !same(rest[0].as_str(), "activate") || opt_is(af, "ipv6-unicast")
    };
    if concerned {
        let k: usize = peer_for_or_create(out, addr);
        let ghost before = out.peers@;
        if negated {
            apply_negated(&mut out.peers[k], addr, rest, af);
        } else {
            apply_attribute(&mut out.peers[k], addr, rest);
            if has_more(rest) {
                let note = write_neighbor(addr, rest);
                push_view(&mut out.peers[k].unmapped, note);
            }
        }
        assert(views(out.peers@) =~= views(before).update(
            k as int,
            if negated {
                negated_effect(views(before)[k as int], addr@, rv, opt_view(*af))
            } else {
                neighbor_effect(views(before)[k as int], addr@, rv)
            },
        ));
    }
}

/// The value behind the last `name` from `i` on, as an 8-bit number.
pub open spec fn bound_of(ts: Seq<Seq<char>>, from: int, n: int, name: Seq<char>) -> Option<u8>
    decreases n,
{
    if n <= from || n <= 0 {
        None
    } else if ts[n - 1] == name {
        if n < ts.len() {
            u8_of(ts[n])
        } else {
            None
        }
    } else {
        bound_of(ts, from, n - 1, name)
    }
}

/// The prefix-list entry of a line, if it is complete.
pub open spec fn prefix_list_of(ts: Seq<Seq<char>>) -> Option<PrefixListModel> {
    let sequenced = word_is(ts, 3, "seq"@);
    let idx = if sequenced {
        5int
    } else {
        3int
    };
    let seq = if sequenced && 4 < ts.len() {
        match u32_of(ts[4]) {
            Some(n) => n,
            None => 10,
        }
    } else {
        10
    };
    if (word_is(ts, idx, "permit"@) || word_is(ts, idx, "deny"@)) && idx + 1 < ts.len() {
        Some(
            PrefixListModel {
                name: ts[2],
                seq,
                permit: ts[idx] == "permit"@,
                prefix: ts[idx + 1],
                ge: bound_of(ts, idx + 2, ts.len() as int, "ge"@),
                le: bound_of(ts, idx + 2, ts.len() as int, "le"@),
            },
        )
    } else {
        None
    }
}

fn last_bound(ts: &Vec<String>, from: usize, name: &str) -> (r: Option<u8>)
    requires
        from <= ts@.len(),
    ensures
        r == bound_of(views(ts@), from as int, ts@.len() as int, name@),
{
    let ghost tv = views(ts@);
    let mut n: usize = ts.len();
    while n > from
        invariant
            from <= n <= ts@.len(),
            tv == views(ts@),
            bound_of(tv, from as int, ts@.len() as int, name@) == bound_of(
                tv,
                from as int,
                n as int,
                name@,
            ),
        decreases n,
    {
        assert(tv[n - 1] == ts@[n - 1]@);
        if same(ts[n - 1].as_str(), name) {
            if n < ts.len() {
                assert(tv[n as int] == ts@[n as int]@);
                return read_u8(ts[n].as_str());
            }
            return None;
        }
        n -= 1;
    }
    None
}

/// Reads `ip prefix-list NAME [seq N] permit|deny PREFIX [ge G] [le L]`.
pub fn parse_frr_prefix_list(ts: &Vec<String>) -> (r: Option<PrefixListRow>)
    requires
        ts@.len() >= 3,
    ensures
        opt_view(r) == prefix_list_of(views(ts@)),
{
    let ghost tv = views(ts@);
    assert(forall|i: int| 0 <= i < ts@.len() ==> tv[i] == (#[trigger] ts@[i])@);
    let sequenced = is_word(ts, 3, "seq");
    let idx: usize = if sequenced {
        5
    } else {
        3
    };
    let seq: u32 = if sequenced && 4 < ts.len() {
        match read_u32(ts[4].as_str()) {
            Some(n) => n,
            None => 10,
        }
    } else {
        10
    };
    if (is_word(ts, idx, "permit") || is_word(ts, idx, "deny")) && idx + 1 < ts.len() {
        let permit = same(ts[idx].as_str(), "permit");
        Some(
            PrefixListRow {
                name: own(ts[2].as_str()),
                seq,
                permit,
                prefix: own(ts[idx + 1].as_str()),
                ge: last_bound(ts, idx + 2, "ge"),
                le: last_bound(ts, idx + 2, "le"),
            },
        )
    } else {
        None
    }
}

/// The configuration with one more line that has no equivalent.
pub open spec fn global_note(c: ConfigModel, note: Seq<char>) -> ConfigModel {
    ConfigModel { unmapped_global: c.unmapped_global.push(note), ..c }
}

/// A route-map entry with one more unmapped line.
pub open spec fn map_note(m: RouteMapModel, note: Seq<char>) -> RouteMapModel {
    RouteMapModel { unmapped: m.unmapped.push(note), ..m }
}

/// An entry with a note if a line says more than its first `n` words.
pub open spec fn noted_beyond(
    m: RouteMapModel,
    ts: Seq<Seq<char>>,
    n: nat,
    line: Seq<char>,
) -> RouteMapModel {
    if ts.len() > n {
        map_note(m, line)
    } else {
        m
    }
}

/// What a `match` clause does to its entry.
pub open spec fn match_effect(m: RouteMapModel, ts: Seq<Seq<char>>, line: Seq<char>) -> RouteMapModel {
    if ts[1] == "ip"@ && ts[2] == "address"@ && ts.len() >= 5 && ts[3] == "prefix-list"@ {
        noted_beyond(RouteMapModel { match_prefix: Some(ts[4]), ..m }, ts, 5, line)
    } else if ts[1] == "as-path"@ {
        noted_beyond(RouteMapModel { match_as_path: Some(ts[2]), ..m }, ts, 3, line)
    } else if ts[1] == "community"@ {
        noted_beyond(RouteMapModel { match_community: Some(ts[2]), ..m }, ts, 3, line)
    } else {
        map_note(m, line)
    }
}

/// What a `set` clause does to its entry. Replacing a community set has no
/// equivalent; adding to it has. A value that the daemon does not take is noted.
pub open spec fn set_effect(m: RouteMapModel, ts: Seq<Seq<char>>, line: Seq<char>) -> RouteMapModel {
    if ts[1] == "ip"@ && ts[2] == "next-hop"@ && ts.len() >= 4 {
        if address_text(ts[3]) {
            RouteMapModel { set_next_hop: Some(ts[3]), ..m }
        } else {
            map_note(m, line)
        }
    } else if ts[1] == "local-preference"@ {
        let n = RouteMapModel { set_local_pref: u32_of(ts[2]), ..m };
        if u32_of(ts[2]) is None {
            map_note(n, line)
        } else {
            n
        }
    } else if ts[1] == "metric"@ || ts[1] == "med"@ {
        let n = RouteMapModel { set_med: u32_of(ts[2]), ..m };
        if u32_of(ts[2]) is None {
            map_note(n, line)
        } else {
            n
        }
    } else if ts[1] == "as-path"@ && ts[2] == "prepend"@ && ts.len() >= 4 {
        let path = joined_by(ts.subrange(3, ts.len() as int), " "@);
        if as_numbers(words_of(path)) {
            RouteMapModel { prepend: Some(path), ..m }
        } else {
            map_note(m, line)
        }
    } else if ts[1] == "community"@ && ts.len() >= 4 {
        if ts.last() == "additive"@ {
            let list = joined_by(ts.subrange(2, ts.len() - 1), " "@);
            if communities(words_of(list)) {
                RouteMapModel { add_community: Some(list), ..m }
            } else {
                map_note(m, line)
            }
        } else {
            map_note(m, line + " (non-additive)"@)
        }
    } else {
        map_note(m, line)
    }
}

fn apply_match(m: &mut RouteMapRow, ts: &Vec<String>, line: &str)
    requires
        ts@.len() >= 3,
    ensures
        final(m)@ == match_effect(old(m)@, views(ts@), line@),
{
    let ghost tv = views(ts@);
    assert(forall|i: int| 0 <= i < ts@.len() ==> tv[i] == (#[trigger] ts@[i])@);
    if is_word(ts, 1, "ip") && is_word(ts, 2, "address") && ts.len() >= 5 && is_word(
        ts,
        3,
        "prefix-list",
    ) {
        m.match_prefix = Some(own(ts[4].as_str()));
        if ts.len() > 5 {
            push_view(&mut m.unmapped, own(line));
        }
    } else if is_word(ts, 1, "as-path") {
        m.match_as_path = Some(own(ts[2].as_str()));
        if ts.len() > 3 {
            push_view(&mut m.unmapped, own(line));
        }
    } else if is_word(ts, 1, "community") {
        m.match_community = Some(own(ts[2].as_str()));
        if ts.len() > 3 {
            push_view(&mut m.unmapped, own(line));
        }
    } else {
        push_view(&mut m.unmapped, own(line));
    }
}

fn apply_set(m: &mut RouteMapRow, ts: &Vec<String>, line: &str)
    requires
        ts@.len() >= 3,
    ensures
        final(m)@ == set_effect(old(m)@, views(ts@), line@),
{
    let ghost tv = views(ts@);
    assert(forall|i: int| 0 <= i < ts@.len() ==> tv[i] == (#[trigger] ts@[i])@);
    if is_word(ts, 1, "ip") && is_word(ts, 2, "next-hop") && ts.len() >= 4 {
        if is_address(ts[3].as_str()) {
            m.set_next_hop = Some(own(ts[3].as_str()));
        } else {
            push_view(&mut m.unmapped, own(line));
        }
    } else if is_word(ts, 1, "local-preference") {
        m.set_local_pref = read_u32(ts[2].as_str());
        if m.set_local_pref.is_none() {
            push_view(&mut m.unmapped, own(line));
        }
    } else if is_word(ts, 1, "metric") || is_word(ts, 1, "med") {
        m.set_med = read_u32(ts[2].as_str());
        if m.set_med.is_none() {
            push_view(&mut m.unmapped, own(line));
        }
    } else if is_word(ts, 1, "as-path") && is_word(ts, 2, "prepend") && ts.len() >= 4 {
        let path = join_from(ts, 3, " ");
        if are_as_numbers(&words(path.as_str())) {
            m.prepend = Some(path);
        } else {
            push_view(&mut m.unmapped, own(line));
        }
    } else if is_word(ts, 1, "community") && ts.len() >= 4 {
        if is_word(ts, ts.len() - 1, "additive") {
            let mut head = words_tail(ts, 2);
            let ghost h0 = head@;
            assert(views(h0).len() == h0.len());
            let _ = head.pop();
            proof {
                let want = tv.subrange(2, tv.len() - 1);
                assert forall|i: int| 0 <= i < want.len() implies views(head@)[i] == want[i] by {
                    assert(head@[i] == h0[i]);
                    assert(views(h0)[i] == h0[i]@);
                }
                assert(views(head@) =~= want);
            }
            let list = join(&head, " ");
            if are_communities(&words(list.as_str())) {
                m.add_community = Some(list);
            } else {
                push_view(&mut m.unmapped, own(line));
            }
        } else {
            push_view(&mut m.unmapped, cat(line, " (non-additive)"));
        }
    } else {
        push_view(&mut m.unmapped, own(line));
    }
}

/// The first `permit` or `deny` from position `i` on, or the count.
pub open spec fn action_at(ts: Seq<Seq<char>>, i: int) -> int
    decreases ts.len() - i,
{
    if i < 0 || i >= ts.len() {
        ts.len() as int
    } else if ts[i] == "permit"@ || ts[i] == "deny"@ {
        i
    } else {
        action_at(ts, i + 1)
    }
}

/// What a `bgp community-list` line adds. A list with a member that the daemon
/// does not take is noted.
pub open spec fn community_line(c: ConfigModel, ts: Seq<Seq<char>>, line: Seq<char>) -> ConfigModel {
    let a = action_at(ts, 4);
    if ts[2] == "standard"@ {
        if a < ts.len() && communities(ts.subrange(a + 1, ts.len() as int)) {
            ConfigModel {
                community_lists: c.community_lists.push(
                    CommunityListModel {
                        name: ts[3],
                        permit: ts[a] == "permit"@,
                        communities: ts.subrange(a + 1, ts.len() as int),
                    },
                ),
                ..c
            }
        } else {
            global_note(c, line)
        }
    } else {
        global_note(c, line + " (expanded community lists unsupported)"@)
    }
}

/// The configuration, with a note where a line is not understood in full.
pub open spec fn doubted(c: ConfigModel, understood: bool, line: Seq<char>) -> ConfigModel {
    if understood {
        c
    } else {
        global_note(c, line)
    }
}

/// What a `bgp …` line does.
pub open spec fn bgp_line(c: ConfigModel, ts: Seq<Seq<char>>, line: Seq<char>) -> ConfigModel {
    if ts.len() >= 3 && ts[1] == "router-id"@ {
        ConfigModel { router_id: Some(ts[2]), ..c }
    } else if ts.len() >= 6 && ts[1] == "as-path"@ && ts[2] == "access-list"@ {
        let listed = ConfigModel {
            as_path_lists: c.as_path_lists.push(
                AsPathListModel {
                    name: ts[3],
                    permit: ts[4] == "permit"@,
                    pattern: joined_by(ts.subrange(5, ts.len() as int), " "@),
                },
            ),
            ..c
        };
        doubted(listed, ts[4] == "permit"@ || ts[4] == "deny"@, line)
    } else if ts.len() >= 6 && ts[1] == "community-list"@ {
        community_line(c, ts, line)
    } else {
        global_note(c, line)
    }
}

fn apply_community(out: &mut ConfigOut, ts: &Vec<String>, line: &str)
    requires
        ts@.len() >= 6,
    ensures
        final(out)@ == community_line(old(out)@, views(ts@), line@),
{
    let ghost tv = views(ts@);
    assert(forall|i: int| 0 <= i < ts@.len() ==> tv[i] == (#[trigger] ts@[i])@);
    if !is_word(ts, 2, "standard") {
        push_view(
            &mut out.unmapped_global,
            cat(line, " (expanded community lists unsupported)"),
        );
        return;
    }
    let mut a: usize = 4;
    while a < ts.len() && !same(ts[a].as_str(), "permit") && !same(ts[a].as_str(), "deny")
        invariant
            4 <= a <= ts@.len(),
            tv == views(ts@),
            forall|i: int| 0 <= i < ts@.len() ==> tv[i] == (#[trigger] ts@[i])@,
            action_at(tv, 4) == action_at(tv, a as int),
        decreases ts@.len() - a,
    {
        a += 1;
    }
    if a < ts.len() {
        let members = words_tail(ts, a + 1);
        if are_communities(&members) {
            let row = CommunityListRow {
                name: own(ts[3].as_str()),
                permit: same(ts[a].as_str(), "permit"),
                communities: members,
            };
            push_view(&mut out.community_lists, row);
            return;
        }
    }
    push_view(&mut out.unmapped_global, own(line));
}

fn apply_bgp(out: &mut ConfigOut, ts: &Vec<String>, line: &str)
    requires
        ts@.len() >= 1,
    ensures
        final(out)@ == bgp_line(old(out)@, views(ts@), line@),
{
    let ghost tv = views(ts@);
    assert(forall|i: int| 0 <= i < ts@.len() ==> tv[i] == (#[trigger] ts@[i])@);
    if ts.len() >= 3 && is_word(ts, 1, "router-id") {
        out.router_id = Some(own(ts[2].as_str()));
    } else if ts.len() >= 6 && is_word(ts, 1, "as-path") && is_word(ts, 2, "access-list") {
        let row = AsPathListRow {
            name: own(ts[3].as_str()),
            permit: is_word(ts, 4, "permit"),
            pattern: join_from(ts, 5, " "),
        };
        push_view(&mut out.as_path_lists, row);
        if !is_word(ts, 4, "permit") && !is_word(ts, 4, "deny") {
            push_view(&mut out.unmapped_global, own(line));
        }
    } else if ts.len() >= 6 && is_word(ts, 1, "community-list") {
        apply_community(out, ts, line);
    } else {
        push_view(&mut out.unmapped_global, own(line));
    }
}

/// What a line of the policy tables does. A prefix that the daemon does not
/// take, a part of a line that is not understood, and any other line are noted.
pub open spec fn policy_line(c: ConfigModel, ts: Seq<Seq<char>>, line: Seq<char>) -> ConfigModel {
    let last = c.route_maps.len() - 1;
    if ts[0] == "ip"@ {
        if ts.len() >= 4 && ts[1] == "prefix-list"@ {
            match prefix_list_of(ts) {
                Some(row) => if prefix_text(row.prefix) {
                    doubted(
                        ConfigModel { prefix_lists: c.prefix_lists.push(row), ..c },
                        list_understood(ts),
                        line,
                    )
                } else {
                    global_note(c, line)
                },
                None => global_note(c, line),
            }
        } else {
            global_note(c, line)
        }
    } else if ts[0] == "route-map"@ {
        if ts.len() >= 4 {
            let entry = match u32_of(ts[3]) {
                Some(n) => n,
                None => 10,
            };
            let entered = ConfigModel {
                route_maps: c.route_maps.push(bare_entry(ts[1], entry, ts[2] == "permit"@)),
                ..c
            };
            doubted(entered, entry_understood(ts), line)
        } else {
            global_note(c, line)
        }
    } else if ts[0] == "match"@ && ts.len() >= 3 && last >= 0 {
        ConfigModel {
            route_maps: c.route_maps.update(last, match_effect(c.route_maps[last], ts, line)),
            ..c
        }
    } else if ts[0] == "set"@ && ts.len() >= 3 && last >= 0 {
        ConfigModel {
            route_maps: c.route_maps.update(last, set_effect(c.route_maps[last], ts, line)),
            ..c
        }
    } else {
        global_note(c, line)
    }
}

fn apply_policy(out: &mut ConfigOut, ts: &Vec<String>, line: &str)
    requires
        ts@.len() >= 1,
    ensures
        final(out)@ == policy_line(old(out)@, views(ts@), line@),
{
    let ghost tv = views(ts@);
    assert(forall|i: int| 0 <= i < ts@.len() ==> tv[i] == (#[trigger] ts@[i])@);
    if is_word(ts, 0, "ip") {
        if ts.len() >= 4 && is_word(ts, 1, "prefix-list") {
            match parse_frr_prefix_list(ts) {
                Some(row) => {
                    if is_prefix(row.prefix.as_str()) {
                        push_view(&mut out.prefix_lists, row);
                        if !is_list_understood(ts) {
                            push_view(&mut out.unmapped_global, own(line));
                        }
                    } else {
                        push_view(&mut out.unmapped_global, own(line));
                    }
                },
                None => {
                    push_view(&mut out.unmapped_global, own(line));
                },
            }
        } else {
            push_view(&mut out.unmapped_global, own(line));
        }
    } else if is_word(ts, 0, "route-map") {
        if ts.len() >= 4 {
            let entry: u32 = match read_u32(ts[3].as_str()) {
                Some(n) => n,
                None => 10,
            };
            let row = RouteMapRow::new(ts[1].as_str(), entry, is_word(ts, 2, "permit"));
            push_view(&mut out.route_maps, row);
            if !is_entry_understood(ts) {
                push_view(&mut out.unmapped_global, own(line));
            }
        } else {
            push_view(&mut out.unmapped_global, own(line));
        }
    } else if is_word(ts, 0, "match") && ts.len() >= 3 && out.route_maps.len() > 0 {
        let last: usize = out.route_maps.len() - 1;
        let ghost before = out.route_maps@;
        apply_match(&mut out.route_maps[last], ts, line);
        assert(views(out.route_maps@) =~= views(before).update(
            last as int,
            match_effect(views(before)[last as int], tv, line@),
        ));
    } else if is_word(ts, 0, "set") && ts.len() >= 3 && out.route_maps.len() > 0 {
        let last: usize = out.route_maps.len() - 1;
        let ghost before = out.route_maps@;
        apply_set(&mut out.route_maps[last], ts, line);
        assert(views(out.route_maps@) =~= views(before).update(
            last as int,
            set_effect(views(before)[last as int], tv, line@),
        ));
    } else {
        push_view(&mut out.unmapped_global, own(line));
    }
}

/// A `router` line opens a stanza that is not covered: another protocol, or
/// the BGP instance of a VRF.
pub open spec fn uncovered(ts: Seq<Seq<char>>) -> bool {
    ts.len() >= 2 && (ts[1] != "bgp"@ || (ts.len() >= 4 && ts[3] == "vrf"@))
}

/// What a `router …` line does: `bgp` opens the configuration's own stanza,
/// with FRR's default of enforcing the first AS; any other protocol, and any
/// VRF, is noted.
pub open spec fn router_line(c: ConfigModel, ts: Seq<Seq<char>>, line: Seq<char>) -> ConfigModel {
    if ts.len() >= 3 && ts[1] == "bgp"@ {
        if uncovered(ts) {
            global_note(c, line)
        } else {
            doubted(
                ConfigModel { local_as: u32_of(ts[2]), enforce_first_as: Some(true), ..c },
                u32_of(ts[2]) is Some,
                line,
            )
        }
    } else if ts.len() >= 2 {
        ConfigModel { ignored_protocols: c.ignored_protocols.push("router "@ + ts[1]), ..c }
    } else {
        global_note(c, line)
    }
}

fn opens_uncovered(ts: &Vec<String>) -> (b: bool)
    ensures
        b == uncovered(views(ts@)),
{
    assert(forall|i: int|
        0 <= i < ts@.len() ==> views(ts@)[i] == (#[trigger] ts@[i])@);
    ts.len() >= 2 && (!is_word(ts, 1, "bgp") || (ts.len() >= 4 && is_word(ts, 3, "vrf")))
}

fn apply_router(out: &mut ConfigOut, ts: &Vec<String>, line: &str)
    requires
        ts@.len() >= 1,
    ensures
        final(out)@ == router_line(old(out)@, views(ts@), line@),
{
    let ghost tv = views(ts@);
    assert(forall|i: int| 0 <= i < ts@.len() ==> tv[i] == (#[trigger] ts@[i])@);
    if ts.len() >= 3 && is_word(ts, 1, "bgp") {
        if opens_uncovered(ts) {
            push_view(&mut out.unmapped_global, own(line));
        } else {
            out.local_as = read_u32(ts[2].as_str());
            out.enforce_first_as = Some(true);
            if out.local_as.is_none() {
                push_view(&mut out.unmapped_global, own(line));
            }
        }
    } else if ts.len() >= 2 {
        push_view(&mut out.ignored_protocols, cat("router ", ts[1].as_str()));
    } else {
        push_view(&mut out.unmapped_global, own(line));
    }
}

/// A word that only punctuates: a comment, or the end of a block.
pub open spec fn punctuates(w: Seq<char>) -> bool {
    w == "exit"@ || w == "end"@ || starts(w, "!"@)
}

/// A statement of the policy tables, which stand outside every stanza.
pub open spec fn of_policy(ts: Seq<Seq<char>>) -> bool {
    ||| ts[0] == "route-map"@
    ||| ts[0] == "ip"@ && ts.len() >= 2 && ts[1] == "prefix-list"@
    ||| ts[0] == "bgp"@ && ts.len() >= 2 && (ts[1] == "as-path"@ || ts[1] == "community-list"@)
}

/// What a statement does. In a stanza that is not covered nothing is mapped;
/// the stanza itself is noted. Elsewhere a statement without an equivalent is
/// noted.
pub open spec fn frr_statement(st: FrrModel, ts: Seq<Seq<char>>, line: Seq<char>) -> FrrModel {
    if punctuates(ts[0]) {
        FrrModel { skipping: st.skipping && starts(ts[0], "!"@), ..st }
    } else if ts[0] == "router"@ {
        FrrModel { out: router_line(st.out, ts, line), skipping: uncovered(ts), ..st }
    } else if st.skipping && !of_policy(ts) {
        st
    } else {
        covered_statement(FrrModel { skipping: false, ..st }, ts, line)
    }
}

/// What a statement outside every uncovered stanza does.
pub open spec fn covered_statement(st: FrrModel, ts: Seq<Seq<char>>, line: Seq<char>) -> FrrModel {
    if ts[0] == "bgp"@ {
        FrrModel { out: bgp_line(st.out, ts, line), ..st }
    } else if ts[0] == "address-family"@ && ts.len() >= 3 {
        FrrModel { af: Some(ts[1] + "-"@ + ts[2]), ..st }
    } else if ts[0] == "exit-address-family"@ {
        FrrModel { af: None, ..st }
    } else if ts[0] == "network"@ && ts.len() >= 2 && next_char(ts[1], 0, '/') < ts[1].len() {
        let out = ConfigModel { networks: st.out.networks.push(ts[1]), ..st.out };
        FrrModel { out: doubted(out, ts.len() == 2, line), ..st }
    } else if ts[0] == "neighbor"@ && ts.len() >= 3 {
        FrrModel {
            out: neighbor_line(st.out, ts.subrange(2, ts.len() as int), ts[1], false, st.af),
            ..st
        }
    } else if ts[0] == "no"@ && ts.len() >= 4 && ts[1] == "neighbor"@ {
        FrrModel {
            out: neighbor_line(st.out, ts.subrange(3, ts.len() as int), ts[2], true, st.af),
            ..st
        }
    } else {
        FrrModel { out: policy_line(st.out, ts, line), ..st }
    }
}

fn is_of_policy(ts: &Vec<String>) -> (b: bool)
    requires
        ts@.len() >= 1,
    ensures
        b == of_policy(views(ts@)),
{
    assert(forall|i: int|
        0 <= i < ts@.len() ==> views(ts@)[i] == (#[trigger] ts@[i])@);
    is_word(ts, 0, "route-map") || (is_word(ts, 0, "ip") && is_word(ts, 1, "prefix-list")) || (
    is_word(ts, 0, "bgp") && (is_word(ts, 1, "as-path") || is_word(ts, 1, "community-list")))
}

fn apply_statement(st: &mut FrrState, ts: &Vec<String>, line: &str)
    requires
        ts@.len() >= 1,
    ensures
        final(st)@ == frr_statement(old(st)@, views(ts@), line@),
{
    let ghost tv = views(ts@);
    assert(forall|i: int| 0 <= i < ts@.len() ==> tv[i] == (#[trigger] ts@[i])@);
    if starts_with(ts[0].as_str(), "!") {
        return;
    }
    if is_word(ts, 0, "exit") || is_word(ts, 0, "end") {
        st.skipping = false;
        return;
    }
    if is_word(ts, 0, "router") {
        apply_router(&mut st.out, ts, line);
        st.skipping = opens_uncovered(ts);
        return;
    }
    if st.skipping && !is_of_policy(ts) {
        return;
    }
    st.skipping = false;
    apply_covered(st, ts, line);
}

fn apply_covered(st: &mut FrrState, ts: &Vec<String>, line: &str)
    requires
        ts@.len() >= 1,
    ensures
        final(st)@ == covered_statement(old(st)@, views(ts@), line@),
{
    let ghost tv = views(ts@);
    assert(forall|i: int| 0 <= i < ts@.len() ==> tv[i] == (#[trigger] ts@[i])@);
    if is_word(ts, 0, "bgp") {
        apply_bgp(&mut st.out, ts, line);
    } else if is_word(ts, 0, "address-family") && ts.len() >= 3 {
        let mut af = own(ts[1].as_str());
        af.append("-");
        af.append(ts[2].as_str());
        st.af = Some(af);
    } else if is_word(ts, 0, "exit-address-family") {
        st.af = None;
    } else if is_word(ts, 0, "network") && ts.len() >= 2 && contains_char(ts[1].as_str(), '/') {
        push_view(&mut st.out.networks, own(ts[1].as_str()));
        if ts.len() > 2 {
            push_view(&mut st.out.unmapped_global, own(line));
        }
    } else if is_word(ts, 0, "neighbor") && ts.len() >= 3 {
        let rest = words_tail(ts, 2);
        assert(views(rest@).len() == rest@.len());
        apply_frr_neighbor(&mut st.out, &rest, ts[1].as_str(), false, &st.af);
    } else if is_word(ts, 0, "no") && ts.len() >= 4 && is_word(ts, 1, "neighbor") {
        let rest = words_tail(ts, 3);
        assert(views(rest@).len() == rest@.len());
        apply_frr_neighbor(&mut st.out, &rest, ts[2].as_str(), true, &st.af);
    } else {
        apply_policy(&mut st.out, ts, line);
    }
}

/// What the directive of a line does. `neighbor ADDR KEY` concerns one peer,
/// anything else the whole configuration.
pub open spec fn frr_directive(c: ConfigModel, body: Seq<char>) -> ConfigModel {
    let ts = words_of(body);
    if ts.len() >= 2 && trim_end_char_of(ts[0], ';') == "neighbor"@ {
        let d = directive_of(joined_by(ts.subrange(2, ts.len() as int), " "@));
        if d.key.len() == 0 {
            ConfigModel {
                unmapped_global: c.unmapped_global.push(
                    "lr: neighbor "@ + ts[1] + " — no directive given"@,
                ),
                ..c
            }
        } else {
            let peers = with_peer(c.peers, ts[1]);
            let k = peer_at(c.peers, 0, ts[1]);
            ConfigModel { peers: peers.update(k, attached(peers[k], d)), ..c }
        }
    } else {
        ConfigModel { ext_global: c.ext_global.push(directive_of(body)), ..c }
    }
}

fn apply_directive(out: &mut ConfigOut, body: &str)
    ensures
        final(out)@ == frr_directive(old(out)@, body@),
{
    let ts = words(body);
    let ghost tv = views(ts@);
    assert(forall|i: int| 0 <= i < ts@.len() ==> tv[i] == (#[trigger] ts@[i])@);
    if ts.len() >= 2 && same(trim_end_char(ts[0].as_str(), ';').as_str(), "neighbor") {
        let d = parse_lr_body(join_from(&ts, 2, " ").as_str());
        if d.key.as_str().is_empty() {
            let mut s = own("lr: neighbor ");
            s.append(ts[1].as_str());
            s.append(" — no directive given");
            push_view(&mut out.unmapped_global, s);
        } else {
            let k: usize = peer_for_or_create(out, ts[1].as_str());
            let ghost before = out.peers@;
            let ghost dv = d@;
            attach_peer_directive(&mut out.peers[k], d);
            assert(views(out.peers@) =~= views(before).update(
                k as int,
                attached(views(before)[k as int], dv),
            ));
        }
    } else {
        push_view(&mut out.ext_global, parse_lr_body(body));
    }
}

/// What one line does. A `!` at the start of a line ends the stanza before it.
pub open spec fn frr_step(st: FrrModel, raw: Seq<char>) -> FrrModel {
    let s0 = FrrModel { skipping: st.skipping && !starts(raw, "!"@), ..st };
    let s1 = match marker_body(raw, true) {
        Some(body) => FrrModel { out: frr_directive(s0.out, body), ..s0 },
        None => s0,
    };
    let line = trim_of(code_of(raw));
    let ts = words_of(line);
    if ts.len() == 0 {
        s1
    } else {
        frr_statement(s1, ts, line)
    }
}

/// What a list of lines leaves.
pub open spec fn frr_fold(st: FrrModel, ls: Seq<Seq<char>>) -> FrrModel
    decreases ls.len(),
{
    if ls.len() == 0 {
        st
    } else {
        frr_step(frr_fold(st, ls.drop_last()), ls.last())
    }
}

fn frr_line(st: &mut FrrState, raw: &str)
    ensures
        final(st)@ == frr_step(old(st)@, raw@),
{
    if starts_with(raw, "!") {
        st.skipping = false;
    }
    match lr_marker_body(raw, true) {
        Some(body) => {
            apply_directive(&mut st.out, body.as_str());
        },
        None => {},
    }
    let line = trim(strip_comments(raw).as_str());
    let ts = words(line.as_str());
    assert(views(ts@).len() == ts@.len());
    if ts.len() > 0 {
        apply_statement(st, &ts, line.as_str());
    }
}

/// The peers that have an AS.
pub open spec fn startable(peers: Seq<PeerModel>) -> Seq<PeerModel>
    decreases peers.len(),
{
    if peers.len() == 0 {
        Seq::empty()
    } else if peers.last().peer_as is Some {
        startable(peers.drop_last()).push(peers.last())
    } else {
        startable(peers.drop_last())
    }
}

/// The note on a peer without an AS.
pub open spec fn drop_note(p: PeerModel) -> Seq<char> {
    "neighbor "@ + (match p.remote {
        Some(r) => r,
        None => "<unknown>"@,
    }) + ": no `remote-as` line found, peer dropped"@
}

/// The notes on the peers without an AS.
pub open spec fn drop_notes(peers: Seq<PeerModel>) -> Seq<Seq<char>>
    decreases peers.len(),
{
    if peers.len() == 0 {
        Seq::empty()
    } else if peers.last().peer_as is Some {
        drop_notes(peers.drop_last())
    } else {
        drop_notes(peers.drop_last()).push(drop_note(peers.last()))
    }
}

/// Whether a prefix-list has this name.
pub open spec fn names_prefix_list(l: Seq<PrefixListModel>, name: Seq<char>) -> bool {
    exists|i: int| 0 <= i < l.len() && (#[trigger] l[i]).name == name
}

/// Whether an AS-path list has this name.
pub open spec fn names_as_path(l: Seq<AsPathListModel>, name: Seq<char>) -> bool {
    exists|i: int| 0 <= i < l.len() && (#[trigger] l[i]).name == name
}

/// Whether a community list has this name.
pub open spec fn names_community(l: Seq<CommunityListModel>, name: Seq<char>) -> bool {
    exists|i: int| 0 <= i < l.len() && (#[trigger] l[i]).name == name
}

/// An entry without references to lists that do not exist.
pub open spec fn settle_prefix(m: RouteMapModel, c: ConfigModel) -> RouteMapModel {
    match m.match_prefix {
        Some(n) => if names_prefix_list(c.prefix_lists, n) {
            m
        } else {
            RouteMapModel {
                match_prefix: None,
                ..map_note(
                    m,
                    "match ip address prefix-list "@ + n
                        + " (no such prefix-list; match dropped)"@,
                )
            }
        },
        None => m,
    }
}

/// The same for AS-path lists.
pub open spec fn settle_as_path(m: RouteMapModel, c: ConfigModel) -> RouteMapModel {
    match m.match_as_path {
        Some(n) => if names_as_path(c.as_path_lists, n) {
            m
        } else {
            RouteMapModel {
                match_as_path: None,
                ..map_note(
                    m,
                    "match as-path "@ + n + " (no such as-path access-list; match dropped)"@,
                )
            }
        },
        None => m,
    }
}

/// The same for community lists.
pub open spec fn settle_community(m: RouteMapModel, c: ConfigModel) -> RouteMapModel {
    match m.match_community {
        Some(n) => if names_community(c.community_lists, n) {
            m
        } else {
            RouteMapModel {
                match_community: None,
                ..map_note(
                    m,
                    "match community "@ + n + " (no such community-list; match dropped)"@,
                )
            }
        },
        None => m,
    }
}

/// An entry without dangling references.
pub open spec fn settled(m: RouteMapModel, c: ConfigModel) -> RouteMapModel {
    settle_community(settle_as_path(settle_prefix(m, c), c), c)
}

/// Every reference of an entry resolves.
pub open spec fn resolves(m: RouteMapModel, c: ConfigModel) -> bool {
    &&& m.match_prefix is Some ==> names_prefix_list(c.prefix_lists, m.match_prefix->0)
    &&& m.match_as_path is Some ==> names_as_path(c.as_path_lists, m.match_as_path->0)
    &&& m.match_community is Some ==> names_community(c.community_lists, m.match_community->0)
}

/// Whether a route-map has this name.
pub open spec fn names_route_map(l: Seq<RouteMapModel>, name: Seq<char>) -> bool {
    exists|i: int| 0 <= i < l.len() && (#[trigger] l[i]).name == name
}

/// The note on a route-map that a peer names and that is not there.
pub open spec fn missing_map_note(p: PeerModel, name: Seq<char>, way: Seq<char>) -> Seq<char> {
    "neighbor "@ + (match p.remote {
        Some(r) => r,
        None => "<unknown>"@,
    }) + " route-map "@ + name + way + " (no such route-map; policy dropped)"@
}

/// A peer without an import policy that is not there.
pub open spec fn settle_import(p: PeerModel, maps: Seq<RouteMapModel>) -> PeerModel {
    match p.import {
        Some(n) => if names_route_map(maps, n) {
            p
        } else {
            PeerModel { import: None, ..with_note(p, missing_map_note(p, n, " in"@)) }
        },
        None => p,
    }
}

/// The same for the export policy.
pub open spec fn settle_export(p: PeerModel, maps: Seq<RouteMapModel>) -> PeerModel {
    match p.export {
        Some(n) => if names_route_map(maps, n) {
            p
        } else {
            PeerModel { export: None, ..with_note(p, missing_map_note(p, n, " out"@)) }
        },
        None => p,
    }
}

/// A peer without policies that are not there.
pub open spec fn settled_peer(p: PeerModel, maps: Seq<RouteMapModel>) -> PeerModel {
    settle_export(settle_import(p, maps), maps)
}

/// What is left when the last line was read: peers without an AS are dropped
/// with a note, and dangling references are cleared with a note.
pub open spec fn frr_finish(c: ConfigModel) -> ConfigModel {
    ConfigModel {
        peers: startable(c.peers).map_values(|p: PeerModel| settled_peer(p, c.route_maps)),
        unmapped_global: c.unmapped_global + drop_notes(c.peers),
        route_maps: c.route_maps.map_values(|m: RouteMapModel| settled(m, c)),
        ..c
    }
}

/// What is known before the first line.
pub open spec fn blank_frr() -> FrrModel {
    FrrModel { out: blank_config(), af: None, skipping: false }
}

/// What an FRR configuration is read into.
pub open spec fn frr_config(text: Seq<char>) -> ConfigModel {
    frr_finish(frr_fold(blank_frr(), lines_of(text)).out)
}

/// Every peer kept has an AS.
proof fn startable_have_as(peers: Seq<PeerModel>, i: int)
    requires
        0 <= i < startable(peers).len(),
    ensures
        startable(peers)[i].peer_as is Some,
    decreases peers.len(),
{
    if peers.len() > 0 {
        let before = startable(peers.drop_last());
        if i < before.len() {
            startable_have_as(peers.drop_last(), i);
        }
    }
}

/// Every peer of a converted configuration has an AS: none is emitted that the
/// daemon could not start.
pub proof fn frr_peers_can_start(text: Seq<char>, i: int)
    requires
        0 <= i < frr_config(text).peers.len(),
    ensures
        frr_config(text).peers[i].peer_as is Some,
{
    startable_have_as(
        frr_fold(blank_frr(), lines_of(text)).out.peers,
        i,
    );
}

/// Every list that a converted route-map entry names is there: the daemon
/// refuses unknown names at start.
pub proof fn frr_references_resolve(text: Seq<char>, i: int)
    requires
        0 <= i < frr_config(text).route_maps.len(),
    ensures
        resolves(frr_config(text).route_maps[i], frr_config(text)),
{
}

/// Every route-map that a peer of a converted configuration names is there.
pub proof fn frr_policies_resolve(text: Seq<char>, i: int)
    requires
        0 <= i < frr_config(text).peers.len(),
    ensures
        ({
            let c = frr_config(text);
            let p = c.peers[i];
            &&& p.import is Some ==> names_route_map(c.route_maps, p.import->0)
            &&& p.export is Some ==> names_route_map(c.route_maps, p.export->0)
        }),
{
    let end = frr_fold(blank_frr(), lines_of(text)).out;
    let c = frr_config(text);
    assert forall|n: Seq<char>| names_route_map(end.route_maps, n) implies names_route_map(
        c.route_maps,
        n,
    ) by {
        let k = choose|k: int| 0 <= k < end.route_maps.len() && (#[trigger] end.route_maps[k]).name == n;
        assert(c.route_maps[k].name == n);
    }
}

/// A route-map that a peer names and that is not there leaves a note in place
/// of itself.
pub proof fn frr_missing_policies_are_noted(p: PeerModel, maps: Seq<RouteMapModel>)
    ensures
        p.import is Some && !names_route_map(maps, p.import->0) ==> settled_peer(
            p,
            maps,
        ).import is None && settled_peer(p, maps).unmapped.contains(
            missing_map_note(p, p.import->0, " in"@),
        ),
        p.export is Some && !names_route_map(maps, p.export->0) ==> settled_peer(
            p,
            maps,
        ).export is None && settled_peer(p, maps).unmapped.contains(
            missing_map_note(p, p.export->0, " out"@),
        ),
{
    let q = settle_import(p, maps);
    let r = settle_export(q, maps);
    if p.import is Some && !names_route_map(maps, p.import->0) {
        let k = q.unmapped.len() - 1;
        assert(r.unmapped[k] == missing_map_note(p, p.import->0, " in"@));
    }
    if p.export is Some && !names_route_map(maps, p.export->0) {
        let k = r.unmapped.len() - 1;
        assert(r.unmapped[k] == missing_map_note(p, p.export->0, " out"@));
    }
}

/// A peer without an AS leaves a note in place of itself.
pub proof fn frr_drops_are_noted(peers: Seq<PeerModel>)
    ensures
        startable(peers).len() + drop_notes(peers).len() == peers.len(),
    decreases peers.len(),
{
    if peers.len() > 0 {
        frr_drops_are_noted(peers.drop_last());
    }
}

/// A row that goes by a name.
trait Titled: View + Sized {
    /// The name of a row.
    spec fn title(m: Self::V) -> Seq<char>;

    fn name_of(&self) -> (r: &str)
        ensures
            r@ == Self::title(self@),
    ;
}

impl Titled for PrefixListRow {
    closed spec fn title(m: PrefixListModel) -> Seq<char> {
        m.name
    }

    fn name_of(&self) -> (r: &str) {
        self.name.as_str()
    }
}

impl Titled for AsPathListRow {
    closed spec fn title(m: AsPathListModel) -> Seq<char> {
        m.name
    }

    fn name_of(&self) -> (r: &str) {
        self.name.as_str()
    }
}

impl Titled for CommunityListRow {
    closed spec fn title(m: CommunityListModel) -> Seq<char> {
        m.name
    }

    fn name_of(&self) -> (r: &str) {
        self.name.as_str()
    }
}

impl Titled for RouteMapRow {
    closed spec fn title(m: RouteMapModel) -> Seq<char> {
        m.name
    }

    fn name_of(&self) -> (r: &str) {
        self.name.as_str()
    }
}

fn has_name<T: Titled>(l: &Vec<T>, name: &str) -> (b: bool)
    ensures
        b == exists|i: int| 0 <= i < l@.len() && T::title(#[trigger] views(l@)[i]) == name@,
{
    let mut i: usize = 0;
    while i < l.len()
        invariant
            i <= l@.len(),
            forall|j: int| 0 <= j < i ==> T::title(#[trigger] views(l@)[j]) != name@,
        decreases l@.len() - i,
    {
        if same(l[i].name_of(), name) {
            assert(T::title(views(l@)[i as int]) == name@);
            return true;
        }
        i += 1;
    }
    false
}

fn settle_entry(
    m: &mut RouteMapRow,
    prefixes: &Vec<PrefixListRow>,
    paths: &Vec<AsPathListRow>,
    communities: &Vec<CommunityListRow>,
    Ghost(c): Ghost<ConfigModel>,
)
    requires
        c.prefix_lists == views(prefixes@),
        c.as_path_lists == views(paths@),
        c.community_lists == views(communities@),
    ensures
        final(m)@ == settled(old(m)@, c),
{
    let prefix = own_opt(&m.match_prefix);
    match prefix {
        Some(n) => {
            if !has_name(prefixes, n.as_str()) {
                let mut s = own("match ip address prefix-list ");
                s.append(n.as_str());
                s.append(" (no such prefix-list; match dropped)");
                push_view(&mut m.unmapped, s);
                m.match_prefix = None;
            }
        },
        None => {},
    }
    assert(m@ == settle_prefix(old(m)@, c));
    let ghost m1 = m@;
    let path = own_opt(&m.match_as_path);
    match path {
        Some(n) => {
            if !has_name(paths, n.as_str()) {
                let mut s = own("match as-path ");
                s.append(n.as_str());
                s.append(" (no such as-path access-list; match dropped)");
                push_view(&mut m.unmapped, s);
                m.match_as_path = None;
            }
        },
        None => {},
    }
    assert(m@ == settle_as_path(m1, c));
    let community = own_opt(&m.match_community);
    match community {
        Some(n) => {
            if !has_name(communities, n.as_str()) {
                let mut s = own("match community ");
                s.append(n.as_str());
                s.append(" (no such community-list; match dropped)");
                push_view(&mut m.unmapped, s);
                m.match_community = None;
            }
        },
        None => {},
    }
}

fn note_missing_map(p: &mut PeerOut, name: &str, way: &str)
    ensures
        final(p)@ == with_note(old(p)@, missing_map_note(old(p)@, name@, way@)),
{
    let mut s = own("neighbor ");
    match &p.remote {
        Some(r) => {
            s.append(r.as_str());
        },
        None => {
            s.append("<unknown>");
        },
    }
    s.append(" route-map ");
    s.append(name);
    s.append(way);
    s.append(" (no such route-map; policy dropped)");
    assert(s@ == missing_map_note(p@, name@, way@));
    push_view(&mut p.unmapped, s);
}

fn settle_peer(p: &mut PeerOut, maps: &Vec<RouteMapRow>)
    ensures
        final(p)@ == settled_peer(old(p)@, views(maps@)),
{
    let import = own_opt(&p.import);
    match import {
        Some(n) => {
            if !has_name(maps, n.as_str()) {
                note_missing_map(p, n.as_str(), " in");
                p.import = None;
            }
        },
        None => {},
    }
    assert(p@ == settle_import(old(p)@, views(maps@)));
    let export = own_opt(&p.export);
    match export {
        Some(n) => {
            if !has_name(maps, n.as_str()) {
                note_missing_map(p, n.as_str(), " out");
                p.export = None;
            }
        },
        None => {},
    }
}

fn settle_peers(peers: &mut Vec<PeerOut>, maps: &Vec<RouteMapRow>)
    ensures
        views(final(peers)@) == views(old(peers)@).map_values(
            |p: PeerModel| settled_peer(p, views(maps@)),
        ),
{
    let ghost all = views(peers@);
    let mut k: usize = 0;
    while k < peers.len()
        invariant
            k <= peers@.len(),
            peers@.len() == all.len(),
            forall|j: int|
                0 <= j < k ==> views(peers@)[j] == settled_peer(#[trigger] all[j], views(maps@)),
            forall|j: int| k <= j < all.len() ==> views(peers@)[j] == #[trigger] all[j],
        decreases peers@.len() - k,
    {
        let ghost before = peers@;
        settle_peer(&mut peers[k], maps);
        proof {
            assert forall|j: int| 0 <= j < peers@.len() && j != k implies (#[trigger] peers@[j])
                == before[j] by {}
            assert(views(peers@)[k as int] == settled_peer(all[k as int], views(maps@)));
        }
        k += 1;
    }
    assert(views(peers@) =~= all.map_values(|p: PeerModel| settled_peer(p, views(maps@))));
}

fn drop_unstartable(peers: Vec<PeerOut>, notes: &mut Vec<String>) -> (kept: Vec<PeerOut>)
    ensures
        views(kept@) == startable(views(peers@)),
        views(final(notes)@) == views(old(notes)@) + drop_notes(views(peers@)),
{
    let mut peers = peers;
    let ghost all = views(peers@);
    let mut kept: Vec<PeerOut> = no_items();
    let ghost mut done: int = 0;
    assert(views(notes@) + drop_notes(all.take(0)) =~= views(notes@));
    assert(all.subrange(0, all.len() as int) =~= all);
    while peers.len() > 0
        invariant
            0 <= done <= all.len(),
            views(peers@) == all.subrange(done, all.len() as int),
            views(kept@) == startable(all.take(done)),
            views(notes@) == views(old(notes)@) + drop_notes(all.take(done)),
        decreases peers@.len(),
    {
        proof {
            assert(views(peers@).len() == peers@.len());
            take_step(all, done);
        }
        let ghost b = peers@;
        let p = peers.remove(0);
        proof {
            assert(views(b)[0] == b[0]@);
            assert(p@ == all[done]);
            let want = all.subrange(done + 1, all.len() as int);
            assert forall|i: int| 0 <= i < want.len() implies views(peers@)[i] == want[i] by {
                assert(peers@[i] == b[i + 1]);
                assert(views(b)[i + 1] == b[i + 1]@);
            }
            assert(views(peers@) =~= want);
        }
        if p.peer_as.is_some() {
            push_view(&mut kept, p);
        } else {
            let mut s = own("neighbor ");
            match &p.remote {
                Some(r) => {
                    s.append(r.as_str());
                },
                None => {
                    s.append("<unknown>");
                },
            }
            s.append(": no `remote-as` line found, peer dropped");
            assert(s@ == drop_note(p@));
            push_view(notes, s);
            assert(views(notes@) =~= views(old(notes)@) + drop_notes(all.take(done + 1)));
        }
        proof {
            done = done + 1;
        }
    }
    assert(views(peers@).len() == 0);
    assert(all.take(done) =~= all);
    kept
}

/// Reads an FRR configuration.
pub fn translate_frr(text: &str) -> (r: ConfigOut)
    ensures
        r@ == frr_config(text@),
{
    let ls = lines(text);
    let ghost lv = views(ls@);
    let mut st = FrrState { out: ConfigOut::default(), af: None, skipping: false };
    let ghost st0 = blank_frr();
    let mut i: usize = 0;
    while i < ls.len()
        invariant
            i <= ls@.len(),
            lv == views(ls@),
            st@ == frr_fold(st0, lv.take(i as int)),
        decreases ls@.len() - i,
    {
        proof {
            take_step(lv, i as int);
        }
        frr_line(&mut st, ls[i].as_str());
        i += 1;
    }
    assert(lv.take(i as int) =~= lv);
    let mut out = st.out;
    let ghost c = out@;
    let mut peers: Vec<PeerOut> = no_items();
    peers.append(&mut out.peers);
    assert(views(peers@) =~= c.peers);
    let mut kept = drop_unstartable(peers, &mut out.unmapped_global);
    settle_peers(&mut kept, &out.route_maps);
    out.peers = kept;
    let mut k: usize = 0;
    let ghost mid = out;
    while k < out.route_maps.len()
        invariant
            k <= out.route_maps@.len(),
            out.route_maps@.len() == c.route_maps.len(),
            c.prefix_lists == views(out.prefix_lists@),
            c.as_path_lists == views(out.as_path_lists@),
            c.community_lists == views(out.community_lists@),
            forall|j: int|
                0 <= j < k ==> views(out.route_maps@)[j] == settled(#[trigger] c.route_maps[j], c),
            forall|j: int|
                k <= j < c.route_maps.len() ==> views(out.route_maps@)[j]
                    == #[trigger] c.route_maps[j],
            out@ == (ConfigModel { route_maps: views(out.route_maps@), ..mid@ }),
        decreases out.route_maps@.len() - k,
    {
        let ghost before = out.route_maps@;
        settle_entry(
            &mut out.route_maps[k],
            &out.prefix_lists,
            &out.as_path_lists,
            &out.community_lists,
            Ghost(c),
        );
        proof {
            assert forall|j: int| 0 <= j < out.route_maps@.len() && j != k implies (
            #[trigger] out.route_maps@[j]) == before[j] by {}
            assert(views(out.route_maps@)[k as int] == settled(c.route_maps[k as int], c));
        }
        k += 1;
    }
    assert(views(out.route_maps@) =~= c.route_maps.map_values(|m: RouteMapModel| settled(m, c)));
    assert(out@ =~= frr_finish(c));
    out
}

/// Reads an FRR configuration (see [`translate_frr`]).
pub fn parse_frr_config(text: &str) -> (r: ConfigOut)
    ensures
        r@ == frr_config(text@),
{
    translate_frr(text)
}

} // verus!
