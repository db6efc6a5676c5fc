//! What the lines of both dialects are taken for, and which texts are addresses.

use crate::address::{
    address_text, colon_groups, dotted_quad, groups_of, hex_group, octet, prefix_text, run_of,
};
use crate::babel::is_noise;
use crate::bird::{
    beyond_braces, cleaned_words, has_body, statement_of, trim_braces, value_of, BirdModel,
};
use crate::bird_config::{bird_step, notes_on, reason_for};
use crate::bird_scan::{capture_absorbed, cleaned, inked, statements_of};
use crate::conf::{bare_entry, blank_config, blank_peer, ConfigModel, NamedLinesModel, PeerModel};
use crate::directives::{attached, directive_of, marker_body};
use crate::frr::{
    attribute_effect, code_of, frr_directive, frr_fold, frr_statement, frr_step, neighbor_effect,
    peer_at, says_more, with_peer, FrrModel,
};
use crate::frr_values::{entry_understood, list_understood, only_bounds};
use crate::text::{
    count_of, decimal, find_from, joined_by, pieces_of, starts, trim_end_char_of, trim_of, u32_of,
    u8_of, words_of,
};
use crate::text_laws::splits_are_at_the_first;
use vstd::prelude::*;
use vstd::string::*;

verus! {

proof fn bird_words_differ()
    ensures
        "route"@ != "router"@,
        "route"@ != "protocol"@,
        "route"@ != "local"@,
        "route"@ != "neighbor"@,
        "route"@ != "password"@,
        "route"@ != "ipv4"@,
        "route"@ != "ipv6"@,
        "route"@ != "hold"@,
        "route"@ != "bfd"@,
        "route"@ != "import"@,
        "route"@ != "export"@,
        "router"@ != "protocol"@,
        "router"@ != "local"@,
        "router"@ != "neighbor"@,
        "router"@ != "password"@,
        "router"@ != "ipv4"@,
        "router"@ != "ipv6"@,
        "router"@ != "hold"@,
        "router"@ != "bfd"@,
        "router"@ != "import"@,
        "router"@ != "export"@,
        "protocol"@ != "local"@,
        "protocol"@ != "neighbor"@,
        "protocol"@ != "password"@,
        "protocol"@ != "ipv4"@,
        "protocol"@ != "ipv6"@,
        "protocol"@ != "hold"@,
        "protocol"@ != "bfd"@,
        "protocol"@ != "import"@,
        "protocol"@ != "export"@,
        "local"@ != "neighbor"@,
        "local"@ != "password"@,
        "local"@ != "ipv4"@,
        "local"@ != "ipv6"@,
        "local"@ != "hold"@,
        "local"@ != "bfd"@,
        "local"@ != "import"@,
        "local"@ != "export"@,
        "neighbor"@ != "password"@,
        "neighbor"@ != "ipv4"@,
        "neighbor"@ != "ipv6"@,
        "neighbor"@ != "hold"@,
        "neighbor"@ != "bfd"@,
        "neighbor"@ != "import"@,
        "neighbor"@ != "export"@,
        "password"@ != "ipv4"@,
        "password"@ != "ipv6"@,
        "password"@ != "hold"@,
        "password"@ != "bfd"@,
        "password"@ != "import"@,
        "password"@ != "export"@,
        "ipv4"@ != "ipv6"@,
        "ipv4"@ != "hold"@,
        "ipv4"@ != "bfd"@,
        "ipv4"@ != "import"@,
        "ipv4"@ != "export"@,
        "ipv6"@ != "hold"@,
        "ipv6"@ != "bfd"@,
        "ipv6"@ != "import"@,
        "ipv6"@ != "export"@,
        "hold"@ != "bfd"@,
        "hold"@ != "import"@,
        "hold"@ != "export"@,
        "bfd"@ != "import"@,
        "bfd"@ != "export"@,
        "import"@ != "export"@,
{
    reveal_strlit("route");
    reveal_strlit("router");
    reveal_strlit("protocol");
    reveal_strlit("local");
    reveal_strlit("neighbor");
    reveal_strlit("password");
    reveal_strlit("ipv4");
    reveal_strlit("ipv6");
    reveal_strlit("hold");
    reveal_strlit("bfd");
    reveal_strlit("import");
    reveal_strlit("export");
    assert("route"@.len() == 5);
    assert("router"@.len() == 6);
    assert("protocol"@.len() == 8);
    assert("local"@.len() == 5);
    assert("neighbor"@.len() == 8);
    assert("password"@.len() == 8);
    assert("ipv4"@.len() == 4);
    assert("ipv6"@.len() == 4);
    assert("hold"@.len() == 4);
    assert("bfd"@.len() == 3);
    assert("import"@.len() == 6);
    assert("export"@.len() == 6);
    assert("route"@[0] == 'r');
    assert("local"@[0] == 'l');
    assert("router"@[0] == 'r');
    assert("import"@[0] == 'i');
    assert("export"@[0] == 'e');
    assert("protocol"@[0] == 'p');
    assert("neighbor"@[0] == 'n');
    assert("protocol"@[1] == 'r');
    assert("password"@[1] == 'a');
    assert("password"@[0] == 'p');
    assert("ipv4"@[3] == '4');
    assert("ipv6"@[3] == '6');
    assert("ipv4"@[0] == 'i');
    assert("hold"@[0] == 'h');
    assert("ipv6"@[0] == 'i');
}

/// Whether a line of an open BGP stanza has one of the words that convert.
pub open spec fn converts(ts: Seq<Seq<char>>) -> bool {
    let w = ts[0];
    ||| w == "local"@ && ts.len() >= 3
    ||| w == "neighbor"@ && ts.len() >= 4 && exists|k: int| 1 <= k < ts.len() && #[trigger] ts[k] == "as"@
    ||| w == "password"@ && ts.len() >= 2
    ||| w == "ipv4"@
    ||| w == "ipv6"@
    ||| w == "hold"@ && ts.len() >= 3 && ts[1] == "time"@
    ||| w == "bfd"@
    ||| w == "import"@
    ||| w == "export"@
}

/// A statement of an open BGP stanza is taken for what its first words say; one
/// that converts into nothing and is more than punctuation is kept as unmapped.
pub proof fn statements_go_by_their_words(ts: Seq<Seq<char>>, line: Seq<char>, in_static: bool)
    requires
        ts.len() >= 1,
        ts[0] != "protocol"@,
        !(ts[0] == "route"@ && in_static),
        ts[0] != "router"@,
    ensures
        ({
            let k = statement_of(ts, line, in_static, true);
            let as_there = exists|i: int| 1 <= i < ts.len() && #[trigger] ts[i] == "as"@;
            &&& k is Local <==> ts[0] == "local"@ && ts.len() >= 3
            &&& k is Neighbor <==> ts[0] == "neighbor"@ && ts.len() >= 4 && as_there
            &&& k is Password <==> ts[0] == "password"@ && ts.len() >= 2
            &&& k is Channel <==> ts[0] == "ipv4"@ || ts[0] == "ipv6"@
            &&& k is HoldTime <==> ts[0] == "hold"@ && ts.len() >= 3 && ts[1] == "time"@
            &&& k is Bfd <==> ts[0] == "bfd"@
            &&& k is Policy <==> ts[0] == "import"@ || ts[0] == "export"@
            &&& k is Unmapped <==> !converts(ts) && !is_noise(trim_of(line))
            &&& k is Nothing <==> !converts(ts) && is_noise(trim_of(line))
        }),
        statement_of(ts, line, in_static, false) is Nothing,
{
    bird_words_differ();
}

/// A protocol, a static route and the router id are taken for what they are in
/// every place.
pub proof fn protocols_and_routes_go_by_their_words(
    ts: Seq<Seq<char>>,
    line: Seq<char>,
    in_static: bool,
    open: bool,
)
    requires
        ts.len() >= 3,
    ensures
        ({
            let k = statement_of(ts, line, in_static, open);
            &&& k is Bgp <==> ts[0] == "protocol"@ && ts[1] == "bgp"@
            &&& k is OtherProtocol <==> ts[0] == "protocol"@ && ts[1] != "bgp"@ && ts[1] != "static"@
                && ts[1] != "babel"@
            &&& k is RouterId <==> ts[0] == "router"@ && ts[1] == "id"@
            &&& k is Route <==> ts[0] == "route"@ && in_static && ts[1].contains('/')
        }),
{
    bird_words_differ();
    splits_are_at_the_first(ts[1], '/');
}

/// The value of a policy is the words behind the first, each without its
/// punctuation.
pub proof fn policy_values_are_the_words_behind(ts: Seq<Seq<char>>, i: int)
    requires
        1 <= i < ts.len(),
    ensures
        value_of(ts) == joined_by(cleaned_words(ts, 1), " "@),
        cleaned_words(ts, 1).len() == ts.len() - 1,
        cleaned_words(ts, 1)[i - 1] == cleaned(ts[i]),
{
}

/// Cleaning takes the semicolons and braces off the end of a word, and nothing
/// else.
pub proof fn cleaning_takes_punctuation(w: Seq<char>)
    requires
        w.len() > 0,
        !crate::text::is_space(w[0]),
        !crate::text::is_space(w.last()),
        w.last() != ';',
        w.last() != '{',
    ensures
        cleaned(w) == w,
        cleaned(w + seq![';']) == w,
        cleaned(w + seq!['{'] + seq![';']) == w,
        cleaned(w + seq!['{']) == w,
{
    crate::text_laws::trimmed_texts_stay(w);
    ends_are_cut(w, ';');
    ends_are_cut(w, '{');
    ends_are_cut(w + seq!['{'], ';');
    ends_are_cut(w + seq![';'], '{');
}

proof fn ends_are_cut(w: Seq<char>, c: char)
    requires
        w.len() > 0,
        w.last() != c,
    ensures
        trim_end_char_of(w, c) == w,
        trim_end_char_of(w + seq![c], c) == w,
{
    let a = crate::text_laws::trimming_takes_one_character(w, c);
    let t = trim_end_char_of(w, c);
    if t.len() < w.len() {
        assert(w[w.len() - 1] == c);
    }
    assert(t =~= w);
    let s = w + seq![c];
    let b = crate::text_laws::trimming_takes_one_character(s, c);
    let u = trim_end_char_of(s, c);
    if u.len() == s.len() {
        assert(u.last() == s.last());
    }
    if u.len() < w.len() {
        assert(s[w.len() - 1] == c);
        assert(s[w.len() - 1] == w.last());
    }
    assert(u =~= w);
}

/// The name of another protocol is its word without the braces and semicolons at
/// its end.
pub proof fn braces_are_taken_off(s: Seq<char>, c: char)
    ensures
        c == '{' || c == ';' ==> trim_braces(s.push(c)) == trim_braces(s),
        c != '{' && c != ';' ==> trim_braces(s.push(c)) == s.push(c),
        trim_braces(Seq::empty()).len() == 0,
{
    assert(s.push(c).drop_last() =~= s);
}

/// A channel has a body if some word behind its name is more than braces.
pub proof fn bodies_are_more_than_braces(ts: Seq<Seq<char>>)
    ensures
        has_body(ts) <==> exists|i: int, j: int|
            1 <= i < ts.len() && 0 <= j < ts[i].len() && #[trigger] ts[i][j] != '{' && ts[i][j] != '}',
{
    if has_body(ts) {
        let i = choose|i: int| 1 <= i < ts.len() && beyond_braces(#[trigger] ts[i]);
        let t = ts[i];
        let j = choose|j: int| 0 <= j < t.len() && #[trigger] t[j] != '{' && t[j] != '}';
        assert(ts[i][j] != '{');
    }
    if exists|i: int, j: int|
        1 <= i < ts.len() && 0 <= j < ts[i].len() && #[trigger] ts[i][j] != '{' && ts[i][j] != '}' {
        let (i, j) = choose|i: int, j: int|
            1 <= i < ts.len() && 0 <= j < ts[i].len() && #[trigger] ts[i][j] != '{' && ts[i][j] != '}';
        assert(beyond_braces(ts[i]));
    }
}

/// A block that is captured takes in its lines without their comments.
pub proof fn captured_blocks_take_their_lines(st: BirdModel, raw: Seq<char>)
    requires
        st.capture is Some,
    ensures
        ({
            let line = code_of(raw);
            let c = capture_absorbed(
                st.capture->0,
                line,
                count_of(line, '{'),
                count_of(line, '}'),
            );
            let q = bird_step(st, raw);
            &&& q.current == st.current
            &&& q.pending == st.pending
            &&& !crate::bird_scan::capture_closed(c) ==> q.capture == Some(c) && q.out == st.out
                && q.src == st.src
            &&& crate::bird_scan::capture_closed(c) ==> q.capture is None
        }),
{
}

/// A line of several statements is taken statement by statement; a line of one as
/// it stands.
pub proof fn lines_hold_their_statements(line: Seq<char>)
    ensures
        inked(pieces_of(line, ';')).len() > 1 ==> statements_of(line) == inked(pieces_of(line, ';')),
        inked(pieces_of(line, ';')).len() <= 1 ==> statements_of(line) == seq![line],
{
}

/// Why a filter is not attached: the notes on it, or that there is none.
pub proof fn unattached_filters_have_their_reason(
    failed: Seq<NamedLinesModel>,
    f: NamedLinesModel,
    name: Seq<char>,
)
    ensures
        notes_on(Seq::empty(), name).len() == 0,
        f.name == name ==> notes_on(failed.push(f), name) == notes_on(failed, name) + f.lines,
        f.name != name ==> notes_on(failed.push(f), name) == notes_on(failed, name),
        joined_by(notes_on(failed, name), "; "@).len() == 0 ==> reason_for(failed, name)
            == "filter is not defined in the source config"@,
        joined_by(notes_on(failed, name), "; "@).len() > 0 ==> reason_for(failed, name) == joined_by(
            notes_on(failed, name),
            "; "@,
        ),
{
    assert(failed.push(f).drop_last() =~= failed);
}

/// A comment is no part of its line.
pub proof fn comments_are_cut(a: Seq<char>, b: Seq<char>)
    requires
        !a.contains('#'),
    ensures
        code_of(a) == a,
        code_of(a + seq!['#'] + b) == a,
{
    splits_are_at_the_first(a, '#');
    crate::text::next_where_splits(a, 0, crate::text::char_is('#'));
    assert(a.subrange(0, a.len() as int) =~= a);
    let s = a + seq!['#'] + b;
    assert forall|k: int| 0 <= k < a.len() implies !crate::text::char_is('#')(#[trigger] s[k]) by {
        assert(s[k] == a[k]);
        assert(a.contains(a[k]));
    }
    assert(s[a.len() as int] == '#');
    crate::text::next_where_is(s, 0, crate::text::char_is('#'), a.len() as int);
    assert(s.subrange(0, a.len() as int) =~= a);
}

/// A line of an FRR configuration has its directive and then its statement; a
/// blank line and a comment have none. The lines are taken in order.
pub proof fn frr_lines_are_taken_in_order(st: FrrModel, ls: Seq<Seq<char>>, raw: Seq<char>)
    requires
        !starts(raw, "!"@),
    ensures
        frr_fold(st, Seq::empty()) == st,
        frr_fold(st, ls.push(raw)) == frr_step(frr_fold(st, ls), raw),
        ({
            let line = trim_of(code_of(raw));
            let ts = words_of(line);
            let s = match marker_body(raw, true) {
                Some(body) => FrrModel { out: frr_directive(st.out, body), ..st },
                None => st,
            };
            &&& ts.len() == 0 ==> frr_step(st, raw) == s
            &&& ts.len() > 0 ==> frr_step(st, raw) == frr_statement(s, ts, line)
        }),
{
    assert(ls.push(raw).drop_last() =~= ls);
}

/// A line that starts with an exclamation mark ends a stanza that is not
/// covered, and converts into nothing.
pub proof fn marks_end_stanzas(st: FrrModel, raw: Seq<char>)
    requires
        starts(raw, "!"@),
        words_of(trim_of(code_of(raw))).len() == 0,
    ensures
        !frr_step(st, raw).skipping,
        frr_step(st, raw).af == st.af,
        marker_body(raw, true) is None ==> frr_step(st, raw).out == st.out,
{
}

/// A directive for a neighbor concerns its peer, which joins if it is new; any
/// other directive concerns the whole configuration.
pub proof fn frr_directives_concern_their_peer(c: ConfigModel, body: Seq<char>)
    ensures
        ({
            let ts = words_of(body);
            let d = directive_of(joined_by(ts.subrange(2, ts.len() as int), " "@));
            let one = ts.len() >= 2 && trim_end_char_of(ts[0], ';') == "neighbor"@;
            let q = frr_directive(c, body);
            &&& !one ==> q == (ConfigModel { ext_global: c.ext_global.push(directive_of(body)), ..c })
            &&& one && d.key.len() == 0 ==> {
                &&& q == (ConfigModel { unmapped_global: q.unmapped_global, ..c })
                &&& q.unmapped_global.len() == c.unmapped_global.len() + 1
            }
            &&& one && d.key.len() > 0 ==> {
                let peers = with_peer(c.peers, ts[1]);
                let k = peer_at(c.peers, 0, ts[1]);
                &&& q == (ConfigModel { peers: q.peers, ..c })
                &&& q.peers == peers.update(k, attached(peers[k], d))
            }
        }),
{
}

/// An attribute of a neighbor that converts into nothing is noted as it stands,
/// and so is one without its value.
pub proof fn other_attributes_are_noted(p: PeerModel, addr: Seq<char>, rest: Seq<Seq<char>>)
    requires
        rest.len() >= 1,
    ensures
        ({
            let q = attribute_effect(p, addr, rest);
            let a = rest[0];
            let known = a == "remote-as"@
                || a == "password"@
                || a == "update-source"@
                || a == "port"@
                || a == "shutdown"@
                || a == "bfd"@
                || a == "route-map"@
                || a == "activate"@;
            let noted = PeerModel {
                unmapped: p.unmapped.push("neighbor "@ + addr + " "@ + joined_by(rest, " "@)),
                ..p
            };
            &&& !known ==> q == noted
            &&& rest.len() == 1 && (a == "password"@ || a == "port"@ || a == "update-source"@ || a
                == "route-map"@) ==> q == noted
            &&& rest.len() >= 2 && a == "route-map"@ && (rest.len() == 2 || (rest[2] != "in"@ && rest[2]
                != "out"@)) ==> q == noted
            &&& a == "activate"@ && p.families.contains("ipv6-unicast"@) ==> q == p
            &&& a == "activate"@ && !p.families.contains("ipv6-unicast"@) ==> q == (PeerModel {
                families: p.families.push("ipv6-unicast"@),
                ..p
            })
        }),
{
    reveal_strlit("remote-as");
    reveal_strlit("password");
    reveal_strlit("update-source");
    reveal_strlit("port");
    reveal_strlit("shutdown");
    reveal_strlit("bfd");
    reveal_strlit("route-map");
    reveal_strlit("activate");
    assert("remote-as"@.len() == 9);
    assert("password"@.len() == 8);
    assert("update-source"@.len() == 13);
    assert("port"@.len() == 4);
    assert("shutdown"@.len() == 8);
    assert("bfd"@.len() == 3);
    assert("route-map"@.len() == 9);
    assert("activate"@.len() == 8);
    assert("remote-as"@[1] == 'e');
    assert("route-map"@[1] == 'o');
    assert("password"@[0] == 'p');
    assert("shutdown"@[0] == 's');
    assert("activate"@[0] == 'a');
}

/// A neighbor line with words that its attribute does not speak for is noted,
/// unless they give the AS.
pub proof fn words_beyond_the_attribute_are_noted(
    p: PeerModel,
    addr: Seq<char>,
    rest: Seq<Seq<char>>,
)
    requires
        rest.len() >= 1,
    ensures
        ({
            let a = rest[0];
            let two = a == "remote-as"@ || a == "update-source"@ || a == "port"@;
            let one = a == "bfd"@ || a == "activate"@;
            &&& two && rest.len() == 3 ==> says_more(rest)
            &&& two && rest.len() == 4 ==> (says_more(rest) <==> rest[2] != "remote-as"@)
            &&& two && rest.len() <= 2 ==> !says_more(rest)
            &&& one && rest.len() == 2 ==> says_more(rest)
            &&& one && rest.len() == 3 ==> (says_more(rest) <==> rest[1] != "remote-as"@)
            &&& one && rest.len() == 1 ==> !says_more(rest)
            &&& a == "route-map"@ && rest.len() <= 3 ==> !says_more(rest)
            &&& a == "route-map"@ && rest.len() == 4 ==> says_more(rest)
            &&& says_more(rest) ==> neighbor_effect(p, addr, rest).unmapped == attribute_effect(
                p,
                addr,
                rest,
            ).unmapped.push("neighbor "@ + addr + " "@ + joined_by(rest, " "@))
            &&& !says_more(rest) ==> neighbor_effect(p, addr, rest) == attribute_effect(p, addr, rest)
        }),
{
    reveal_strlit("remote-as");
    reveal_strlit("password");
    reveal_strlit("update-source");
    reveal_strlit("port");
    reveal_strlit("shutdown");
    reveal_strlit("bfd");
    reveal_strlit("route-map");
    reveal_strlit("activate");
    assert("remote-as"@.len() == 9);
    assert("password"@.len() == 8);
    assert("update-source"@.len() == 13);
    assert("port"@.len() == 4);
    assert("shutdown"@.len() == 8);
    assert("bfd"@.len() == 3);
    assert("route-map"@.len() == 9);
    assert("activate"@.len() == 8);
    assert("remote-as"@[1] == 'e');
    assert("route-map"@[1] == 'o');
    assert("password"@[0] == 'p');
    assert("shutdown"@[0] == 's');
    assert("activate"@[0] == 'a');
}

/// The bounds of a prefix-list are understood if they are names and numbers, and
/// nothing else.
pub proof fn bounds_are_names_and_numbers(ts: Seq<Seq<char>>, i: int)
    requires
        0 <= i,
    ensures
        i >= ts.len() ==> only_bounds(ts, i),
        i + 1 == ts.len() ==> !only_bounds(ts, i),
        i + 1 < ts.len() ==> (only_bounds(ts, i) <==> (ts[i] == "ge"@ || ts[i] == "le"@) && u8_of(
            ts[i + 1],
        ) is Some && only_bounds(ts, i + 2)),
        ts.len() > 4 && ts[3] == "seq"@ ==> (list_understood(ts) <==> u32_of(ts[4]) is Some
            && only_bounds(ts, 7)),
        ts.len() > 3 && ts[3] != "seq"@ ==> (list_understood(ts) <==> only_bounds(ts, 5)),
        entry_understood(ts) <==> ts.len() == 4 && (ts[2] == "permit"@ || ts[2] == "deny"@) && u32_of(
            ts[3],
        ) is Some,
{
}

/// What is blank holds nothing.
pub proof fn blanks_hold_nothing(name: Seq<char>, entry: u32, permit: bool)
    ensures
        ({
            let p = blank_peer();
            &&& p.name is None && p.remote is None && p.remote_port is None && p.peer_as is None
            &&& p.local_address is None && p.md5_key is None && p.hold_time is None && p.bfd is None
            &&& p.default_ipv4_unicast is None && p.import is None && p.export is None
            &&& p.import_filter is None && p.export_filter is None && p.families.len() == 0
            &&& !p.channel_v4 && !p.channel_v6 && p.tcp_ao_keys.len() == 0
            &&& p.ext.len() == 0 && p.unmapped.len() == 0
        }),
        ({
            let c = blank_config();
            &&& c.local_as is None && c.router_id is None && c.networks.len() == 0
            &&& c.peers.len() == 0 && c.prefix_lists.len() == 0 && c.as_path_lists.len() == 0
            &&& c.community_lists.len() == 0 && c.route_maps.len() == 0 && c.filters.len() == 0
            &&& c.roas.len() == 0 && c.failed_filters.len() == 0 && c.babel_ifaces.len() == 0
            &&& c.unmapped_global.len() == 0 && c.ext_global.len() == 0
            &&& c.ignored_protocols.len() == 0 && c.enforce_first_as is None
        }),
        ({
            let e = bare_entry(name, entry, permit);
            &&& e.name == name && e.entry == entry && e.permit == permit
            &&& e.match_prefix is None && e.match_as_path is None && e.match_community is None
            &&& e.set_local_pref is None && e.set_med is None && e.set_next_hop is None
            &&& e.prepend is None && e.add_community is None && e.unmapped.len() == 0
        }),
{
}

/// An octet is a byte in decimal as it is written.
pub proof fn octets_are_bytes(n: nat, t: Seq<char>)
    ensures
        octet(decimal(n)) <==> n <= 255,
        octet(t) ==> exists|b: u8| t == #[trigger] decimal(b as nat),
{
    crate::text_laws::numbers_are_read_by_their_digits(decimal(n), '0', n, 255);
    if octet(t) {
        let b = u8_of(t)->0;
        assert(t == decimal(b as nat));
    }
}

/// Four octets between dots are an IPv4 address, and nothing else is.
pub proof fn quads_are_four_octets(t: Seq<char>)
    ensures
        dotted_quad(t) <==> pieces_of(t, '.').len() == 4 && octet(pieces_of(t, '.')[0]) && octet(
            pieces_of(t, '.')[1],
        ) && octet(pieces_of(t, '.')[2]) && octet(pieces_of(t, '.')[3]),
{
}

/// A group is one to four hexadecimal digits.
pub proof fn groups_are_hexadecimal(t: Seq<char>)
    ensures
        hex_group(t) <==> 1 <= t.len() && t.len() <= 4 && forall|i: int|
            0 <= i < t.len() ==> ('0' <= #[trigger] t[i] <= '9') || ('a' <= t[i] <= 'f') || ('A' <= t[i]
                <= 'F'),
{
}

proof fn groups_count(ps: Seq<Seq<char>>, n: int)
    requires
        0 <= n <= ps.len(),
    ensures
        groups_of(ps, n) is Some <==> forall|i: int| 0 <= i < n ==> hex_group(#[trigger] ps[i]),
        groups_of(ps, n) is Some ==> groups_of(ps, n)->0 == n,
    decreases n,
{
    if n > 0 {
        groups_count(ps, n - 1);
        if groups_of(ps, n) is Some {
            assert forall|i: int| 0 <= i < n implies hex_group(#[trigger] ps[i]) by {
                if i == n - 1 {
                    assert(hex_group(ps[n - 1]));
                }
            }
        }
    }
}

/// A run between colons counts a group for each piece, and two for an IPv4
/// address at its end.
pub proof fn runs_count_their_groups(t: Seq<char>, ends: bool)
    requires
        t.len() > 0,
    ensures
        ({
            let ps = pieces_of(t, ':');
            let n = ps.len() as int;
            let all = |m: int| forall|i: int| 0 <= i < m ==> hex_group(#[trigger] ps[i]);
            let quad = ends && dotted_quad(ps.last());
            &&& !quad && all(n) ==> run_of(t, ends) == Some(n as nat)
            &&& !quad && !all(n) ==> run_of(t, ends) is None
            &&& quad && all(n - 1) ==> run_of(t, ends) == Some((n + 1) as nat)
            &&& quad && !all(n - 1) ==> run_of(t, ends) is None
        }),
        run_of(Seq::empty(), ends) == Some(0nat),
{
    let ps = pieces_of(t, ':');
    crate::text_laws::pieces_join_back(t, ':');
    groups_count(ps, ps.len() as int);
    groups_count(ps, ps.len() - 1);
}

/// An IPv6 address has eight groups, or fewer around one `::`.
pub proof fn colon_addresses_have_eight_groups(t: Seq<char>)
    ensures
        ({
            let i = find_from(t, 0, "::"@);
            let a = run_of(t.subrange(0, i), false);
            let b = run_of(t.subrange(i + 2, t.len() as int), true);
            &&& i < 0 ==> (colon_groups(t) <==> run_of(t, true) == Some(8nat))
            &&& i >= 0 ==> (colon_groups(t) <==> a is Some && b is Some && a->0 + b->0 < 8)
        }),
        address_text(t) <==> dotted_quad(t) || colon_groups(t),
{
}

/// A prefix is an address and a length that fits it.
pub proof fn prefixes_are_address_and_length(a: Seq<char>, n: nat)
    requires
        !a.contains('/'),
    ensures
        prefix_text(a) == false,
        prefix_text(a + seq!['/'] + decimal(n)) <==> (dotted_quad(a) && n <= 32) || (colon_groups(a) && n
            <= 128),
{
    splits_are_at_the_first(a, '/');
    let s = a + seq!['/'] + decimal(n);
    assert(s[a.len() as int] == '/');
    assert forall|k: int| 0 <= k < a.len() implies !crate::text::char_is('/')(#[trigger] s[k]) by {
        assert(s[k] == a[k]);
        assert(a.contains(a[k]));
    }
    crate::text::next_where_is(s, 0, crate::text::char_is('/'), a.len() as int);
    assert(s.subrange(0, a.len() as int) =~= a);
    assert(s.subrange(a.len() as int + 1, s.len() as int) =~= decimal(n));
    crate::text_laws::numbers_are_read_by_their_digits(decimal(n), '0', n, 255);
}

} // verus!
