//! What command lines ask for and get, and what the documents of a configuration
//! hold.

use crate::commands::{
    blank_replay, decode_request, is_replay_option, kind_of, mrt_request, replay_from,
    route_row_text, routes_request, translate_request, with_option, ReplayArgsModel, ReplayModel,
    RoutesRequest, WireKind,
};
use crate::ctl::{
    any_line_for, command_of, compiled_text, filter_command, lines_for, reports_error,
    routes_command, socket_from, terminated, CtlModel, SocketSplit,
};
use crate::exchange::{
    action_after, reply_after, reply_verdict, SendStage, TripActionModel, TripEventModel,
};
use crate::hex::argument_bytes;
use crate::mrt::padded;
use crate::privdrop::{
    drop_plan, identity_text, resolved, switch_fault, target_gid, DropPlan, Ids, SwitchEnd,
    SystemView,
};
use crate::signal::{
    console_signal, delivered, handled, install_next, taken, Delivery, Install, Signals,
};
use crate::text::{after_prefix, decimal, joined_by, lines_of, starts, u32_of, word, words_of};
use crate::text_laws::{parts_stand_in_texts, splits_are_at_the_first};
use crate::yang::{
    babel_container, babel_document, babel_keys, base64_text, chain_keys, group_of, identity_of,
    indented, key_fault, keychain_document, keys_fault, model_of, rendering, request_from,
    request_of, xml_text, BabelConfigModel, KeyModel, RequestModel, YangModel,
};
use vstd::prelude::*;
use vstd::string::*;
use vstd::utf8::encode_utf8;

verus! {

/// The name of a model is the model.
pub proof fn models_have_their_names(s: Seq<char>)
    ensures
        model_of(s) == Some(YangModel::Babel) <==> s == "babel"@,
        model_of(s) == Some(YangModel::Keychain) <==> s == "keychain"@,
        model_of(s) == Some(YangModel::All) <==> s == "all"@,
{
    reveal_strlit("babel");
    reveal_strlit("keychain");
    reveal_strlit("all");
    assert("babel"@.len() == 5);
    assert("keychain"@.len() == 8);
    assert("all"@.len() == 3);
}

/// The configured group is used if it is an address, and the standard one
/// otherwise.
pub proof fn groups_are_addresses(c: BabelConfigModel)
    ensures
        c.group is Some && c.group_is_address ==> group_of(c) == c.group->0,
        c.group is None || !c.group_is_address ==> group_of(c) == "ff02::1:6"@,
{
}

/// An algorithm has its identity in each model; there is none for BLAKE2s in a
/// key chain, and a key without an algorithm uses HMAC-SHA256.
pub proof fn algorithms_have_their_identity(a: Option<Seq<char>>)
    ensures
        a is None || a == Some("hmac-sha256"@) ==> {
            &&& identity_of(a, true) == Some("key-chain:hmac-sha-256"@)
            &&& identity_of(a, false) == Some("babel:hmac-sha256"@)
        },
        a == Some("blake2s"@) ==> identity_of(a, true) is None && identity_of(a, false) == Some(
            "babel:blake2s"@,
        ),
        a is Some && a->0 != "hmac-sha256"@ && a->0 != "blake2s"@ ==> identity_of(a, true) is None
            && identity_of(a, false) is None,
{
    reveal_strlit("hmac-sha256");
    reveal_strlit("blake2s");
    assert("hmac-sha256"@.len() == 11);
    assert("blake2s"@.len() == 7);
}

/// The keys are rendered in turn, by their place, with their secrets and their
/// algorithms.
pub proof fn keys_are_rendered_in_turn(ks: Seq<KeyModel>, k: KeyModel)
    requires
        k.secret is Some,
    ensures
        babel_keys(Seq::empty()).len() == 0,
        chain_keys(Seq::empty()).len() == 0,
        identity_of(k.algorithm, false) is Some ==> babel_keys(ks.push(k)) == babel_keys(ks)
            + "    <keys>\n      <name>key-"@ + decimal(ks.len())
            + "</name>\n      <use-send>true</use-send>\n      <use-verify>true</use-verify>\n      <value>"@
            + base64_text(encode_utf8(k.secret->0)) + "</value>\n      <algorithm>"@ + xml_text(
            identity_of(k.algorithm, false)->0,
        ) + "</algorithm>\n    </keys>\n"@,
        identity_of(k.algorithm, true) is Some ==> chain_keys(ks.push(k)) == chain_keys(ks)
            + "    <key>\n      <key-id>"@ + decimal(ks.len())
            + "</key-id>\n      <crypto-algorithm>"@ + xml_text(identity_of(k.algorithm, true)->0)
            + "</crypto-algorithm>\n      <key-string>\n        <keystring>"@ + xml_text(k.secret->0)
            + "</keystring>\n      </key-string>\n      <lifetime>\n        <send-accept-lifetime>\n          <always/>\n        </send-accept-lifetime>\n      </lifetime>\n    </key>\n"@,
{
    assert(ks.push(k).drop_last() =~= ks);
}

/// A model is rendered exactly if every key can be; the document of both holds
/// each.
pub proof fn models_are_rendered(c: BabelConfigModel, m: YangModel)
    ensures
        ({
            let r = rendering(c, m);
            let babel = keys_fault(c.keys, false) is None;
            let chain = keys_fault(c.keys, true) is None;
            let head =
                "<config xmlns:babel=\"urn:ietf:params:xml:ns:yang:ietf-babel\" xmlns:key-chain=\"urn:ietf:params:xml:ns:yang:ietf-key-chain\">\n"@;
            &&& m is Babel ==> (r is Ok <==> babel)
            &&& m is Keychain ==> (r is Ok <==> chain)
            &&& m is All ==> (r is Ok <==> babel && chain)
            &&& m is Babel && r is Ok ==> r->Ok_0 == babel_document(c)
            &&& m is Keychain && r is Ok ==> r->Ok_0 == keychain_document(c)
            &&& m is All && r is Ok && c.keys.len() == 0 ==> r->Ok_0 == head + babel_document(c)
                + "</config>\n"@
            &&& m is All && r is Ok && c.keys.len() > 0 ==> r->Ok_0 == head + (babel_document(c) + "\n"@
                + keychain_document(c)) + "</config>\n"@
        }),
        keychain_document(BabelConfigModel { keys: Seq::empty(), ..c }).len() == 0,
{
}

/// The container of a configuration holds its port, its group and its keys.
pub proof fn containers_hold_port_and_group(c: BabelConfigModel)
    ensures
        ({
            let head =
                "<babel xmlns=\"urn:ietf:params:xml:ns:yang:ietf-babel\">\n  <enable>true</enable>\n  <constants>\n    <udp-port>"@
                + decimal(c.port as nat) + "</udp-port>\n    <mcast-group>"@ + xml_text(group_of(c))
                + "</mcast-group>\n  </constants>\n"@;
            &&& c.keys.len() == 0 ==> babel_container(c) =~= head + "</babel>\n"@
            &&& c.keys.len() > 0 ==> babel_container(c) =~= head
                + ("  <mac-key-set>\n    <name>lr</name>\n    <default-apply>true</default-apply>\n"@
                + babel_keys(c.keys) + "  </mac-key-set>\n"@) + "</babel>\n"@
        }),
{
}

/// Indented lines are the lines, each behind its spaces.
pub proof fn lines_are_indented(ls: Seq<Seq<char>>, l: Seq<char>)
    ensures
        indented(Seq::empty()).len() == 0,
        indented(ls.push(l)) == indented(ls) + "      "@ + l + "\n"@,
{
    assert(ls.push(l).drop_last() =~= ls);
}

/// The first key that cannot be rendered is the fault, by its place.
pub proof fn the_first_bad_key_is_named(ks: Seq<KeyModel>, k: KeyModel, chain: bool)
    ensures
        keys_fault(Seq::empty(), chain) is None,
        keys_fault(ks, chain) is Some ==> keys_fault(ks.push(k), chain) == keys_fault(ks, chain),
        keys_fault(ks, chain) is None ==> keys_fault(ks.push(k), chain) == key_fault(
            k,
            ks.len(),
            chain,
        ),
        key_fault(k, ks.len(), chain) is None <==> k.secret is Some && identity_of(
            k.algorithm,
            chain,
        ) is Some,
{
    assert(ks.push(k).drop_last() =~= ks);
}

/// A request for documents reads its arguments in turn: a model where one is
/// named, and otherwise the path of the configuration.
pub proof fn document_requests_are_read_in_turn(
    args: Seq<Seq<char>>,
    i: int,
    path: Option<Seq<char>>,
    model: YangModel,
)
    requires
        0 <= i,
    ensures
        ({
            let r = request_from(args, i, path, model);
            &&& i >= args.len() && path is Some ==> r == (RequestModel::Render { path: path->0, model })
            &&& i >= args.len() && path is None ==> r is Refused
            &&& i < args.len() && args[i] == "--model"@ && i + 1 < args.len() && model_of(args[i + 1])
                is Some ==> r == request_from(args, i + 2, path, model_of(args[i + 1])->0)
            &&& i < args.len() && args[i] == "--model"@ && (i + 1 >= args.len() || model_of(
                args[i + 1],
            ) is None) ==> r is Refused
            &&& i < args.len() && (args[i] == "--help"@ || args[i] == "-h"@) ==> r is Help
            &&& i < args.len() && args[i] != "--model"@ && args[i] != "--help"@ && args[i] != "-h"@ ==> {
                &&& path is None ==> r == request_from(args, i + 1, Some(args[i]), model)
                &&& path is Some ==> r is Refused
            }
        }),
        args.len() > 0 && args[0] == "render"@ ==> request_of(args) == request_from(
            args,
            1,
            None,
            YangModel::All,
        ),
        args.len() == 0 || args[0] != "render"@ ==> request_of(args) == request_from(
            args,
            0,
            None,
            YangModel::All,
        ),
{
    reveal_strlit("--model");
    reveal_strlit("--help");
    reveal_strlit("-h");
    assert("--model"@.len() == 7);
    assert("--help"@.len() == 6);
    assert("-h"@.len() == 2);
}

/// A kind of message has its format.
pub proof fn kinds_have_their_format(k: Seq<char>)
    ensures
        kind_of(k) == Some(WireKind::Bgp) <==> k == "bgp-open"@ || k == "bgp-keepalive"@ || k
            == "bgp-update"@,
        kind_of(k) == Some(WireKind::Bfd) <==> k == "bfd"@,
        kind_of(k) == Some(WireKind::Ospf) <==> k == "ospf-hello"@,
        kind_of(k) == Some(WireKind::Babel) <==> k == "babel-tlv"@,
{
    reveal_strlit("bgp-open");
    reveal_strlit("bgp-keepalive");
    reveal_strlit("bgp-update");
    reveal_strlit("bfd");
    reveal_strlit("ospf-hello");
    reveal_strlit("babel-tlv");
    assert("bgp-open"@.len() == 8);
    assert("bgp-keepalive"@.len() == 13);
    assert("bgp-update"@.len() == 10);
    assert("bfd"@.len() == 3);
    assert("ospf-hello"@.len() == 10);
    assert("babel-tlv"@.len() == 9);
    assert("bgp-update"@[0] == 'b');
    assert("ospf-hello"@[0] == 'o');
}

/// A message is decoded if its kind is known and its bytes can be read.
pub proof fn decoding_needs_kind_and_bytes(args: Seq<Seq<char>>)
    ensures
        ({
            let r = decode_request(args);
            let sound = args.len() >= 2 && argument_bytes(args[1]) is Ok && kind_of(args[0]) is Some;
            &&& r is Ok <==> sound
            &&& sound ==> r->Ok_0 == (kind_of(args[0])->0, argument_bytes(args[1])->Ok_0)
            &&& args.len() < 2 ==> r->Err_0.code == 2
            &&& args.len() >= 2 && argument_bytes(args[1]) is Err ==> r->Err_0.code == 1
            &&& args.len() >= 2 && argument_bytes(args[1]) is Ok && !sound ==> r->Err_0.code == 2
        }),
{
}

/// Routes are listed, added and deleted as asked; an argument that is none is
/// refused.
pub proof fn route_commands_do_what_they_say(args: Seq<Seq<char>>, prefix_ok: bool, gw_ok: bool)
    ensures
        ({
            let r = routes_request(args, prefix_ok, gw_ok);
            let c = args[0];
            let del = c == "del"@ || c == "delete"@;
            &&& args.len() == 0 ==> r is Err && r->Err_0.code == 2
            &&& args.len() > 0 ==> {
                &&& c == "list"@ ==> r is Ok && r->Ok_0 is List
                &&& c == "add"@ ==> {
                    &&& r is Ok <==> args.len() >= 4 && prefix_ok && gw_ok && u32_of(args[3]) is Some
                    &&& r is Ok ==> r->Ok_0 == (RoutesRequest::Add { if_index: u32_of(args[3])->0 })
                    &&& r is Err ==> r->Err_0.code == (if args.len() < 4 {
                        2u8
                    } else {
                        1u8
                    })
                }
                &&& del ==> {
                    &&& r is Ok <==> args.len() >= 2 && prefix_ok
                    &&& r is Ok ==> r->Ok_0 is Delete
                    &&& r is Err ==> r->Err_0.code == (if args.len() < 2 {
                        2u8
                    } else {
                        1u8
                    })
                }
                &&& c != "list"@ && c != "add"@ && !del ==> r is Err && r->Err_0.code == 2
            }
        }),
{
    reveal_strlit("list");
    reveal_strlit("add");
    reveal_strlit("del");
    reveal_strlit("delete");
    assert("list"@.len() == 4);
    assert("add"@.len() == 3);
    assert("del"@.len() == 3);
    assert("delete"@.len() == 6);
    assert("add"@[0] == 'a');
    assert("del"@[0] == 'd');
}

/// A kernel route is shown by its prefix, its next hop, its interface, its metric
/// and its protocol.
pub proof fn route_rows_have_their_columns(
    prefix: Seq<char>,
    hop: Option<Seq<char>>,
    if_index: Option<u32>,
    metric: u32,
    protocol: Seq<char>,
)
    ensures
        ({
            let h = if hop is Some {
                hop->0
            } else {
                "(none)"@
            };
            let i = if if_index is Some {
                decimal(if_index->0 as nat)
            } else {
                decimal(0)
            };
            route_row_text(prefix, hop, if_index, metric, protocol) == padded(prefix, 32) + " "@
                + padded(h, 20) + " "@ + padded(i, 4) + " "@ + padded(decimal(metric as nat), 6) + " "@
                + protocol
        }),
{
}

/// The views of a dump and the languages of a configuration go by their names; a
/// file that cannot be read is reported before the name is looked at.
pub proof fn views_and_languages_go_by_name(args: Seq<Seq<char>>, fault: Option<Seq<char>>)
    ensures
        ({
            let r = mrt_request(args, fault);
            &&& r is Ok <==> args.len() >= 2 && fault is None && (args[0] == "parse"@ || args[0]
                == "rib"@)
            &&& r is Ok ==> (r->Ok_0 is Parse <==> args[0] == "parse"@)
            &&& r is Err ==> r->Err_0.code == (if args.len() >= 2 && fault is Some {
                1u8
            } else {
                2u8
            })
        }),
        ({
            let r = translate_request(args, fault);
            &&& r is Ok <==> args.len() >= 2 && fault is None && (args[0] == "bird"@ || args[0]
                == "frr"@)
            &&& r is Ok ==> (r->Ok_0 is Bird <==> args[0] == "bird"@)
            &&& r is Err ==> r->Err_0.code == (if args.len() >= 2 && fault is Some {
                1u8
            } else {
                2u8
            })
        }),
{
    reveal_strlit("parse");
    reveal_strlit("rib");
    reveal_strlit("bird");
    reveal_strlit("frr");
    assert("parse"@.len() == 5);
    assert("rib"@.len() == 3);
    assert("bird"@.len() == 4);
    assert("frr"@.len() == 3);
    assert("rib"@[0] == 'r');
    assert("frr"@[0] == 'f');
}

/// An option of the replay sets the value it names and no other.
pub proof fn replay_options_set_their_value(c: ReplayModel, o: Seq<char>, v: Seq<char>)
    ensures
        o == "--capture"@ ==> with_option(c, o, v) == Ok::<ReplayModel, Seq<char>>(
            ReplayModel { capture: v, ..c },
        ),
        o == "--direction"@ ==> with_option(c, o, v) == Ok::<ReplayModel, Seq<char>>(
            ReplayModel { direction: v, ..c },
        ),
        o == "--router-id"@ ==> with_option(c, o, v) == Ok::<ReplayModel, Seq<char>>(
            ReplayModel { router_id: v, ..c },
        ),
        o == "--output"@ ==> with_option(c, o, v) == Ok::<ReplayModel, Seq<char>>(
            ReplayModel { output: v, ..c },
        ),
        o == "--local-as"@ && u32_of(v) is Some ==> with_option(c, o, v) == Ok::<
            ReplayModel,
            Seq<char>,
        >(ReplayModel { local_as: u32_of(v)->0, ..c }),
        o == "--peer-as"@ && u32_of(v) is Some ==> with_option(c, o, v) == Ok::<
            ReplayModel,
            Seq<char>,
        >(ReplayModel { peer_as: u32_of(v)->0, ..c }),
        (o == "--local-as"@ || o == "--peer-as"@) && u32_of(v) is None ==> with_option(c, o, v) is Err,
        is_replay_option(o) <==> o == "--capture"@ || o == "--direction"@ || o == "--local-as"@ || o
            == "--peer-as"@ || o == "--router-id"@ || o == "--output"@,
{
    reveal_strlit("--capture");
    reveal_strlit("--direction");
    reveal_strlit("--local-as");
    reveal_strlit("--peer-as");
    reveal_strlit("--router-id");
    reveal_strlit("--output");
    assert("--capture"@.len() == 9);
    assert("--direction"@.len() == 11);
    assert("--local-as"@.len() == 10);
    assert("--peer-as"@.len() == 9);
    assert("--router-id"@.len() == 11);
    assert("--output"@.len() == 8);
    assert("--capture"@[2] == 'c');
    assert("--peer-as"@[2] == 'p');
    assert("--direction"@[2] == 'd');
    assert("--router-id"@[2] == 'r');
}

/// The arguments of a replay are read in pairs; it runs with a capture, an
/// identifier and a place for its dump, and takes what went down unless told
/// otherwise.
pub proof fn replays_are_read_in_pairs(args: Seq<Seq<char>>, i: int, c: ReplayModel)
    requires
        0 <= i,
    ensures
        ({
            let r = replay_from(args, i, c);
            let whole = c.capture.len() > 0 && c.router_id.len() > 0 && c.output.len() > 0;
            &&& i >= args.len() ==> (r is Run <==> whole)
            &&& i >= args.len() && whole ==> r == ReplayArgsModel::Run(c)
            &&& i < args.len() && !is_replay_option(args[i]) ==> r is Usage && r->Usage_0 is Some
            &&& i + 1 < args.len() && is_replay_option(args[i]) ==> {
                let d = with_option(c, args[i], args[i + 1]);
                &&& d is Ok ==> r == replay_from(args, i + 2, d->Ok_0)
                &&& d is Err ==> r == ReplayArgsModel::Bad(d->Err_0)
            }
        }),
        blank_replay().direction == "down"@,
        blank_replay().capture.len() == 0,
        blank_replay().router_id.len() == 0,
        blank_replay().output.len() == 0,
        blank_replay().local_as == 0,
        blank_replay().peer_as == 0,
{
}

/// The first socket that is named counts; an option without its value is
/// refused, and any other argument stays.
pub proof fn the_first_socket_counts(args: Seq<Seq<char>>, i: int, s: SocketSplit, path: Seq<char>)
    requires
        0 <= i < args.len(),
    ensures
        ({
            let r = socket_from(args, i, s);
            let opt = args[i] == "--socket"@ || args[i] == "-s"@;
            let set = |p: Seq<char>|
                SocketSplit {
                    socket: if s.socket is Some {
                        s.socket
                    } else {
                        Some(p)
                    },
                    rest: s.rest,
                };
            &&& opt && i + 1 < args.len() ==> r == socket_from(args, i + 2, set(args[i + 1]))
            &&& opt && i + 1 == args.len() ==> r is None
            &&& !opt && args[i] == "--socket="@ + path ==> r == socket_from(args, i + 1, set(path))
            &&& !opt && after_prefix(args[i], "--socket="@) is None ==> r == socket_from(
                args,
                i + 1,
                SocketSplit { socket: s.socket, rest: s.rest.push(args[i]) },
            )
        }),
{
    parts_stand_in_texts(args[i], "--socket="@, path);
}

/// A command line asks for what its first word says.
pub proof fn commands_go_by_their_word(args: Seq<Seq<char>>)
    ensures
        args.len() == 0 ==> command_of(args) is Stop && command_of(args)->code == 1,
        args.len() > 0 ==> {
            let c = args[0];
            let rest = args.subrange(1, args.len() as int);
            let r = command_of(args);
            let version = c == "version"@ || c == "--version"@ || c == "-v"@;
            let help = c == "help"@ || c == "--help"@ || c == "-h"@;
            let plain = c == "status"@ || c == "reload"@ || c == "shutdown"@;
            &&& version ==> r is Version
            &&& help ==> r is Help
            &&& plain ==> r == CtlModel::Proxy(c)
            &&& c == "sessions"@ && (rest.len() == 0 || (rest.len() == 1 && rest[0] == "list"@)) ==> r
                == CtlModel::Proxy("sessions"@)
            &&& c == "sessions"@ && !(rest.len() == 0 || (rest.len() == 1 && rest[0] == "list"@)) ==> r
                is Stop && r->code == 2
            &&& c == "routes"@ ==> r == routes_command(rest)
            &&& c == "filter"@ ==> r == filter_command(rest)
            &&& !version && !help && !plain && c != "sessions"@ && c != "routes"@ && c != "filter"@ ==> r
                is Stop && r->code == 2 && r->usage
        },
{
    reveal_strlit("version");
    reveal_strlit("--version");
    reveal_strlit("-v");
    reveal_strlit("help");
    reveal_strlit("--help");
    reveal_strlit("-h");
    reveal_strlit("status");
    reveal_strlit("reload");
    reveal_strlit("shutdown");
    reveal_strlit("sessions");
    reveal_strlit("routes");
    reveal_strlit("filter");
    assert("version"@.len() == 7);
    assert("--version"@.len() == 9);
    assert("-v"@.len() == 2);
    assert("help"@.len() == 4);
    assert("--help"@.len() == 6);
    assert("-h"@.len() == 2);
    assert("status"@.len() == 6);
    assert("reload"@.len() == 6);
    assert("shutdown"@.len() == 8);
    assert("sessions"@.len() == 8);
    assert("routes"@.len() == 6);
    assert("filter"@.len() == 6);
    assert("-v"@[1] == 'v');
    assert("-h"@[1] == 'h');
    assert("--help"@[0] == '-');
    assert("status"@[0] == 's');
    assert("reload"@[0] == 'r');
    assert("routes"@[0] == 'r');
    assert("filter"@[0] == 'f');
    assert("reload"@[1] == 'e');
    assert("routes"@[1] == 'o');
    assert("shutdown"@[1] == 'h');
    assert("sessions"@[1] == 'e');
}

/// Routes are shown, or dumped to a path; a filter is compiled from the words
/// behind it.
pub proof fn routes_and_filters_are_asked_for(rest: Seq<Seq<char>>)
    ensures
        rest.len() == 1 && rest[0] == "show"@ ==> routes_command(rest) == CtlModel::Show(None),
        rest.len() > 1 && rest[0] == "show"@ ==> routes_command(rest) == CtlModel::Show(Some(rest[1])),
        rest.len() > 1 && rest[0] == "dump"@ ==> routes_command(rest) == CtlModel::Proxy(
            "mrt "@ + rest[1],
        ),
        rest.len() == 0 || (rest.len() == 1 && rest[0] == "dump"@) || (rest[0] != "show"@ && rest[0]
            != "dump"@) ==> routes_command(rest) is Stop && routes_command(rest)->code == 2,
        rest.len() > 1 && rest[0] == "compile"@ ==> filter_command(rest) == CtlModel::Compile(
            joined_by(rest.subrange(1, rest.len() as int), " "@),
        ),
        rest.len() < 2 || rest[0] != "compile"@ ==> filter_command(rest) is Stop && filter_command(
            rest,
        )->code == 2,
{
    reveal_strlit("show");
    reveal_strlit("dump");
    reveal_strlit("compile");
    assert("show"@.len() == 4);
    assert("dump"@.len() == 4);
    assert("compile"@.len() == 7);
    assert("show"@[0] == 's');
    assert("dump"@[0] == 'd');
}

/// The lines of a prefix are those that start with it as a word, whole and in
/// order.
pub proof fn lines_go_by_their_first_word(ls: Seq<Seq<char>>, l: Seq<char>, prefix: Seq<char>)
    requires
        words_of(l).len() > 0,
    ensures
        lines_for(Seq::empty(), prefix).len() == 0,
        lines_for(ls.push(l), prefix) == (if words_of(l)[0] == prefix {
            lines_for(ls, prefix) + l + "\n"@
        } else {
            lines_for(ls, prefix)
        }),
        any_line_for(ls.push(l), prefix) <==> any_line_for(ls, prefix) || words_of(l)[0] == prefix,
{
    assert(ls.push(l).drop_last() =~= ls);
    let all = ls.push(l);
    assert(all[ls.len() as int] == l);
    if any_line_for(ls, prefix) {
        let i = choose|i: int| 0 <= i < ls.len() && word(words_of(#[trigger] ls[i]), 0) == prefix;
        assert(all[i] == ls[i]);
    }
    if any_line_for(all, prefix) {
        let i = choose|i: int| 0 <= i < all.len() && word(words_of(#[trigger] all[i]), 0) == prefix;
        if i < ls.len() {
            assert(all[i] == ls[i]);
        }
    }
}

/// A reply reports an error if some line of it starts with `error:`.
pub proof fn errors_are_lines(body: Seq<char>, s: Seq<char>, n: u64, f: u64)
    ensures
        reports_error(body) <==> exists|i: int|
            0 <= i < lines_of(body).len() && starts(#[trigger] lines_of(body)[i], "error:"@),
        s.len() > 0 && s.last() == '\n' ==> terminated(s) == s,
        s.len() == 0 || s.last() != '\n' ==> terminated(s) == s.push('\n'),
        f == 0 ==> compiled_text(n, f) =~= "ok ("@ + decimal(n as nat) + " statement(s)"@ + ")"@,
        f > 0 ==> compiled_text(n, f) =~= "ok ("@ + decimal(n as nat) + " statement(s)"@ + (", "@
            + decimal(f as nat) + " function(s)"@) + ")"@,
{
    reveal_strlit("\n");
    let nl = "\n"@;
    if s.len() > 0 {
        let d = s.drop_last();
        if s.last() == '\n' {
            assert(s =~= d + nl);
            parts_stand_in_texts(s, nl, d);
        } else {
            if crate::text::ends(s, nl) {
                assert(s.subrange(s.len() - 1, s.len() as int)[0] == s.last());
                assert(nl[0] == '\n');
            }
        }
    }
    if s.len() == 0 || s.last() != '\n' {
        assert(s + nl =~= s.push('\n'));
    }
}

/// A number is the id itself, a name the id that the system knows it by.
pub proof fn ids_are_numbers_or_known_names(t: Seq<char>, what: Seq<char>, known: Option<u32>)
    ensures
        u32_of(t) is Some ==> resolved(t, what, known) == Ok::<u32, Seq<char>>(u32_of(t)->0),
        u32_of(t) is None ==> (resolved(t, what, known) is Ok <==> known is Some && !t.contains('\0')),
        u32_of(t) is None && resolved(t, what, known) is Ok ==> resolved(t, what, known)->Ok_0
            == known->0,
{
    splits_are_at_the_first(t, '\0');
}

/// A drop becomes the user and the group that are named, or the user's login
/// group; without root it is refused unless the process is both already.
pub proof fn drops_go_to_the_named_user(user: Seq<char>, group: Option<Seq<char>>, v: SystemView)
    ensures
        ({
            let u = resolved(user, "user"@, v.user);
            let g = target_gid(group, u->Ok_0, v);
            let p = drop_plan(user, group, v);
            let root = v.ids.euid == 0;
            &&& u is Err || g is Err ==> p is Err
            &&& u is Ok && g is Ok && root ==> p == Ok::<DropPlan, Seq<char>>(
                DropPlan::Switch { uid: u->Ok_0, gid: g->Ok_0 },
            )
            &&& u is Ok && g is Ok && !root ==> {
                let same = u->Ok_0 == v.ids.uid && (group is None || g->Ok_0 == v.ids.gid);
                &&& same ==> p == Ok::<DropPlan, Seq<char>>(DropPlan::Nothing)
                &&& !same ==> p is Err
            }
        }),
        group is Some ==> target_gid(group, v.ids.uid, v) == resolved(group->0, "group"@, v.group),
        group is None && v.login_group is Some ==> target_gid(group, v.ids.uid, v) == Ok::<
            u32,
            Seq<char>,
        >(v.login_group->0),
        group is None && v.login_group is None ==> target_gid(group, v.ids.uid, v) is Err,
{
}

/// An identity is written with its effective ids only if they differ.
pub proof fn identities_name_what_differs(i: Ids)
    ensures
        ({
            let plain = "uid="@ + decimal(i.uid as nat) + " gid="@ + decimal(i.gid as nat);
            &&& i.uid == i.euid && i.gid == i.egid ==> identity_text(i) == plain
            &&& i.uid != i.euid || i.gid != i.egid ==> identity_text(i) == plain + " euid="@ + decimal(
                i.euid as nat,
            ) + " egid="@ + decimal(i.egid as nat)
        }),
{
}

/// A switch is a success only if every step was taken and the ids are the
/// user's.
pub proof fn switches_are_checked(uid: u32, gid: u32, e: SwitchEnd)
    ensures
        switch_fault(uid, gid, e) is None <==> e is Taken && e->uid == uid && e->euid == uid,
{
}

/// The handlers of a target, and the next one to install.
pub proof fn handlers_are_installed_in_order(d: Delivery, refused: Seq<bool>)
    requires
        forall|i: int| 0 <= i < refused.len() ==> !#[trigger] refused[i],
    ensures
        handled(Delivery::Unix) == seq![1i32, 2, 15],
        handled(Delivery::Console) == seq![2i32],
        handled(Delivery::Inert).len() == 0,
        refused.len() < handled(d).len() ==> install_next(d, refused) == Install::Try(
            handled(d)[refused.len() as int],
        ),
        refused.len() >= handled(d).len() ==> install_next(d, refused) == Install::Done(Ok(())),
{
    none_refused(refused);
}

proof fn none_refused(refused: Seq<bool>)
    requires
        forall|i: int| 0 <= i < refused.len() ==> !#[trigger] refused[i],
    ensures
        crate::signal::first_refusal(refused) == refused.len(),
    decreases refused.len(),
{
    if refused.len() > 0 {
        let t = refused.skip(1);
        assert forall|i: int| 0 <= i < t.len() implies !#[trigger] t[i] by {
            assert(t[i] == refused[i + 1]);
        }
        none_refused(t);
        assert(!refused[0]);
    }
}

/// A console event is a signal: the key events interrupt, the events of an end
/// terminate and wait for it, and no other is one.
pub proof fn console_events_are_signals(ctrl: u32)
    ensures
        console_signal(ctrl) == Some((2i32, false)) <==> ctrl == 0 || ctrl == 1,
        console_signal(ctrl) == Some((15i32, true)) <==> ctrl == 2 || ctrl == 5 || ctrl == 6,
        console_signal(ctrl) is Some ==> ctrl == 0 || ctrl == 1 || ctrl == 2 || ctrl == 5 || ctrl == 6,
{
}

/// A delivered signal changes nothing but what is pending, and so does taking it.
pub proof fn signals_change_what_is_pending(s: Signals, sig: i32)
    ensures
        delivered(s, sig).pending == sig,
        delivered(s, sig).supervised == s.supervised,
        delivered(s, sig).shutdown_complete == s.shutdown_complete,
        ({
            let (o, q) = taken(s);
            &&& q.pending == 0
            &&& q.supervised == s.supervised
            &&& q.shutdown_complete == s.shutdown_complete
            &&& s.pending == 0 ==> o is None
            &&& s.pending != 0 ==> o == Some(s.pending)
        }),
{
}

/// A round trip writes, sends and reads in turn, ends with what arrived, and
/// fails with what failed.
pub proof fn round_trips_go_step_by_step(
    socket: Seq<char>,
    cmd: Seq<char>,
    reply: Seq<u8>,
    e: TripEventModel,
)
    ensures
        ({
            let a = action_after(socket, cmd, reply, e);
            &&& e is Connected ==> a == TripActionModel::Write(cmd)
            &&& e is Written ==> a is Send && (a->newline <==> !crate::text::ends(cmd, "\n"@))
            &&& e is Sent || e is Bytes ==> a is Read
            &&& e is Closed ==> a is Done
            &&& e is Quiet ==> (a is Done <==> reply.len() > 0 || e->late)
            &&& e is Quiet && !(a is Done) ==> a is Wait
            &&& a is Fail <==> e is NoSockets || e is ConnectFailed || e is SendFailed || e is ReadFailed
            &&& e is ConnectFailed ==> a == TripActionModel::Fail(
                "connect "@ + socket + ": "@ + e->ConnectFailed_0,
            )
            &&& e is ReadFailed ==> a == TripActionModel::Fail("read: "@ + e->ReadFailed_0)
        }),
        e is Bytes ==> reply_after(reply, e) == reply + e->Bytes_0,
        !(e is Bytes) ==> reply_after(reply, e) == reply,
{
}

/// What fails is named by its stage, and a reply that is no text is none.
pub proof fn failures_name_their_stage(
    socket: Seq<char>,
    cmd: Seq<char>,
    reply: Seq<u8>,
    m: Seq<char>,
    read: Result<Seq<char>, Seq<char>>,
)
    ensures
        action_after(
            socket,
            cmd,
            reply,
            TripEventModel::SendFailed { stage: SendStage::Write, error: m },
        ) == TripActionModel::Fail("write: "@ + m),
        action_after(
            socket,
            cmd,
            reply,
            TripEventModel::SendFailed { stage: SendStage::Newline, error: m },
        ) == TripActionModel::Fail("write nl: "@ + m),
        action_after(
            socket,
            cmd,
            reply,
            TripEventModel::SendFailed { stage: SendStage::Flush, error: m },
        ) == TripActionModel::Fail("flush: "@ + m),
        action_after(
            socket,
            cmd,
            reply,
            TripEventModel::SendFailed { stage: SendStage::Nonblocking, error: m },
        ) == TripActionModel::Fail("nonblocking: "@ + m),
        read is Ok ==> reply_verdict(read) == read,
        read is Err ==> reply_verdict(read) is Err && reply_verdict(read)->Err_0 == "non-utf8 reply: "@
            + read->Err_0,
{
}

} // verus!
