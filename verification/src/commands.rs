//! The command lines of the `lr` tool: what their arguments ask for.

use crate::hex::{argument_bytes, decode_hex};
use crate::mrt::{pad, padded};
use crate::text::{
    cat, cat3, decimal, is_blank, opt_view, own, read_u32, same, u32_of, views, write_number,
};
use vstd::prelude::*;
use vstd::string::*;

verus! {

/// A refusal: what is printed, and the exit code.
pub struct Refusal {
    pub message: String,
    pub code: u8,
}

/// The same over text.
pub struct RefusalModel {
    pub message: Seq<char>,
    pub code: u8,
}

impl View for Refusal {
    type V = RefusalModel;

    open spec fn view(&self) -> RefusalModel {
        RefusalModel { message: self.message@, code: self.code }
    }
}

/// Which wire format to decode.
#[derive(Clone, Copy, Debug, PartialEq, Eq, Structural)]
pub enum WireKind {
    Bgp,
    Bfd,
    Ospf,
    Babel,
}

/// The format of a kind of message.
pub open spec fn kind_of(kind: Seq<char>) -> Option<WireKind> {
    if kind == "bgp-open"@ || kind == "bgp-keepalive"@ || kind == "bgp-update"@ {
        Some(WireKind::Bgp)
    } else if kind == "bfd"@ {
        Some(WireKind::Bfd)
    } else if kind == "ospf-hello"@ {
        Some(WireKind::Ospf)
    } else if kind == "babel-tlv"@ {
        Some(WireKind::Babel)
    } else {
        None
    }
}

fn read_kind(kind: &str) -> (r: Option<WireKind>)
    ensures
        r == kind_of(kind@),
{
    if same(kind, "bgp-open") || same(kind, "bgp-keepalive") || same(kind, "bgp-update") {
        Some(WireKind::Bgp)
    } else if same(kind, "bfd") {
        Some(WireKind::Bfd)
    } else if same(kind, "ospf-hello") {
        Some(WireKind::Ospf)
    } else if same(kind, "babel-tlv") {
        Some(WireKind::Babel)
    } else {
        None
    }
}

/// What `decode` is asked to decode: the format and the bytes. The bytes are
/// read before the kind is looked at.
pub open spec fn decode_request(args: Seq<Seq<char>>) -> Result<
    (WireKind, Seq<u8>),
    RefusalModel,
> {
    if args.len() < 2 {
        Err(RefusalModel { message: "usage: lr decode <kind> <hex>"@, code: 2 })
    } else {
        match argument_bytes(args[1]) {
            Err(e) => Err(RefusalModel { message: "hex parse error: "@ + e, code: 1 }),
            Ok(bytes) => match kind_of(args[0]) {
                Some(kind) => Ok((kind, bytes)),
                None => Err(
                    RefusalModel {
                        message: "error: unknown kind '"@ + args[0] + "'"@,
                        code: 2,
                    },
                ),
            },
        }
    }
}

/// Reads what `decode` is asked to decode.
pub fn decode(args: &Vec<String>) -> (r: Result<(WireKind, Vec<u8>), Refusal>)
    ensures
        decode_request(views(args@)) == (match r {
            Ok(p) => Ok((p.0, p.1@)),
            Err(f) => Err(f@),
        }),
{
    let ghost av = views(args@);
    assert(av.len() == args@.len());
    assert(forall|i: int| 0 <= i < args@.len() ==> av[i] == (#[trigger] args@[i])@);
    if args.len() < 2 {
        return Err(Refusal { message: own("usage: lr decode <kind> <hex>"), code: 2 });
    }
    match decode_hex(args[1].as_str()) {
        Err(e) => Err(Refusal { message: cat("hex parse error: ", e.as_str()), code: 1 }),
        Ok(bytes) => {
            let word = args[0].as_str();
            match read_kind(word) {
                Some(kind) => Ok((kind, bytes)),
                None => Err(
                    Refusal { message: cat3("error: unknown kind '", word, "'"), code: 2 },
                ),
            }
        },
    }
}

/// What `routes` is asked to do. Prefixes and gateways are positions in the
/// arguments.
#[derive(Clone, Copy, Debug, PartialEq, Eq, Structural)]
pub enum RoutesRequest {
    List,
    /// Add the prefix of argument 1 by the gateway of argument 2.
    Add { if_index: u32 },
    /// Delete the prefix of argument 1.
    Delete,
}

/// What `routes` is asked to do. `prefix_ok` and `gw_ok` say whether arguments
/// 1 and 2 are a prefix and an address.
pub open spec fn routes_request(args: Seq<Seq<char>>, prefix_ok: bool, gw_ok: bool) -> Result<
    RoutesRequest,
    RefusalModel,
> {
    let refuse = |message: Seq<char>, code: u8|
        Err::<RoutesRequest, RefusalModel>(RefusalModel { message, code });
    if args.len() == 0 {
        refuse("usage: lr routes <list|add|del>"@, 2)
    } else if args[0] == "list"@ {
        Ok(RoutesRequest::List)
    } else if args[0] == "add"@ {
        if args.len() < 4 {
            refuse("usage: lr routes add <prefix> <gw> <if_index>"@, 2)
        } else if !prefix_ok {
            refuse("invalid prefix: "@ + args[1], 1)
        } else if !gw_ok {
            refuse("invalid gw: "@ + args[2], 1)
        } else {
            match u32_of(args[3]) {
                Some(if_index) => Ok(RoutesRequest::Add { if_index }),
                None => refuse("invalid if_index: "@ + args[3], 1),
            }
        }
    } else if args[0] == "del"@ || args[0] == "delete"@ {
        if args.len() < 2 {
            refuse("usage: lr routes del <prefix>"@, 2)
        } else if !prefix_ok {
            refuse("invalid prefix: "@ + args[1], 1)
        } else {
            Ok(RoutesRequest::Delete)
        }
    } else {
        refuse("error: unknown routes subcommand '"@ + args[0] + "'"@, 2)
    }
}

fn refuse_routes(message: String, code: u8) -> (r: Result<RoutesRequest, Refusal>)
    ensures
        r is Err,
        (r->Err_0)@ == (RefusalModel { message: message@, code }),
{
    Err(Refusal { message, code })
}

/// Reads what `routes` is asked to do.
pub fn routes(args: &Vec<String>, prefix_ok: bool, gw_ok: bool) -> (r: Result<
    RoutesRequest,
    Refusal,
>)
    ensures
        routes_request(views(args@), prefix_ok, gw_ok) == (match r {
            Ok(q) => Ok(q),
            Err(f) => Err(f@),
        }),
{
    let ghost av = views(args@);
    assert(av.len() == args@.len());
    assert(forall|i: int| 0 <= i < args@.len() ==> av[i] == (#[trigger] args@[i])@);
    if args.len() == 0 {
        return refuse_routes(own("usage: lr routes <list|add|del>"), 2);
    }
    let sub = args[0].as_str();
    if same(sub, "list") {
        Ok(RoutesRequest::List)
    } else if same(sub, "add") {
        if args.len() < 4 {
            refuse_routes(own("usage: lr routes add <prefix> <gw> <if_index>"), 2)
        } else if !prefix_ok {
            refuse_routes(cat("invalid prefix: ", args[1].as_str()), 1)
        } else if !gw_ok {
            refuse_routes(cat("invalid gw: ", args[2].as_str()), 1)
        } else {
            match read_u32(args[3].as_str()) {
                Some(if_index) => Ok(RoutesRequest::Add { if_index }),
                None => refuse_routes(cat("invalid if_index: ", args[3].as_str()), 1),
            }
        }
    } else if same(sub, "del") || same(sub, "delete") {
        if args.len() < 2 {
            refuse_routes(own("usage: lr routes del <prefix>"), 2)
        } else if !prefix_ok {
            refuse_routes(cat("invalid prefix: ", args[1].as_str()), 1)
        } else {
            Ok(RoutesRequest::Delete)
        }
    } else {
        refuse_routes(cat3("error: unknown routes subcommand '", sub, "'"), 2)
    }
}

/// The row of a kernel route.
pub open spec fn route_row_text(
    prefix: Seq<char>,
    next_hop: Option<Seq<char>>,
    if_index: Option<u32>,
    metric: u32,
    protocol: Seq<char>,
) -> Seq<char> {
    padded(prefix, 32) + " "@ + padded(
        match next_hop {
            Some(n) => n,
            None => "(none)"@,
        },
        20,
    ) + " "@ + padded(
        decimal(
            match if_index {
                Some(n) => n as nat,
                None => 0,
            },
        ),
        4,
    ) + " "@ + padded(decimal(metric as nat), 6) + " "@ + protocol
}

/// Writes the row of a kernel route.
pub fn route_row(
    prefix: &str,
    next_hop: &Option<String>,
    if_index: Option<u32>,
    metric: u32,
    protocol: &str,
) -> (r: String)
    ensures
        r@ == route_row_text(prefix@, opt_view(*next_hop), if_index, metric, protocol@),
{
    let hop = match next_hop {
        Some(n) => own(n.as_str()),
        None => own("(none)"),
    };
    let index: u32 = match if_index {
        Some(n) => n,
        None => 0,
    };
    let mut s = pad(prefix, 32);
    s.append(" ");
    s.append(pad(hop.as_str(), 20).as_str());
    s.append(" ");
    s.append(pad(write_number(index as u64).as_str(), 4).as_str());
    s.append(" ");
    s.append(pad(write_number(metric as u64).as_str(), 6).as_str());
    s.append(" ");
    s.append(protocol);
    s
}

/// Which view of a dump `mrt` is asked for.
#[derive(Clone, Copy, Debug, PartialEq, Eq, Structural)]
pub enum MrtRequest {
    Parse,
    Rib,
}

/// Which view of a dump `mrt` is asked for. `fault` says why the file cannot
/// be parsed; it is parsed before the view is looked at.
pub open spec fn mrt_request(args: Seq<Seq<char>>, fault: Option<Seq<char>>) -> Result<
    MrtRequest,
    RefusalModel,
> {
    if args.len() < 2 {
        Err(RefusalModel { message: "usage: lr mrt <parse|rib> <file.mrt>"@, code: 2 })
    } else if fault is Some {
        Err(RefusalModel { message: "mrt parse error: "@ + fault->0, code: 1 })
    } else if args[0] == "parse"@ {
        Ok(MrtRequest::Parse)
    } else if args[0] == "rib"@ {
        Ok(MrtRequest::Rib)
    } else {
        Err(
            RefusalModel {
                message: "error: unknown mrt subcommand '"@ + args[0] + "'"@,
                code: 2,
            },
        )
    }
}

/// Reads which view of a dump `mrt` is asked for.
pub fn mrt(args: &Vec<String>, fault: &Option<String>) -> (r: Result<MrtRequest, Refusal>)
    ensures
        mrt_request(views(args@), opt_view(*fault)) == (match r {
            Ok(q) => Ok(q),
            Err(f) => Err(f@),
        }),
{
    let ghost av = views(args@);
    assert(av.len() == args@.len());
    assert(forall|i: int| 0 <= i < args@.len() ==> av[i] == (#[trigger] args@[i])@);
    if args.len() < 2 {
        return Err(Refusal { message: own("usage: lr mrt <parse|rib> <file.mrt>"), code: 2 });
    }
    match fault {
        Some(e) => {
            return Err(Refusal { message: cat("mrt parse error: ", e.as_str()), code: 1 });
        },
        None => {},
    }
    let sub = args[0].as_str();
    if same(sub, "parse") {
        Ok(MrtRequest::Parse)
    } else if same(sub, "rib") {
        Ok(MrtRequest::Rib)
    } else {
        Err(Refusal { message: cat3("error: unknown mrt subcommand '", sub, "'"), code: 2 })
    }
}

/// The language of a configuration to convert.
#[derive(Clone, Copy, Debug, PartialEq, Eq, Structural)]
pub enum Dialect {
    Bird,
    Frr,
}

/// The language that `translate` is asked to convert from. `fault` says why
/// the file cannot be read; it is read before the language is looked at.
pub open spec fn translate_request(args: Seq<Seq<char>>, fault: Option<Seq<char>>) -> Result<
    Dialect,
    RefusalModel,
> {
    if args.len() < 2 {
        Err(RefusalModel { message: "usage: lr translate <bird|frr> <config-file>"@, code: 2 })
    } else if fault is Some {
        Err(
            RefusalModel {
                message: "translate: cannot read "@ + args[1] + ": "@ + fault->0,
                code: 1,
            },
        )
    } else if args[0] == "bird"@ {
        Ok(Dialect::Bird)
    } else if args[0] == "frr"@ {
        Ok(Dialect::Frr)
    } else {
        Err(
            RefusalModel {
                message: "translate: unknown dialect '"@ + args[0] + "' (expected bird or frr)"@,
                code: 2,
            },
        )
    }
}

/// Reads the language that `translate` is asked to convert from.
pub fn translate(args: &Vec<String>, fault: &Option<String>) -> (r: Result<Dialect, Refusal>)
    ensures
        translate_request(views(args@), opt_view(*fault)) == (match r {
            Ok(q) => Ok(q),
            Err(f) => Err(f@),
        }),
{
    let ghost av = views(args@);
    assert(av.len() == args@.len());
    assert(forall|i: int| 0 <= i < args@.len() ==> av[i] == (#[trigger] args@[i])@);
    if args.len() < 2 {
        return Err(
            Refusal { message: own("usage: lr translate <bird|frr> <config-file>"), code: 2 },
        );
    }
    match fault {
        Some(e) => {
            let mut m = cat3("translate: cannot read ", args[1].as_str(), ": ");
            m.append(e.as_str());
            return Err(Refusal { message: m, code: 1 });
        },
        None => {},
    }
    let d = args[0].as_str();
    if same(d, "bird") {
        Ok(Dialect::Bird)
    } else if same(d, "frr") {
        Ok(Dialect::Frr)
    } else {
        Err(
            Refusal {
                message: cat3("translate: unknown dialect '", d, "' (expected bird or frr)"),
                code: 2,
            },
        )
    }
}

/// The note on a protocol that the conversion leaves out.
pub open spec fn ignored_note_text(protocol: Seq<char>) -> Seq<char> {
    "translate: note: `"@ + protocol
        + "` ignored — the compat surface runs the BGP control plane only"@
}

/// Writes the note on a protocol that the conversion leaves out.
pub fn ignored_note(protocol: &str) -> (r: String)
    ensures
        r@ == ignored_note_text(protocol@),
{
    cat3(
        "translate: note: `",
        protocol,
        "` ignored — the compat surface runs the BGP control plane only",
    )
}

/// What to replay, and where to.
pub struct ReplayConfig {
    pub capture: String,
    /// Which direction of the capture to feed.
    pub direction: String,
    pub local_as: u32,
    pub peer_as: u32,
    /// The local BGP identifier, as a dotted quad.
    pub router_id: String,
    /// Where the dump goes.
    pub output: String,
}

/// The same over text.
#[verifier::ext_equal]
pub struct ReplayModel {
    pub capture: Seq<char>,
    pub direction: Seq<char>,
    pub local_as: u32,
    pub peer_as: u32,
    pub router_id: Seq<char>,
    pub output: Seq<char>,
}

impl View for ReplayConfig {
    type V = ReplayModel;

    open spec fn view(&self) -> ReplayModel {
        ReplayModel {
            capture: self.capture@,
            direction: self.direction@,
            local_as: self.local_as,
            peer_as: self.peer_as,
            router_id: self.router_id@,
            output: self.output@,
        }
    }
}

/// How a command line of the replay ends.
pub enum ReplayArgs {
    Run(ReplayConfig),
    /// Print a message, if there is one, and then the usage.
    Usage(Option<String>),
    /// Print a message.
    Bad(String),
}

/// The same over text.
pub enum ReplayArgsModel {
    Run(ReplayModel),
    Usage(Option<Seq<char>>),
    Bad(Seq<char>),
}

impl View for ReplayArgs {
    type V = ReplayArgsModel;

    open spec fn view(&self) -> ReplayArgsModel {
        match self {
            ReplayArgs::Run(c) => ReplayArgsModel::Run(c@),
            ReplayArgs::Usage(m) => ReplayArgsModel::Usage(opt_view(*m)),
            ReplayArgs::Bad(m) => ReplayArgsModel::Bad(m@),
        }
    }
}

/// What is replayed if no option says otherwise.
pub open spec fn blank_replay() -> ReplayModel {
    ReplayModel {
        capture: Seq::empty(),
        direction: "down"@,
        local_as: 0,
        peer_as: 0,
        router_id: Seq::empty(),
        output: Seq::empty(),
    }
}

/// A replay needs a capture, an identifier and a place for its dump.
pub open spec fn replay_or_usage(c: ReplayModel) -> ReplayArgsModel {
    if c.capture.len() == 0 || c.router_id.len() == 0 || c.output.len() == 0 {
        ReplayArgsModel::Usage(None)
    } else {
        ReplayArgsModel::Run(c)
    }
}

/// The options of the replay.
pub open spec fn is_replay_option(s: Seq<char>) -> bool {
    s == "--capture"@ || s == "--direction"@ || s == "--local-as"@ || s == "--peer-as"@ || s
        == "--router-id"@ || s == "--output"@
}

/// The replay with an option set, or what is wrong with its value.
pub open spec fn with_option(c: ReplayModel, option: Seq<char>, v: Seq<char>) -> Result<
    ReplayModel,
    Seq<char>,
> {
    if option == "--capture"@ {
        Ok(ReplayModel { capture: v, ..c })
    } else if option == "--direction"@ {
        Ok(ReplayModel { direction: v, ..c })
    } else if option == "--local-as"@ {
        match u32_of(v) {
            Some(local_as) => Ok(ReplayModel { local_as, ..c }),
            None => Err("error: bad --local-as '"@ + v + "'"@),
        }
    } else if option == "--peer-as"@ {
        match u32_of(v) {
            Some(peer_as) => Ok(ReplayModel { peer_as, ..c }),
            None => Err("error: bad --peer-as '"@ + v + "'"@),
        }
    } else if option == "--router-id"@ {
        Ok(ReplayModel { router_id: v, ..c })
    } else {
        Ok(ReplayModel { output: v, ..c })
    }
}

/// How the arguments from `i` on end. An option without a value ends them.
pub open spec fn replay_from(args: Seq<Seq<char>>, i: int, c: ReplayModel) -> ReplayArgsModel
    decreases args.len() + 1 - i,
{
    if i < 0 || i >= args.len() {
        replay_or_usage(c)
    } else if !is_replay_option(args[i]) {
        ReplayArgsModel::Usage(
            Some("error: unknown parity-replay option '"@ + args[i] + "'"@),
        )
    } else if i + 1 >= args.len() {
        replay_or_usage(c)
    } else {
        match with_option(c, args[i], args[i + 1]) {
            Err(e) => ReplayArgsModel::Bad(e),
            Ok(d) => replay_from(args, i + 2, d),
        }
    }
}

fn known_option(s: &str) -> (b: bool)
    ensures
        b == is_replay_option(s@),
{
    same(s, "--capture") || same(s, "--direction") || same(s, "--local-as") || same(s, "--peer-as")
        || same(s, "--router-id") || same(s, "--output")
}

fn set_option(c: &mut ReplayConfig, option: &str, v: &str) -> (fault: Option<String>)
    ensures
        match with_option(old(c)@, option@, v@) {
            Ok(d) => fault is None && final(c)@ == d,
            Err(e) => opt_view(fault) == Some(e),
        },
{
    if same(option, "--capture") {
        c.capture = own(v);
        None
    } else if same(option, "--direction") {
        c.direction = own(v);
        None
    } else if same(option, "--local-as") {
        match read_u32(v) {
            Some(n) => {
                c.local_as = n;
                None
            },
            None => Some(cat3("error: bad --local-as '", v, "'")),
        }
    } else if same(option, "--peer-as") {
        match read_u32(v) {
            Some(n) => {
                c.peer_as = n;
                None
            },
            None => Some(cat3("error: bad --peer-as '", v, "'")),
        }
    } else if same(option, "--router-id") {
        c.router_id = own(v);
        None
    } else {
        c.output = own(v);
        None
    }
}

/// Reads the arguments of the replay.
pub fn cmd_parity_replay(args: &Vec<String>) -> (r: ReplayArgs)
    ensures
        r@ == replay_from(views(args@), 0, blank_replay()),
{
    let ghost av = views(args@);
    assert(av.len() == args@.len());
    let mut c = ReplayConfig {
        capture: String::new(),
        direction: own("down"),
        local_as: 0,
        peer_as: 0,
        router_id: String::new(),
        output: String::new(),
    };
    assert(c@ =~= blank_replay());
    let mut i: usize = 0;
    let mut more = true;
    while more && i < args.len()
        invariant
            i <= args@.len(),
            av == views(args@),
            av.len() == args@.len(),
            more ==> replay_from(av, 0, blank_replay()) == replay_from(av, i as int, c@),
            !more ==> replay_from(av, 0, blank_replay()) == replay_or_usage(c@),
        decreases args@.len() - i,
    {
        assert(av[i as int] == args@[i as int]@);
        if !known_option(args[i].as_str()) {
            return ReplayArgs::Usage(
                Some(cat3("error: unknown parity-replay option '", args[i].as_str(), "'")),
            );
        }
        if i + 1 >= args.len() {
            more = false;
            i += 1;
        } else {
            assert(av[i + 1] == args@[i + 1]@);
            match set_option(&mut c, args[i].as_str(), args[i + 1].as_str()) {
                Some(m) => {
                    return ReplayArgs::Bad(m);
                },
                None => {},
            }
            i += 2;
        }
    }
    if is_blank(&c.capture) || is_blank(&c.router_id) || is_blank(&c.output) {
        ReplayArgs::Usage(None)
    } else {
        ReplayArgs::Run(c)
    }
}

/// The line on a finished replay.
pub open spec fn replayed_text(messages: u64, records: u64, output: Seq<char>) -> Seq<char> {
    "parity-replay: "@ + decimal(messages as nat) + " message(s) replayed, "@ + decimal(
        records as nat,
    ) + " RIB record(s) -> "@ + output
}

/// Writes the line on a finished replay.
pub fn replayed_line(messages: u64, records: u64, output: &str) -> (r: String)
    ensures
        r@ == replayed_text(messages, records, output@),
{
    let mut s = cat3(
        "parity-replay: ",
        write_number(messages).as_str(),
        " message(s) replayed, ",
    );
    s.append(write_number(records).as_str());
    s.append(" RIB record(s) -> ");
    s.append(output);
    s
}

/// What a replay comes to: the routes count only if the session was
/// established.
pub fn run_replay(established: bool, records: u64) -> (r: Result<u64, String>)
    ensures
        match r {
            Ok(n) => established && n == records,
            Err(m) => !established && m@
                == "replay session never reached Established — check that the capture starts with the peer's OPEN"@,
        },
{
    if established {
        Ok(records)
    } else {
        Err(
            own(
                "replay session never reached Established — check that the capture starts with the peer's OPEN",
            ),
        )
    }
}

/// The synthetic clock of a replay after `n` messages, in milliseconds: one
/// second a message, so that no timer runs out.
pub fn replay_clock(n: u32) -> (ms: u64)
    ensures
        ms == 1_000_000 + n * 1_000,
{
    1_000_000 + n as u64 * 1_000
}

} // verus!
