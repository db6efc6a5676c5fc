//! The views of an MRT dump, and the tables of a dump that is written.

use crate::table::take_step;
use crate::text::{
    cat3, chars_of, decimal, dotted, is_blank, no_items, opt_view, own, push_view, views,
    write_dotted, write_number,
};
use vstd::prelude::*;
use vstd::string::*;

verus! {

/// A peer of a peer index table.
pub struct PeerEntry {
    pub bgp_id: u32,
    pub ip: String,
    pub asn: String,
}

/// The same over text.
pub struct PeerEntryModel {
    pub bgp_id: u32,
    pub ip: Seq<char>,
    pub asn: Seq<char>,
}

impl View for PeerEntry {
    type V = PeerEntryModel;

    open spec fn view(&self) -> PeerEntryModel {
        PeerEntryModel { bgp_id: self.bgp_id, ip: self.ip@, asn: self.asn@ }
    }
}

/// A peer index table.
pub struct PeerIndexTable {
    pub collector_bgp_id: u32,
    pub view_name: String,
    pub peers: Vec<PeerEntry>,
}

/// The same over text.
pub struct IndexModel {
    pub collector_bgp_id: u32,
    pub view_name: Seq<char>,
    pub peers: Seq<PeerEntryModel>,
}

impl View for PeerIndexTable {
    type V = IndexModel;

    open spec fn view(&self) -> IndexModel {
        IndexModel {
            collector_bgp_id: self.collector_bgp_id,
            view_name: self.view_name@,
            peers: views(self.peers@),
        }
    }
}

/// An entry of a RIB record, with the attributes that are shown.
pub struct RibEntry {
    pub peer_index: u16,
    pub path_id: u32,
    pub as_path: String,
    pub next_hop: Option<String>,
}

/// The same over text.
pub struct RibEntryModel {
    pub peer_index: u16,
    pub path_id: u32,
    pub as_path: Seq<char>,
    pub next_hop: Option<Seq<char>>,
}

impl View for RibEntry {
    type V = RibEntryModel;

    open spec fn view(&self) -> RibEntryModel {
        RibEntryModel {
            peer_index: self.peer_index,
            path_id: self.path_id,
            as_path: self.as_path@,
            next_hop: opt_view(self.next_hop),
        }
    }
}

/// A RIB record.
pub struct RibTable {
    pub sequence: u32,
    pub prefix: String,
    pub add_path: bool,
    pub entries: Vec<RibEntry>,
}

/// The same over text.
pub struct RibTableModel {
    pub sequence: u32,
    pub prefix: Seq<char>,
    pub add_path: bool,
    pub entries: Seq<RibEntryModel>,
}

impl View for RibTable {
    type V = RibTableModel;

    open spec fn view(&self) -> RibTableModel {
        RibTableModel {
            sequence: self.sequence,
            prefix: self.prefix@,
            add_path: self.add_path,
            entries: views(self.entries@),
        }
    }
}

/// A record of an MRT dump.
pub enum MrtRecord {
    PeerIndexTable(PeerIndexTable),
    Rib(RibTable),
    StateChange { peer_as: String, local_as: String, old_state: String, new_state: String },
    Message { peer_as: String, local_as: String, message: Vec<u8> },
    Unknown { msg_type: u16, subtype: u16 },
}

/// The same over text.
pub enum RecordModel {
    PeerIndexTable(IndexModel),
    Rib(RibTableModel),
    StateChange {
        peer_as: Seq<char>,
        local_as: Seq<char>,
        old_state: Seq<char>,
        new_state: Seq<char>,
    },
    Message { peer_as: Seq<char>, local_as: Seq<char>, message: Seq<u8> },
    Unknown { msg_type: u16, subtype: u16 },
}

impl View for MrtRecord {
    type V = RecordModel;

    open spec fn view(&self) -> RecordModel {
        match self {
            MrtRecord::PeerIndexTable(t) => RecordModel::PeerIndexTable(t@),
            MrtRecord::Rib(t) => RecordModel::Rib(t@),
            MrtRecord::StateChange { peer_as, local_as, old_state, new_state } =>
                RecordModel::StateChange {
                peer_as: peer_as@,
                local_as: local_as@,
                old_state: old_state@,
                new_state: new_state@,
            },
            MrtRecord::Message { peer_as, local_as, message } => RecordModel::Message {
                peer_as: peer_as@,
                local_as: local_as@,
                message: message@,
            },
            MrtRecord::Unknown { msg_type, subtype } => RecordModel::Unknown {
                msg_type: *msg_type,
                subtype: *subtype,
            },
        }
    }
}

/// The type of a BGP message; 0 if it is too short to have one.
pub open spec fn message_type(m: Seq<u8>) -> u8 {
    if m.len() > 18 {
        m[18]
    } else {
        0
    }
}

/// Reads the type of a BGP message.
pub fn bgp_msg_type(m: &Vec<u8>) -> (t: u8)
    ensures
        t == message_type(m@),
{
    if m.len() > 18 {
        m[18]
    } else {
        0
    }
}

/// Writes a BGP identifier as a dotted quad.
pub fn fmt_bgp_id(id: u32) -> (s: String)
    ensures
        s@ == dotted(id),
{
    write_dotted(id)
}

/// The summary line of a record.
pub open spec fn record_text(r: RecordModel) -> Seq<char> {
    match r {
        RecordModel::PeerIndexTable(t) => "peer-index-table collector="@ + dotted(
            t.collector_bgp_id,
        ) + " view=\""@ + t.view_name + "\" peers="@ + decimal(t.peers.len()),
        RecordModel::Rib(t) => "rib seq="@ + decimal(t.sequence as nat) + " prefix="@ + t.prefix
            + " entries="@ + decimal(t.entries.len()),
        RecordModel::StateChange { peer_as, local_as, old_state, new_state } =>
            "bgp4mp state-change peer-as="@ + peer_as + " local-as="@ + local_as + " "@ + old_state
            + " -> "@ + new_state,
        RecordModel::Message { peer_as, local_as, message } => "bgp4mp message peer-as="@ + peer_as
            + " local-as="@ + local_as + " len="@ + decimal(message.len()) + " type="@ + decimal(
            message_type(message) as nat,
        ),
        RecordModel::Unknown { msg_type, subtype } => "unknown record type="@ + decimal(
            msg_type as nat,
        ) + " subtype="@ + decimal(subtype as nat),
    }
}

/// Writes the summary line of a record.
pub fn print_record(r: &MrtRecord) -> (s: String)
    ensures
        s@ == record_text(r@),
{
    match r {
        MrtRecord::PeerIndexTable(t) => {
            assert(views(t.peers@).len() == t.peers@.len());
            let mut s = cat3(
                "peer-index-table collector=",
                fmt_bgp_id(t.collector_bgp_id).as_str(),
                " view=\"",
            );
            s.append(t.view_name.as_str());
            s.append("\" peers=");
            s.append(write_number(t.peers.len() as u64).as_str());
            s
        },
        MrtRecord::Rib(t) => {
            assert(views(t.entries@).len() == t.entries@.len());
            let mut s = cat3("rib seq=", write_number(t.sequence as u64).as_str(), " prefix=");
            s.append(t.prefix.as_str());
            s.append(" entries=");
            s.append(write_number(t.entries.len() as u64).as_str());
            s
        },
        MrtRecord::StateChange { peer_as, local_as, old_state, new_state } => {
            let mut s = cat3("bgp4mp state-change peer-as=", peer_as.as_str(), " local-as=");
            s.append(local_as.as_str());
            s.append(" ");
            s.append(old_state.as_str());
            s.append(" -> ");
            s.append(new_state.as_str());
            s
        },
        MrtRecord::Message { peer_as, local_as, message } => {
            let mut s = cat3("bgp4mp message peer-as=", peer_as.as_str(), " local-as=");
            s.append(local_as.as_str());
            s.append(" len=");
            s.append(write_number(message.len() as u64).as_str());
            s.append(" type=");
            s.append(write_number(bgp_msg_type(message) as u64).as_str());
            s
        },
        MrtRecord::Unknown { msg_type, subtype } => {
            let mut s = cat3(
                "unknown record type=",
                write_number(*msg_type as u64).as_str(),
                " subtype=",
            );
            s.append(write_number(*subtype as u64).as_str());
            s
        },
    }
}

/// Spaces.
pub open spec fn spaces(n: nat) -> Seq<char> {
    Seq::new(n, |i: int| ' ')
}

/// A text with spaces behind it up to a width.
pub open spec fn padded(s: Seq<char>, width: nat) -> Seq<char> {
    if s.len() < width {
        s + spaces((width - s.len()) as nat)
    } else {
        s
    }
}

/// Puts spaces behind a text up to a width.
pub fn pad(s: &str, width: usize) -> (r: String)
    ensures
        r@ == padded(s@, width as nat),
{
    let v = chars_of(s);
    let mut r = own(s);
    let mut n: usize = v.len();
    let ghost start = n as int;
    assert(s@ + spaces(0) =~= s@);
    while n < width
        invariant
            start == s@.len(),
            start <= n,
            n <= width || n == start,
            r@ == s@ + spaces((n - start) as nat),
        decreases width - n,
    {
        r.push(' ');
        n += 1;
        assert(r@ =~= s@ + spaces((n - start) as nat));
    }
    r
}

/// The lines of the peers of a table.
pub open spec fn peer_lines(ps: Seq<PeerEntryModel>) -> Seq<char>
    decreases ps.len(),
{
    if ps.len() == 0 {
        Seq::empty()
    } else {
        let p = ps.last();
        peer_lines(ps.drop_last()) + "  peer["@ + decimal((ps.len() - 1) as nat) + "] "@ + dotted(
            p.bgp_id,
        ) + " asn="@ + p.asn + " ip="@ + p.ip + "\n"@
    }
}

/// The head of the RIB view: the peers, if there is a table of them, and the
/// column names.
pub open spec fn head_text(index: Option<IndexModel>) -> Seq<char> {
    (match index {
        Some(t) => "view \""@ + t.view_name + "\" collector="@ + dotted(t.collector_bgp_id) + "\n"@
            + peer_lines(t.peers),
        None => Seq::empty(),
    }) + padded("PREFIX"@, 20) + " "@ + padded("PEER"@, 14) + " "@ + padded("AS-PATH"@, 28) + " "@
        + padded("NEXT-HOP"@, 15) + " PATH-ID\n"@
}

/// The peer of an entry; unknown if the table does not have it.
pub open spec fn entry_peer(index: Option<IndexModel>, i: u16) -> Seq<char> {
    match index {
        Some(t) => if i < t.peers.len() {
            dotted(t.peers[i as int].bgp_id)
        } else {
            "?"@
        },
        None => "?"@,
    }
}

/// The line of an entry.
pub open spec fn entry_text(
    index: Option<IndexModel>,
    prefix: Seq<char>,
    add_path: bool,
    e: RibEntryModel,
) -> Seq<char> {
    padded(prefix, 20) + " "@ + padded(entry_peer(index, e.peer_index), 14) + " "@ + padded(
        if e.as_path.len() == 0 {
            "-"@
        } else {
            e.as_path
        },
        28,
    ) + " "@ + padded(
        match e.next_hop {
            Some(n) => n,
            None => "-"@,
        },
        15,
    ) + " "@ + (if add_path {
        decimal(e.path_id as nat)
    } else {
        "-"@
    }) + "\n"@
}

/// The lines of the entries of a record.
pub open spec fn entries_text(
    index: Option<IndexModel>,
    prefix: Seq<char>,
    add_path: bool,
    es: Seq<RibEntryModel>,
) -> Seq<char>
    decreases es.len(),
{
    if es.len() == 0 {
        Seq::empty()
    } else {
        entries_text(index, prefix, add_path, es.drop_last()) + entry_text(
            index,
            prefix,
            add_path,
            es.last(),
        )
    }
}

/// Where the RIB view of a dump stands: the last peer table, the number of RIB
/// records, and the text.
pub struct RibView {
    pub index: Option<IndexModel>,
    pub count: nat,
    pub text: Seq<char>,
}

/// The RIB view after a record. Entries refer to the last peer table.
pub open spec fn view_step(v: RibView, r: RecordModel) -> RibView {
    match r {
        RecordModel::PeerIndexTable(t) => RibView { index: Some(t), ..v },
        RecordModel::Rib(t) => RibView {
            count: v.count + 1,
            text: v.text + (if v.count == 0 {
                head_text(v.index)
            } else {
                Seq::empty()
            }) + entries_text(v.index, t.prefix, t.add_path, t.entries),
            ..v
        },
        _ => v,
    }
}

/// The RIB view after all records.
pub open spec fn view_of(rs: Seq<RecordModel>) -> RibView
    decreases rs.len(),
{
    if rs.len() == 0 {
        RibView { index: None, count: 0, text: Seq::empty() }
    } else {
        view_step(view_of(rs.drop_last()), rs.last())
    }
}

fn write_peers(ps: &Vec<PeerEntry>) -> (r: String)
    ensures
        r@ == peer_lines(views(ps@)),
{
    let ghost pv = views(ps@);
    let mut out = String::new();
    assert(out@ =~= Seq::<char>::empty());
    let mut i: usize = 0;
    while i < ps.len()
        invariant
            i <= ps@.len(),
            pv == views(ps@),
            out@ == peer_lines(pv.take(i as int)),
        decreases ps@.len() - i,
    {
        proof {
            take_step(pv, i as int);
            assert(pv.take(i + 1).len() == i + 1);
        }
        out.append("  peer[");
        out.append(write_number(i as u64).as_str());
        out.append("] ");
        out.append(fmt_bgp_id(ps[i].bgp_id).as_str());
        out.append(" asn=");
        out.append(ps[i].asn.as_str());
        out.append(" ip=");
        out.append(ps[i].ip.as_str());
        out.append("\n");
        i += 1;
    }
    assert(pv.take(i as int) =~= pv);
    out
}

/// The view of an optional table.
spec fn index_view(index: Option<&PeerIndexTable>) -> Option<IndexModel> {
    match index {
        Some(t) => Some(t@),
        None => None,
    }
}

fn write_head(index: Option<&PeerIndexTable>) -> (r: String)
    ensures
        r@ == head_text(index_view(index)),
{
    let mut s = String::new();
    assert(s@ =~= Seq::<char>::empty());
    match index {
        Some(t) => {
            s = cat3("view \"", t.view_name.as_str(), "\" collector=");
            s.append(fmt_bgp_id(t.collector_bgp_id).as_str());
            s.append("\n");
            s.append(write_peers(&t.peers).as_str());
        },
        None => {},
    }
    s.append(pad("PREFIX", 20).as_str());
    s.append(" ");
    s.append(pad("PEER", 14).as_str());
    s.append(" ");
    s.append(pad("AS-PATH", 28).as_str());
    s.append(" ");
    s.append(pad("NEXT-HOP", 15).as_str());
    s.append(" PATH-ID\n");
    s
}

fn write_entry(index: Option<&PeerIndexTable>, prefix: &str, add_path: bool, e: &RibEntry) -> (r:
    String)
    ensures
        r@ == entry_text(index_view(index), prefix@, add_path, e@),
{
    let peer = match index {
        Some(t) => {
            let ghost pv = views(t.peers@);
            assert(pv.len() == t.peers@.len());
            if (e.peer_index as usize) < t.peers.len() {
                assert(pv[e.peer_index as int] == t.peers@[e.peer_index as int]@);
                fmt_bgp_id(t.peers[e.peer_index as usize].bgp_id)
            } else {
                own("?")
            }
        },
        None => own("?"),
    };
    let path = if is_blank(&e.as_path) {
        own("-")
    } else {
        own(e.as_path.as_str())
    };
    let hop = match &e.next_hop {
        Some(n) => own(n.as_str()),
        None => own("-"),
    };
    let id = if add_path {
        write_number(e.path_id as u64)
    } else {
        own("-")
    };
    let mut s = pad(prefix, 20);
    s.append(" ");
    s.append(pad(peer.as_str(), 14).as_str());
    s.append(" ");
    s.append(pad(path.as_str(), 28).as_str());
    s.append(" ");
    s.append(pad(hop.as_str(), 15).as_str());
    s.append(" ");
    s.append(id.as_str());
    s.append("\n");
    s
}

fn write_entries(index: Option<&PeerIndexTable>, t: &RibTable) -> (r: String)
    ensures
        r@ == entries_text(index_view(index), t.prefix@, t.add_path, views(t.entries@)),
{
    let ghost ev = views(t.entries@);
    let mut out = String::new();
    assert(out@ =~= Seq::<char>::empty());
    let mut i: usize = 0;
    while i < t.entries.len()
        invariant
            i <= t.entries@.len(),
            ev == views(t.entries@),
            out@ == entries_text(index_view(index), t.prefix@, t.add_path, ev.take(i as int)),
        decreases t.entries@.len() - i,
    {
        proof {
            take_step(ev, i as int);
        }
        out.append(
            write_entry(index, t.prefix.as_str(), t.add_path, &t.entries[i]).as_str(),
        );
        i += 1;
    }
    assert(ev.take(i as int) =~= ev);
    out
}

/// Writes the RIB view of a dump; an error if it has no RIB record.
pub fn print_rib(rs: &Vec<MrtRecord>) -> (r: Result<String, String>)
    ensures
        match r {
            Ok(s) => view_of(views(rs@)).count > 0 && s@ == view_of(views(rs@)).text + decimal(
                view_of(views(rs@)).count,
            ) + " rib record(s)\n"@,
            Err(m) => view_of(views(rs@)).count == 0 && m@ == "no RIB records found in dump"@,
        },
{
    let ghost rv = views(rs@);
    let mut index: Option<&PeerIndexTable> = None;
    let mut count: usize = 0;
    let mut out = String::new();
    assert(out@ =~= Seq::<char>::empty());
    let mut i: usize = 0;
    while i < rs.len()
        invariant
            i <= rs@.len(),
            count <= i,
            rv == views(rs@),
            view_of(rv.take(i as int)).index == index_view(index),
            view_of(rv.take(i as int)).count == count,
            view_of(rv.take(i as int)).text == out@,
        decreases rs@.len() - i,
    {
        proof {
            take_step(rv, i as int);
        }
        match &rs[i] {
            MrtRecord::PeerIndexTable(t) => {
                index = Some(t);
            },
            MrtRecord::Rib(t) => {
                let ghost before = out@;
                if count == 0 {
                    out.append(write_head(index).as_str());
                } else {
                    assert(before + Seq::<char>::empty() =~= before);
                }
                out.append(write_entries(index, t).as_str());
                count += 1;
            },
            _ => {},
        }
        i += 1;
    }
    assert(rv.take(i as int) =~= rv);
    if count == 0 {
        return Err(own("no RIB records found in dump"));
    }
    out.append(write_number(count as u64).as_str());
    out.append(" rib record(s)\n");
    Ok(out)
}

/// A route that may go into a dump. `prefix` is the prefix's place in the
/// order of all prefixes.
#[derive(Clone, Copy, Debug, PartialEq, Eq, Structural)]
pub struct DumpRoute {
    pub prefix: u64,
    pub path_id: u32,
    pub is_bgp: bool,
}

/// A RIB record to write: the routes in it, by their position.
pub struct TablePlan {
    pub sequence: u32,
    pub prefix: u64,
    pub add_path: bool,
    pub routes: Vec<usize>,
}

/// The same over numbers.
#[verifier::ext_equal]
pub struct TablePlanModel {
    pub sequence: u32,
    pub prefix: u64,
    pub add_path: bool,
    pub routes: Seq<int>,
}

impl View for TablePlan {
    type V = TablePlanModel;

    open spec fn view(&self) -> TablePlanModel {
        TablePlanModel {
            sequence: self.sequence,
            prefix: self.prefix,
            add_path: self.add_path,
            routes: self.routes@.map_values(|i: usize| i as int),
        }
    }
}

/// Whether a route belongs into a record.
pub open spec fn belongs(r: DumpRoute, prefix: u64, add_path: bool) -> bool {
    r.is_bgp && r.prefix == prefix && (r.path_id != 0) == add_path
}

/// The routes of a record, by their position.
pub open spec fn members(rs: Seq<DumpRoute>, prefix: u64, add_path: bool) -> Seq<int>
    decreases rs.len(),
{
    if rs.len() == 0 {
        Seq::empty()
    } else {
        let before = members(rs.drop_last(), prefix, add_path);
        if belongs(rs.last(), prefix, add_path) {
            before.push(rs.len() - 1)
        } else {
            before
        }
    }
}

/// Where a prefix stands or belongs in an ascending list, from `i` on.
pub open spec fn prefix_at(s: Seq<u64>, i: int, p: u64) -> int
    decreases s.len() - i,
{
    if i < 0 || i >= s.len() || s[i] >= p {
        i
    } else {
        prefix_at(s, i + 1, p)
    }
}

/// The prefixes of the BGP routes, ascending, each once.
pub open spec fn prefixes_of(rs: Seq<DumpRoute>) -> Seq<u64>
    decreases rs.len(),
{
    if rs.len() == 0 {
        Seq::empty()
    } else {
        let before = prefixes_of(rs.drop_last());
        let p = rs.last().prefix;
        let i = prefix_at(before, 0, p);
        if !rs.last().is_bgp || (i < before.len() && before[i] == p) {
            before
        } else {
            before.insert(i, p)
        }
    }
}

/// The records with one more, if it has routes.
pub open spec fn with_table(
    ts: Seq<TablePlanModel>,
    rs: Seq<DumpRoute>,
    prefix: u64,
    add_path: bool,
) -> Seq<TablePlanModel> {
    let routes = members(rs, prefix, add_path);
    if routes.len() == 0 {
        ts
    } else {
        ts.push(
            TablePlanModel {
                sequence: (ts.len() % 0x1_0000_0000) as u32,
                prefix,
                add_path,
                routes,
            },
        )
    }
}

/// The records of the prefixes: routes without a path identifier and routes
/// with one go into records of their own.
pub open spec fn tables_of(ps: Seq<u64>, rs: Seq<DumpRoute>) -> Seq<TablePlanModel>
    decreases ps.len(),
{
    if ps.len() == 0 {
        Seq::empty()
    } else {
        with_table(
            with_table(tables_of(ps.drop_last(), rs), rs, ps.last(), false),
            rs,
            ps.last(),
            true,
        )
    }
}

fn collect_members(rs: &Vec<DumpRoute>, prefix: u64, add_path: bool) -> (r: Vec<usize>)
    ensures
        r@.map_values(|i: usize| i as int) == members(rs@, prefix, add_path),
{
    let mut out: Vec<usize> = Vec::new();
    let mut i: usize = 0;
    assert(out@.map_values(|k: usize| k as int) =~= Seq::empty());
    while i < rs.len()
        invariant
            i <= rs@.len(),
            out@.map_values(|k: usize| k as int) == members(rs@.take(i as int), prefix, add_path),
        decreases rs@.len() - i,
    {
        proof {
            take_step(rs@, i as int);
            assert(rs@.take(i + 1).len() == i + 1);
        }
        let r: DumpRoute = rs[i];
        if r.is_bgp && r.prefix == prefix && (r.path_id != 0) == add_path {
            let ghost before = out@;
            out.push(i);
            assert(out@.map_values(|k: usize| k as int) =~= before.map_values(
                |k: usize| k as int,
            ).push(i as int));
        }
        i += 1;
    }
    assert(rs@.take(i as int) =~= rs@);
    out
}

fn collect_prefixes(rs: &Vec<DumpRoute>) -> (r: Vec<u64>)
    ensures
        r@ == prefixes_of(rs@),
{
    let mut out: Vec<u64> = Vec::new();
    let mut n: usize = 0;
    assert(out@ =~= Seq::empty());
    while n < rs.len()
        invariant
            n <= rs@.len(),
            out@ == prefixes_of(rs@.take(n as int)),
        decreases rs@.len() - n,
    {
        proof {
            take_step(rs@, n as int);
        }
        let p: u64 = rs[n].prefix;
        let ghost before = out@;
        let mut i: usize = 0;
        while i < out.len() && out[i] < p
            invariant
                i <= out@.len(),
                out@ == before,
                prefix_at(before, 0, p) == prefix_at(before, i as int, p),
            decreases out@.len() - i,
        {
            i += 1;
        }
        if rs[n].is_bgp && !(i < out.len() && out[i] == p) {
            out.insert(i, p);
        }
        n += 1;
    }
    assert(rs@.take(n as int) =~= rs@);
    out
}

fn add_table(ts: &mut Vec<TablePlan>, rs: &Vec<DumpRoute>, prefix: u64, add_path: bool)
    ensures
        views(final(ts)@) == with_table(views(old(ts)@), rs@, prefix, add_path),
{
    let routes = collect_members(rs, prefix, add_path);
    assert(members(rs@, prefix, add_path).len() == routes@.len());
    assert(views(ts@).len() == ts@.len());
    if routes.len() > 0 {
        let sequence: u32 = (ts.len() as u64 % 0x1_0000_0000) as u32;
        push_view(ts, TablePlan { sequence, prefix, add_path, routes });
    }
}

/// Plans the records of a dump, in the order of the prefixes.
pub fn plan_tables(rs: &Vec<DumpRoute>) -> (ts: Vec<TablePlan>)
    ensures
        views(ts@) == tables_of(prefixes_of(rs@), rs@),
{
    let ps = collect_prefixes(rs);
    let mut ts: Vec<TablePlan> = no_items();
    let mut i: usize = 0;
    while i < ps.len()
        invariant
            i <= ps@.len(),
            views(ts@) == tables_of(ps@.take(i as int), rs@),
        decreases ps@.len() - i,
    {
        proof {
            take_step(ps@, i as int);
        }
        add_table(&mut ts, rs, ps[i], false);
        add_table(&mut ts, rs, ps[i], true);
        i += 1;
    }
    assert(ps@.take(i as int) =~= ps@);
    ts
}

proof fn members_hold(rs: Seq<DumpRoute>, i: int)
    requires
        0 <= i < rs.len(),
        rs[i].is_bgp,
    ensures
        members(rs, rs[i].prefix, rs[i].path_id != 0).contains(i),
    decreases rs.len(),
{
    let p = rs[i].prefix;
    let a = rs[i].path_id != 0;
    let m = members(rs, p, a);
    if i == rs.len() - 1 {
        assert(m.last() == i);
    } else {
        assert(rs.drop_last()[i] == rs[i]);
        members_hold(rs.drop_last(), i);
        let before = members(rs.drop_last(), p, a);
        let k = choose|k: int| 0 <= k < before.len() && before[k] == i;
        assert(m[k] == i);
    }
}

proof fn prefix_at_in(s: Seq<u64>, i: int, p: u64)
    requires
        0 <= i <= s.len(),
    ensures
        i <= prefix_at(s, i, p) <= s.len(),
    decreases s.len() - i,
{
    if i < s.len() && s[i] < p {
        prefix_at_in(s, i + 1, p);
    }
}

proof fn prefixes_hold(rs: Seq<DumpRoute>, i: int)
    requires
        0 <= i < rs.len(),
        rs[i].is_bgp,
    ensures
        prefixes_of(rs).contains(rs[i].prefix),
    decreases rs.len(),
{
    let before = prefixes_of(rs.drop_last());
    let p = rs.last().prefix;
    let at = prefix_at(before, 0, p);
    prefix_at_in(before, 0, p);
    let all = prefixes_of(rs);
    if i == rs.len() - 1 {
        assert(all[at] == p);
    } else {
        assert(rs.drop_last()[i] == rs[i]);
        prefixes_hold(rs.drop_last(), i);
        let k = choose|k: int| 0 <= k < before.len() && before[k] == rs[i].prefix;
        if all.len() == before.len() || k < at {
            assert(all[k] == rs[i].prefix);
        } else {
            assert(all[k + 1] == rs[i].prefix);
        }
    }
}

/// Whether a record of a prefix and form holds a route.
pub open spec fn held(ts: Seq<TablePlanModel>, r: DumpRoute, i: int) -> bool {
    exists|t: int|
        0 <= t < ts.len() && (#[trigger] ts[t]).prefix == r.prefix && ts[t].add_path == (r.path_id
            != 0) && ts[t].routes.contains(i)
}

proof fn held_stays(ts: Seq<TablePlanModel>, x: TablePlanModel, r: DumpRoute, i: int)
    requires
        held(ts, r, i),
    ensures
        held(ts.push(x), r, i),
{
    let t = choose|t: int|
        0 <= t < ts.len() && (#[trigger] ts[t]).prefix == r.prefix && ts[t].add_path == (r.path_id
            != 0) && ts[t].routes.contains(i);
    assert(ts.push(x)[t] == ts[t]);
}

proof fn tables_hold(ps: Seq<u64>, rs: Seq<DumpRoute>, i: int)
    requires
        0 <= i < rs.len(),
        rs[i].is_bgp,
        ps.contains(rs[i].prefix),
    ensures
        held(tables_of(ps, rs), rs[i], i),
    decreases ps.len(),
{
    let r = rs[i];
    let p = ps.last();
    let before = tables_of(ps.drop_last(), rs);
    let mid = with_table(before, rs, p, false);
    let all = with_table(mid, rs, p, true);
    if p == r.prefix {
        members_hold(rs, i);
        if r.path_id == 0 {
            assert(mid.last().routes.contains(i));
            assert(mid[mid.len() - 1].prefix == p);
            assert(held(mid, r, i));
            if all.len() > mid.len() {
                held_stays(mid, all.last(), r, i);
                assert(all =~= mid.push(all.last()));
            }
        } else {
            assert(all[all.len() - 1].prefix == p);
            assert(all.last().routes.contains(i));
        }
    } else {
        let k = choose|k: int| 0 <= k < ps.len() && ps[k] == r.prefix;
        assert(ps.drop_last()[k] == r.prefix);
        tables_hold(ps.drop_last(), rs, i);
        if mid.len() > before.len() {
            held_stays(before, mid.last(), r, i);
            assert(mid =~= before.push(mid.last()));
        }
        if all.len() > mid.len() {
            held_stays(mid, all.last(), r, i);
            assert(all =~= mid.push(all.last()));
        }
    }
}

/// Every BGP route goes into a record of its prefix.
pub proof fn dumps_hold_every_route(rs: Seq<DumpRoute>, i: int)
    requires
        0 <= i < rs.len(),
        rs[i].is_bgp,
    ensures
        held(tables_of(prefixes_of(rs), rs), rs[i], i),
{
    prefixes_hold(rs, i);
    tables_hold(prefixes_of(rs), rs, i);
}

} // verus!
