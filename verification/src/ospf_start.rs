//! Starting an OSPF daemon: what refuses a start, which areas need an anchor
//! session, whether a former restart goes on, and the status it reports.

use crate::grace::{later_floor, newer_floor, Resume};
use crate::hex::{hex8, write_hex8};
use crate::ospf::{lists, OspfInterface};
use crate::ospf3::Ospf3Interface;
use crate::ospf3_daemon::{Daemon3Core, Ospf3Daemon};
use crate::ospf_daemon::{DaemonCore, OspfDaemon, SrSidConfig};
use crate::table::{key_in, put, take_step, Entries, Table};
use crate::text::{
    cat, decimal, dotted, opt_view, own, views, views_push, write_dotted, write_number,
};
use vstd::prelude::*;
use vstd::string::*;

verus! {

/// Why a daemon does not start.
#[derive(Clone, Copy, Debug, PartialEq, Eq, Structural)]
pub enum Refusal {
    /// Dropping privileges is not supported: raw sockets are opened first.
    Privileges,
    /// No interface is configured.
    NoInterface,
}

/// Whether an OSPFv2 daemon may start.
pub open spec fn refusal_of(drops_privileges: bool, interfaces: nat) -> Option<Refusal> {
    if drops_privileges {
        Some(Refusal::Privileges)
    } else if interfaces == 0 {
        Some(Refusal::NoInterface)
    } else {
        None
    }
}

/// Whether an OSPFv2 daemon may start.
pub fn start_refusal(drops_privileges: bool, interfaces: usize) -> (r: Option<Refusal>)
    ensures
        r == refusal_of(drops_privileges, interfaces as nat),
{
    if drops_privileges {
        Some(Refusal::Privileges)
    } else if interfaces == 0 {
        Some(Refusal::NoInterface)
    } else {
        None
    }
}

/// The message of a refusal.
pub open spec fn refusal_message(r: Refusal) -> Seq<char> {
    match r {
        Refusal::Privileges => "daemon: --user/--group are not supported with --protocol ospf yet (raw sockets are opened before the drop would happen)"@,
        Refusal::NoInterface => "daemon: --protocol ospf needs at least one interface (--ospf-interface NAME or [[ospf.interface]] tables)"@,
    }
}

impl Refusal {
    /// What the daemon prints.
    pub fn message(&self) -> (s: String)
        ensures
            s@ == refusal_message(*self),
    {
        match self {
            Refusal::Privileges => own(
                "daemon: --user/--group are not supported with --protocol ospf yet (raw sockets are opened before the drop would happen)",
            ),
            Refusal::NoInterface => own(
                "daemon: --protocol ospf needs at least one interface (--ospf-interface NAME or [[ospf.interface]] tables)",
            ),
        }
    }
}

/// Where graceful-restart state is kept: the configured file, or one beside the
/// API socket.
pub open spec fn state_file_of(explicit: Option<Seq<char>>, socket: Option<Seq<char>>) -> Option<
    Seq<char>,
> {
    match explicit {
        Some(f) => Some(f),
        None => match socket {
            Some(s) => Some(s + ".gr"@),
            None => None,
        },
    }
}

/// Where graceful-restart state is kept.
pub fn state_file(explicit: &Option<String>, socket: &Option<String>) -> (r: Option<String>)
    ensures
        opt_view(r) == state_file_of(opt_view(*explicit), opt_view(*socket)),
{
    match explicit {
        Some(f) => Some(own(f.as_str())),
        None => match socket {
            Some(s) => Some(cat(s.as_str(), ".gr")),
            None => None,
        },
    }
}

/// A configured prefix SID whose prefix was read; one that is not an IPv4
/// prefix has none.
#[derive(Clone, Copy, Debug)]
pub struct PrefixSidSpec {
    pub prefix: Option<([u8; 4], u8)>,
    pub sid: Option<u32>,
    pub node: Option<bool>,
}

/// The prefix SIDs of a configuration. Each keeps its place as its opaque id,
/// so a change refreshes its own LSA alone.
pub open spec fn sids_from(specs: Seq<PrefixSidSpec>) -> Seq<SrSidConfig>
    decreases specs.len(),
{
    if specs.len() == 0 {
        Seq::empty()
    } else {
        let before = sids_from(specs.drop_last());
        match specs.last().prefix {
            Some((prefix, prefix_len)) => before.push(
                SrSidConfig {
                    prefix,
                    prefix_len,
                    sid: match specs.last().sid {
                        Some(s) => s,
                        None => 0,
                    },
                    node: specs.last().node == Some(true),
                    opaque_index: specs.len() as u32,
                },
            ),
            None => before,
        }
    }
}

/// Reads the prefix SIDs of a configuration.
pub fn prefix_sids(specs: &Vec<PrefixSidSpec>) -> (r: Vec<SrSidConfig>)
    requires
        specs@.len() <= u32::MAX,
    ensures
        r@ == sids_from(specs@),
{
    let mut out: Vec<SrSidConfig> = Vec::new();
    let mut i: usize = 0;
    while i < specs.len()
        invariant
            i <= specs@.len() <= u32::MAX,
            out@ == sids_from(specs@.take(i as int)),
        decreases specs@.len() - i,
    {
        proof {
            take_step(specs@, i as int);
        }
        let s = specs[i];
        match s.prefix {
            Some((prefix, prefix_len)) => {
                let node = match s.node {
                    Some(b) => b,
                    None => false,
                };
                let sid: u32 = match s.sid {
                    Some(n) => n,
                    None => 0,
                };
                out.push(
                    SrSidConfig { prefix, prefix_len, sid, node, opaque_index: (i + 1) as u32 },
                );
            },
            None => {},
        }
        i += 1;
    }
    assert(specs@.take(i as int) =~= specs@);
    out
}

/// Areas in recovery after each of `areas` joined with `secs` of grace; an area
/// that is in already stays as it is.
pub open spec fn joined(t: Entries<u32>, areas: Seq<u32>, secs: u32) -> Entries<u32>
    decreases areas.len(),
{
    if areas.len() == 0 {
        t
    } else {
        let before = joined(t, areas.drop_last(), secs);
        if key_in(before, areas.last() as u64) {
            before
        } else {
            put(before, areas.last() as u64, secs)
        }
    }
}

/// The floor after a resumed restart.
pub open spec fn resumed_floor(floor: u32, r: Resume) -> u32 {
    match r {
        Resume::Recover { floor: Some(f), .. } => newer_floor(floor, f),
        _ => floor,
    }
}

/// The distinct values of a list, in order of first appearance, that are not
/// keys of `t`.
pub open spec fn fresh_of<V>(list: Seq<u32>, t: Entries<V>) -> Seq<u32>
    decreases list.len(),
{
    if list.len() == 0 {
        Seq::empty()
    } else {
        let before = fresh_of(list.drop_last(), t);
        if key_in(t, list.last() as u64) || before.contains(list.last()) {
            before
        } else {
            before.push(list.last())
        }
    }
}

fn fresh_areas(list: &Vec<u32>, t: &Table<u64>) -> (r: Vec<u32>)
    ensures
        r@ == fresh_of(list@, t@),
{
    let mut out: Vec<u32> = Vec::new();
    let mut i: usize = 0;
    while i < list.len()
        invariant
            i <= list@.len(),
            out@ == fresh_of(list@.take(i as int), t@),
        decreases list@.len() - i,
    {
        proof {
            take_step(list@, i as int);
        }
        let a: u32 = list[i];
        if !t.contains_key(a as u64) && !lists(&out, a) {
            out.push(a);
        }
        i += 1;
    }
    assert(list@.take(i as int) =~= list@);
    out
}

fn join_areas(t: &mut Table<u32>, areas: &Vec<u32>, secs: u32)
    requires
        old(t).wf(),
    ensures
        final(t).wf(),
        final(t)@ == joined(old(t)@, areas@, secs),
{
    let mut i: usize = 0;
    while i < areas.len()
        invariant
            i <= areas@.len(),
            t.wf(),
            t@ == joined(old(t)@, areas@.take(i as int), secs),
        decreases areas@.len() - i,
    {
        proof {
            take_step(areas@, i as int);
        }
        if !t.contains_key(areas[i] as u64) {
            t.insert(areas[i] as u64, secs);
        }
        i += 1;
    }
    assert(areas@.take(i as int) =~= areas@);
}

impl OspfDaemon {
    /// The area of each interface.
    pub open spec fn areas(&self) -> Seq<u32> {
        self.interfaces@.map_values(|i: OspfInterface| i.core.area)
    }

    fn interface_areas(&self) -> (r: Vec<u32>)
        ensures
            r@ == self.areas(),
    {
        let mut out: Vec<u32> = Vec::new();
        let mut i: usize = 0;
        while i < self.interfaces.len()
            invariant
                i <= self.interfaces@.len(),
                out@ == self.areas().take(i as int),
            decreases self.interfaces@.len() - i,
        {
            out.push(self.interfaces[i].core.area);
            i += 1;
            assert(out@ =~= self.areas().take(i as int));
        }
        assert(self.areas().take(i as int) =~= self.areas());
        out
    }

    /// The areas that still need an anchor session.
    pub fn unanchored_areas(&self) -> (r: Vec<u32>)
        ensures
            r@ == fresh_of(self.areas(), self.anchors@),
    {
        let areas = self.interface_areas();
        fresh_areas(&areas, &self.anchors)
    }

    /// Enters an area's anchor session.
    pub fn add_anchor(&mut self, area: u32, handle: u64)
        requires
            old(self).wf(),
        ensures
            final(self).wf(),
            final(self).anchors@ == put(old(self).anchors@, area as u64, handle),
            final(self).interfaces == old(self).interfaces,
            final(self).neighbors == old(self).neighbors,
            final(self).pending_reorig == old(self).pending_reorig,
            final(self).lsa_seq == old(self).lsa_seq,
            final(self).gr_recovery == old(self).gr_recovery,
            final(self).gr_topology == old(self).gr_topology,
            final(self).sr_sids == old(self).sr_sids,
            final(self).sr_seq == old(self).sr_seq,
            final(self).core == old(self).core,
    {
        self.anchors.insert(area as u64, handle);
    }

    /// Takes up a former restart: every interface's area is in recovery for
    /// what is left of the grace, and the sequence floor is at least the
    /// former one. An expired state changes nothing.
    pub fn resume(&mut self, r: Resume)
        requires
            old(self).wf(),
        ensures
            final(self).wf(),
            final(self).gr_recovery@ == (match r {
                Resume::Recover { remaining_secs, .. } => joined(
                    old(self).gr_recovery@,
                    old(self).areas(),
                    remaining_secs,
                ),
                Resume::Expired => old(self).gr_recovery@,
            }),
            final(self).core == (DaemonCore {
                gr_seq_floor: resumed_floor(old(self).core.gr_seq_floor, r),
                ..old(self).core
            }),
            final(self).interfaces == old(self).interfaces,
            final(self).neighbors == old(self).neighbors,
            final(self).pending_reorig == old(self).pending_reorig,
            final(self).anchors == old(self).anchors,
            final(self).lsa_seq == old(self).lsa_seq,
            final(self).gr_topology == old(self).gr_topology,
            final(self).sr_sids == old(self).sr_sids,
            final(self).sr_seq == old(self).sr_seq,
    {
        match r {
            Resume::Recover { period: _, remaining_secs, floor } => {
                match floor {
                    Some(f) => {
                        self.core.gr_seq_floor = later_floor(self.core.gr_seq_floor, f);
                    },
                    None => {},
                }
                let areas = self.interface_areas();
                join_areas(&mut self.gr_recovery, &areas, remaining_secs);
            },
            Resume::Expired => {},
        }
    }
}

impl Ospf3Daemon {
    /// The area of each interface.
    pub open spec fn areas(&self) -> Seq<u32> {
        self.interfaces@.map_values(|i: Ospf3Interface| i.core.area)
    }

    fn interface_areas(&self) -> (r: Vec<u32>)
        ensures
            r@ == self.areas(),
    {
        let mut out: Vec<u32> = Vec::new();
        let mut i: usize = 0;
        while i < self.interfaces.len()
            invariant
                i <= self.interfaces@.len(),
                out@ == self.areas().take(i as int),
            decreases self.interfaces@.len() - i,
        {
            out.push(self.interfaces[i].core.area);
            i += 1;
            assert(out@ =~= self.areas().take(i as int));
        }
        assert(self.areas().take(i as int) =~= self.areas());
        out
    }

    /// The areas that still need an anchor session.
    pub fn unanchored_areas(&self) -> (r: Vec<u32>)
        ensures
            r@ == fresh_of(self.areas(), self.anchors@),
    {
        let areas = self.interface_areas();
        fresh_areas(&areas, &self.anchors)
    }

    /// Enters an area's anchor session.
    pub fn add_anchor(&mut self, area: u32, handle: u64)
        requires
            old(self).wf(),
        ensures
            final(self).wf(),
            final(self).anchors@ == put(old(self).anchors@, area as u64, handle),
            final(self).interfaces == old(self).interfaces,
            final(self).neighbors == old(self).neighbors,
            final(self).pending_reorig == old(self).pending_reorig,
            final(self).seqs == old(self).seqs,
            final(self).gr_recovery == old(self).gr_recovery,
            final(self).gr_topology == old(self).gr_topology,
            final(self).core == old(self).core,
    {
        self.anchors.insert(area as u64, handle);
    }

    /// Takes up a former restart, as [`OspfDaemon::resume`] does.
    pub fn resume(&mut self, r: Resume)
        requires
            old(self).wf(),
        ensures
            final(self).wf(),
            final(self).gr_recovery@ == (match r {
                Resume::Recover { remaining_secs, .. } => joined(
                    old(self).gr_recovery@,
                    old(self).areas(),
                    remaining_secs,
                ),
                Resume::Expired => old(self).gr_recovery@,
            }),
            final(self).core == (Daemon3Core {
                gr_seq_floor: resumed_floor(old(self).core.gr_seq_floor, r),
                ..old(self).core
            }),
            final(self).interfaces == old(self).interfaces,
            final(self).neighbors == old(self).neighbors,
            final(self).pending_reorig == old(self).pending_reorig,
            final(self).anchors == old(self).anchors,
            final(self).seqs == old(self).seqs,
            final(self).gr_topology == old(self).gr_topology,
    {
        match r {
            Resume::Recover { period: _, remaining_secs, floor } => {
                match floor {
                    Some(f) => {
                        self.core.gr_seq_floor = later_floor(self.core.gr_seq_floor, f);
                    },
                    None => {},
                }
                let areas = self.interface_areas();
                join_areas(&mut self.gr_recovery, &areas, remaining_secs);
            },
            Resume::Expired => {},
        }
    }
}

/// One helped neighbor in the status report.
pub struct HelperStatus {
    pub rid: u32,
    /// How the area is written.
    pub area: String,
    pub secs_left: u64,
}

/// The line of a helped neighbor.
pub open spec fn helper_line(h: HelperStatus) -> Seq<char> {
    "  helper "@ + dotted(h.rid) + " (area "@ + h.area@ + ", "@ + decimal(h.secs_left as nat)
        + "s grace left)"@
}

/// The lines of helped neighbors.
pub open spec fn helper_lines(hs: Seq<HelperStatus>) -> Seq<Seq<char>> {
    hs.map_values(|h: HelperStatus| helper_line(h))
}

/// What a recovering daemon reports.
pub open spec fn recovering_line(v3: bool, deadline_ms: u64) -> Seq<char> {
    if v3 {
        "ospf3 graceful restart: recovering (grace deadline +"@ + decimal(deadline_ms as nat)
            + "ms)"@
    } else {
        "ospf graceful restart: recovering (grace until +"@ + decimal((deadline_ms / 1_000) as nat)
            + "s)"@
    }
}

/// The heading of the helped neighbors.
pub open spec fn helpers_heading(v3: bool) -> Seq<char> {
    if v3 {
        "ospf3 graceful restart helpers:"@
    } else {
        "ospf graceful restart helpers:"@
    }
}

/// The graceful-restart part of a status report: the recovery, if one is live,
/// then the helped neighbors, if there are any.
pub open spec fn status_of(v3: bool, deadline_ms: Option<u64>, hs: Seq<HelperStatus>) -> Seq<
    Seq<char>,
> {
    (match deadline_ms {
        Some(d) => seq![recovering_line(v3, d)],
        None => Seq::empty(),
    }) + (if hs.len() > 0 {
        seq![helpers_heading(v3)] + helper_lines(hs)
    } else {
        Seq::empty()
    })
}

fn push_line(out: &mut Vec<String>, s: String)
    ensures
        views(final(out)@) == views(old(out)@).push(s@),
{
    proof {
        views_push(out@, s);
    }
    out.push(s);
}

/// The graceful-restart part of a status report.
pub fn gr_status_lines(v3: bool, deadline_ms: Option<u64>, hs: &Vec<HelperStatus>) -> (r: Vec<
    String,
>)
    ensures
        views(r@) == status_of(v3, deadline_ms, hs@),
{
    let mut out: Vec<String> = Vec::new();
    assert(views(out@) =~= Seq::<Seq<char>>::empty());
    match deadline_ms {
        Some(d) => {
            let mut s = String::new();
            if v3 {
                s.append("ospf3 graceful restart: recovering (grace deadline +");
                s.append(write_number(d).as_str());
                s.append("ms)");
            } else {
                s.append("ospf graceful restart: recovering (grace until +");
                s.append(write_number(d / 1_000).as_str());
                s.append("s)");
            }
            assert(s@ =~= recovering_line(v3, d));
            push_line(&mut out, s);
        },
        None => {},
    }
    let ghost head = views(out@);
    if hs.len() > 0 {
        let title = own(
            if v3 {
                "ospf3 graceful restart helpers:"
            } else {
                "ospf graceful restart helpers:"
            },
        );
        push_line(&mut out, title);
        let mut i: usize = 0;
        assert(views(out@) =~= head + (seq![helpers_heading(v3)] + helper_lines(hs@.take(0))));
        while i < hs.len()
            invariant
                i <= hs@.len(),
                views(out@) == head + (seq![helpers_heading(v3)] + helper_lines(
                    hs@.take(i as int),
                )),
            decreases hs@.len() - i,
        {
            let mut s = own("  helper ");
            s.append(write_dotted(hs[i].rid).as_str());
            s.append(" (area ");
            s.append(hs[i].area.as_str());
            s.append(", ");
            s.append(write_number(hs[i].secs_left).as_str());
            s.append("s grace left)");
            assert(s@ =~= helper_line(hs@[i as int]));
            push_line(&mut out, s);
            i += 1;
            assert(helper_lines(hs@.take(i as int)) =~= helper_lines(hs@.take(i - 1)).push(
                helper_line(hs@[i - 1]),
            ));
            assert(views(out@) =~= head + (seq![helpers_heading(v3)] + helper_lines(
                hs@.take(i as int),
            )));
        }
        assert(hs@.take(i as int) =~= hs@);
    }
    assert(views(out@) =~= status_of(v3, deadline_ms, hs@));
    out
}

/// A session's line of a status report.
pub open spec fn session_text(handle: u64, kind: Seq<char>, state: Seq<char>) -> Seq<char> {
    "ospf3 session #"@ + decimal(handle as nat) + " kind="@ + kind + " state="@ + state
}

/// A session's line of a status report.
pub fn session_line(handle: u64, kind: &str, state: &str) -> (s: String)
    ensures
        s@ == session_text(handle, kind@, state@),
{
    let mut s = own("ospf3 session #");
    s.append(write_number(handle).as_str());
    s.append(" kind=");
    s.append(kind);
    s.append(" state=");
    s.append(state);
    s
}

/// An adjacency SID that a router advertises.
pub struct EndXStatus {
    /// The SID and the area, as they are shown.
    pub sid: String,
    pub area: String,
    pub router: u32,
    pub behavior: u16,
    pub algorithm: u8,
    pub neighbor: u32,
    /// The neighbor that a LAN adjacency names.
    pub lan_neighbor: Option<u32>,
}

/// An adjacency SID's line of a status report. The neighbor of a LAN adjacency
/// is the one that it names.
pub open spec fn end_x_text(x: EndXStatus) -> Seq<char> {
    "srv6-endx "@ + x.sid@ + " area="@ + x.area@ + " router="@ + hex8(x.router) + " behavior="@
        + decimal(x.behavior as nat) + " alg="@ + decimal(x.algorithm as nat) + " neighbor="@ + hex8(
        match x.lan_neighbor {
            Some(n) => n,
            None => x.neighbor,
        },
    ) + (match x.lan_neighbor {
        Some(_) => " lan"@,
        None => Seq::empty(),
    })
}

/// An adjacency SID's line of a status report.
pub fn end_x_line(x: &EndXStatus) -> (s: String)
    ensures
        s@ == end_x_text(*x),
{
    let mut s = own("srv6-endx ");
    s.append(x.sid.as_str());
    s.append(" area=");
    s.append(x.area.as_str());
    s.append(" router=");
    s.append(write_hex8(x.router).as_str());
    s.append(" behavior=");
    s.append(write_number(x.behavior as u64).as_str());
    s.append(" alg=");
    s.append(write_number(x.algorithm as u64).as_str());
    s.append(" neighbor=");
    match x.lan_neighbor {
        Some(n) => {
            s.append(write_hex8(n).as_str());
            s.append(" lan");
        },
        None => {
            s.append(write_hex8(x.neighbor).as_str());
        },
    }
    assert(s@ =~= end_x_text(*x));
    s
}

/// The word for a Grace-LSA's reason.
pub open spec fn reason_word(reason: u8) -> Seq<char> {
    if reason == 1 {
        "software restart"@
    } else if reason == 2 {
        "software reload/upgrade"@
    } else if reason == 3 {
        "redundant switchover"@
    } else {
        "unknown"@
    }
}

/// The word for a Grace-LSA's reason.
pub fn grace_reason(reason: u8) -> (s: String)
    ensures
        s@ == reason_word(reason),
{
    if reason == 1 {
        own("software restart")
    } else if reason == 2 {
        own("software reload/upgrade")
    } else if reason == 3 {
        own("redundant switchover")
    } else {
        own("unknown")
    }
}

} // verus!
