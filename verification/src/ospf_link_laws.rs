//! What the OSPFv2 daemon says of its interfaces and segments.

use crate::ospf::{
    area_kind_of, dead_of, hello_dirties, hello_entry, hello_of, initial_core, network_type_of,
    priority_of, HeardNeighbor, HelloBody, IfCore, IfState, NetworkType, OspfAreaSpec,
    OspfIfDefaults, OspfIfSpec, OspfInterface, V4Addr,
};
use crate::ospf_daemon::{area_links, area_networks, full_rids, Neighbor};
use crate::ospf_segment::{
    alive, bidirectional_ips, election_due, links_of, network_decision, network_done, p2p_links,
    rid_of_ip, role_of, secondary_stubs, stubs, transit_ready, voters, Elector, NetworkDecision,
    RouterLsaLink,
};
use crate::table::{key_in, Entries};
use vstd::prelude::*;
use vstd::string::*;

verus! {

/// The address that an interface goes by: its first, or 0.
pub open spec fn first_address(i: OspfInterface) -> u32 {
    if i.addrs@.len() == 0 {
        0
    } else {
        i.addrs@[0].addr
    }
}

proof fn secondary_stubs_are_addresses(addrs: Seq<V4Addr>, primary: u32, cost: u16, k: int)
    requires
        0 <= k < secondary_stubs(addrs, primary, cost).len(),
    ensures
        exists|j: int|
            0 <= j < addrs.len() && (#[trigger] addrs[j]).network != primary && secondary_stubs(
                addrs,
                primary,
                cost,
            )[k] == (RouterLsaLink::Stub {
                network: addrs[j].network,
                mask: addrs[j].mask,
                metric: cost,
            }),
    decreases addrs.len(),
{
    let before = secondary_stubs(addrs.drop_last(), primary, cost);
    if k < before.len() {
        secondary_stubs_are_addresses(addrs.drop_last(), primary, cost, k);
        let j = choose|j: int|
            0 <= j < addrs.drop_last().len() && (#[trigger] addrs.drop_last()[j]).network != primary
                && before[k] == (RouterLsaLink::Stub {
                network: addrs.drop_last()[j].network,
                mask: addrs.drop_last()[j].mask,
                metric: cost,
            });
        assert(addrs[j].network != primary);
    } else {
        assert(addrs[addrs.len() - 1].network != primary);
    }
}

proof fn addresses_have_secondary_stubs(addrs: Seq<V4Addr>, primary: u32, cost: u16, j: int)
    requires
        0 <= j < addrs.len(),
        addrs[j].network != primary,
    ensures
        secondary_stubs(addrs, primary, cost).contains(
            RouterLsaLink::Stub { network: addrs[j].network, mask: addrs[j].mask, metric: cost },
        ),
    decreases addrs.len(),
{
    let before = secondary_stubs(addrs.drop_last(), primary, cost);
    let all = secondary_stubs(addrs, primary, cost);
    let link = RouterLsaLink::Stub {
        network: addrs[j].network,
        mask: addrs[j].mask,
        metric: cost,
    };
    if j < addrs.len() - 1 {
        addresses_have_secondary_stubs(addrs.drop_last(), primary, cost, j);
        let k = choose|k: int| 0 <= k < before.len() && before[k] == link;
        assert(all[k] == link);
    } else {
        assert(all[all.len() - 1] == link);
    }
}

/// Every link tells the truth of the interface. A transit link has the elected
/// DR's address as its identity and the interface's own as its data, so that it
/// refers to the Network-LSA that the DR originates. A point-to-point link names
/// an adjacent neighbor. A stub link is the network of an address. Each has the
/// interface's cost.
pub proof fn links_tell_the_truth(i: OspfInterface, full: Seq<u32>, k: int)
    requires
        0 <= k < links_of(i, full).len(),
    ensures
        match links_of(i, full)[k] {
            RouterLsaLink::Transit { dr_addr, local_addr, metric } => {
                &&& i.core.network_type == NetworkType::Broadcast
                &&& dr_addr == i.core.dr
                &&& dr_addr != 0
                &&& local_addr == first_address(i)
                &&& metric == i.core.cost
                &&& i.core.if_state != IfState::Waiting
                &&& full.len() > 0
                &&& k == links_of(i, full).len() - 1
            },
            RouterLsaLink::PointToPoint { neighbor, local_addr, metric } => {
                &&& i.core.network_type == NetworkType::PointToPoint
                &&& full.contains(neighbor)
                &&& local_addr == first_address(i)
                &&& metric == i.core.cost
            },
            RouterLsaLink::Stub { network, mask, metric } => {
                &&& metric == i.core.cost
                &&& exists|j: int|
                    0 <= j < i.addrs@.len() && (#[trigger] i.addrs@[j]).network == network
                        && i.addrs@[j].mask == mask
            },
        },
{
    let cost = i.core.cost;
    let addrs = i.addrs@;
    let links = links_of(i, full);
    match i.core.network_type {
        NetworkType::PointToPoint => {
            if k < addrs.len() {
                assert(links[k] == stubs(addrs, cost)[k]);
                assert(addrs[k].network == links[k]->network);
            } else {
                let j = k - addrs.len();
                assert(links[k] == p2p_links(full, i.local_spec(), cost)[j]);
                assert(full[j] == links[k]->neighbor);
            }
        },
        NetworkType::Broadcast => {
            if transit_ready(i, full) {
                let primary = if addrs.len() > 0 {
                    addrs[0].network
                } else {
                    0
                };
                if k < links.len() - 1 {
                    secondary_stubs_are_addresses(addrs, primary, cost, k);
                }
            } else {
                assert(links[k] == stubs(addrs, cost)[k]);
                assert(addrs[k].network == links[k]->network);
            }
        },
    }
}

/// A point-to-point interface has a link for every adjacency and a stub for
/// every address.
pub proof fn point_to_point_links_are_complete(i: OspfInterface, full: Seq<u32>, j: int)
    requires
        i.core.network_type == NetworkType::PointToPoint,
    ensures
        0 <= j < full.len() ==> links_of(i, full).contains(
            RouterLsaLink::PointToPoint {
                neighbor: full[j],
                local_addr: first_address(i),
                metric: i.core.cost,
            },
        ),
        0 <= j < i.addrs@.len() ==> links_of(i, full).contains(
            RouterLsaLink::Stub {
                network: i.addrs@[j].network,
                mask: i.addrs@[j].mask,
                metric: i.core.cost,
            },
        ),
        links_of(i, full).len() == full.len() + i.addrs@.len(),
{
    let links = links_of(i, full);
    let n = i.addrs@.len() as int;
    if 0 <= j < full.len() {
        assert(links[n + j] == p2p_links(full, i.local_spec(), i.core.cost)[j]);
    }
    if 0 <= j < n {
        assert(links[j] == stubs(i.addrs@, i.core.cost)[j]);
    }
}

proof fn addresses_are_found(heard: Entries<HeardNeighbor>, ip: u32)
    ensures
        rid_of_ip(heard, ip) is None <==> forall|j: int|
            0 <= j < heard.len() ==> (#[trigger] heard[j]).1.ip != ip,
        rid_of_ip(heard, ip) is Some ==> exists|j: int|
            {
                &&& 0 <= j < heard.len()
                &&& (#[trigger] heard[j]).1.ip == ip
                &&& heard[j].1.rid == rid_of_ip(heard, ip)->0
                &&& forall|x: int| 0 <= x < j ==> (#[trigger] heard[x]).1.ip != ip
            },
    decreases heard.len(),
{
    if heard.len() > 0 {
        let rest = heard.subrange(1, heard.len() as int);
        if heard[0].1.ip == ip {
            assert(heard[0].1.rid == rid_of_ip(heard, ip)->0);
        } else {
            addresses_are_found(rest, ip);
            assert forall|j: int| 1 <= j < heard.len() implies #[trigger] heard[j] == rest[j - 1] by {}
            if rid_of_ip(rest, ip) is Some {
                let j = choose|j: int|
                    {
                        &&& 0 <= j < rest.len()
                        &&& (#[trigger] rest[j]).1.ip == ip
                        &&& rest[j].1.rid == rid_of_ip(rest, ip)->0
                        &&& forall|x: int| 0 <= x < j ==> (#[trigger] rest[x]).1.ip != ip
                    };
                assert(heard[j + 1].1.ip == ip);
                assert forall|x: int| 0 <= x < j + 1 implies (#[trigger] heard[x]).1.ip != ip by {
                    if x > 0 {
                        assert(rest[x - 1].1.ip != ip);
                    }
                }
            } else {
                assert forall|j: int| 0 <= j < heard.len() implies (#[trigger] heard[j]).1.ip
                    != ip by {
                    if j > 0 {
                        assert(rest[j - 1].1.ip != ip);
                    }
                }
            }
        }
    }
}

/// A neighbor is found by its address: the first that has it, and none exactly
/// if none has it.
pub proof fn neighbors_are_found_by_address(heard: Entries<HeardNeighbor>, ip: u32)
    ensures
        rid_of_ip(heard, ip) is None <==> forall|j: int|
            0 <= j < heard.len() ==> (#[trigger] heard[j]).1.ip != ip,
        rid_of_ip(heard, ip) is Some ==> exists|j: int|
            {
                &&& 0 <= j < heard.len()
                &&& (#[trigger] heard[j]).1.ip == ip
                &&& heard[j].1.rid == rid_of_ip(heard, ip)->0
                &&& forall|x: int| 0 <= x < j ==> (#[trigger] heard[x]).1.ip != ip
            },
{
    addresses_are_found(heard, ip);
}

/// A broadcast interface is described by a transit link exactly if a DR is
/// elected, the wait is over, and this router is the DR and adjacent to someone,
/// or adjacent to the neighbor that has the DR's address.
pub proof fn transit_needs_the_dr(i: OspfInterface, full: Seq<u32>)
    requires
        i.core.network_type == NetworkType::Broadcast,
    ensures
        (exists|k: int|
            0 <= k < links_of(i, full).len() && #[trigger] links_of(i, full)[k] is Transit) <==> {
            &&& i.core.dr != 0
            &&& i.core.if_state != IfState::Waiting
            &&& i.core.dr == first_address(i) ==> full.len() > 0
            &&& i.core.dr != first_address(i) ==> rid_of_ip(i.heard@, i.core.dr) is Some
                && full.contains(rid_of_ip(i.heard@, i.core.dr)->0)
        },
{
    let links = links_of(i, full);
    if transit_ready(i, full) {
        assert(links[links.len() - 1] is Transit);
    } else {
        assert forall|k: int| 0 <= k < links.len() implies !(#[trigger] links[k] is Transit) by {
            assert(links[k] == stubs(i.addrs@, i.core.cost)[k]);
        }
    }
}

/// Every address of a broadcast interface has its stub link, but for those of
/// the network that a transit link describes, the network of the first address.
pub proof fn broadcast_stubs_are_complete(i: OspfInterface, full: Seq<u32>, j: int)
    requires
        i.core.network_type == NetworkType::Broadcast,
        0 <= j < i.addrs@.len(),
        i.addrs@[j].network != i.addrs@[0].network || !transit_ready(i, full),
    ensures
        links_of(i, full).contains(
            RouterLsaLink::Stub {
                network: i.addrs@[j].network,
                mask: i.addrs@[j].mask,
                metric: i.core.cost,
            },
        ),
{
    let links = links_of(i, full);
    let link = RouterLsaLink::Stub {
        network: i.addrs@[j].network,
        mask: i.addrs@[j].mask,
        metric: i.core.cost,
    };
    if transit_ready(i, full) {
        let s = secondary_stubs(i.addrs@, i.addrs@[0].network, i.core.cost);
        addresses_have_secondary_stubs(i.addrs@, i.addrs@[0].network, i.core.cost, j);
        let k = choose|k: int| 0 <= k < s.len() && s[k] == link;
        assert(links[k] == link);
    } else {
        assert(links[j] == stubs(i.addrs@, i.core.cost)[j]);
    }
}

/// The Network-LSA of a segment: its DR originates it if it has an adjacency,
/// with the mask of its first address, itself and every adjacent neighbor, after
/// the instance before. Who is no longer DR flushes what it holds, with the
/// sequence number it holds. Everyone else keeps still.
pub proof fn network_lsas_list_the_segment(i: OspfInterface, full: Seq<u32>, our_rid: u32)
    ensures
        ({
            let reigns = i.core.network_type == NetworkType::Broadcast && i.core.if_state
                == IfState::Dr && i.core.dr == first_address(i) && full.len() > 0;
            let d = network_decision(i, full, our_rid);
            &&& d is Originate <==> reigns
            &&& d is Flush || d is Forget <==> !reigns && i.core.network_type
                == NetworkType::Broadcast && i.core.net_lsa_active
            &&& match d {
                NetworkDecision::Originate { mask, attached, prev } => {
                    &&& i.addrs@.len() > 0 ==> mask == i.addrs@[0].mask
                    &&& attached.len() == full.len() + 1
                    &&& attached[0] == our_rid
                    &&& forall|j: int|
                        0 <= j < full.len() ==> attached[j + 1] == #[trigger] full[j]
                    &&& prev == i.core.net_lsa_seq
                },
                NetworkDecision::Flush { mask, held } => {
                    &&& i.addrs@.len() > 0 ==> mask == i.addrs@[0].mask
                    &&& i.core.net_lsa_seq == Some(held)
                },
                NetworkDecision::Forget => i.core.net_lsa_seq is None,
                NetworkDecision::Keep => true,
            }
        }),
{
}

/// Carrying out the decision marks the Network-LSA as ours exactly if it was
/// made, with the number it was made with, and as not ours if it was flushed.
/// Nothing else of the interface changes.
pub proof fn network_lsas_are_remembered(c: IfCore, d: NetworkDecision, made: Option<u32>)
    ensures
        ({
            let e = network_done(c, d, made);
            &&& e == IfCore {
                net_lsa_seq: e.net_lsa_seq,
                net_lsa_active: e.net_lsa_active,
                ..c
            }
            &&& d is Originate && made is Some ==> e.net_lsa_active && e.net_lsa_seq == made
            &&& d is Originate && made is None ==> e == c
            &&& d is Flush || d is Forget ==> !e.net_lsa_active && e.net_lsa_seq == c.net_lsa_seq
            &&& d is Keep ==> e == c
        }),
{
}

/// The votes of an election are those of the neighbors that list this router
/// and were heard within the dead interval, each as its last Hello said.
pub proof fn voters_are_the_neighbors_in_touch(
    heard: Entries<HeardNeighbor>,
    dead: u32,
    now_ms: u64,
    e: Elector,
)
    ensures
        voters(heard, dead, now_ms).contains(e) <==> exists|j: int|
            {
                &&& 0 <= j < heard.len()
                &&& (#[trigger] heard[j]).1.bidirectional
                &&& now_ms - heard[j].1.last_ms <= dead * 1000
                &&& e.router_id == heard[j].1.rid
                &&& e.ip == heard[j].1.ip
                &&& e.priority == heard[j].1.priority
                &&& e.stated_dr == heard[j].1.stated_dr
                &&& e.stated_bdr == heard[j].1.stated_bdr
            },
    decreases heard.len(),
{
    if heard.len() > 0 {
        let rest = heard.drop_last();
        voters_are_the_neighbors_in_touch(rest, dead, now_ms, e);
        let all = voters(heard, dead, now_ms);
        let before = voters(rest, dead, now_ms);
        let h = heard.last().1;
        let n = heard.len() - 1;
        assert(heard[n].1 == h);
        if before.contains(e) {
            let k = choose|k: int| 0 <= k < before.len() && before[k] == e;
            assert(all[k] == e);
            let j = choose|j: int|
                {
                    &&& 0 <= j < rest.len()
                    &&& (#[trigger] rest[j]).1.bidirectional
                    &&& now_ms - rest[j].1.last_ms <= dead * 1000
                    &&& e.router_id == rest[j].1.rid
                    &&& e.ip == rest[j].1.ip
                    &&& e.priority == rest[j].1.priority
                    &&& e.stated_dr == rest[j].1.stated_dr
                    &&& e.stated_bdr == rest[j].1.stated_bdr
                };
            assert(heard[j] == rest[j]);
        } else {
            if all.contains(e) {
                let k = choose|k: int| 0 <= k < all.len() && all[k] == e;
                if k < before.len() {
                    assert(before[k] == e);
                }
                assert(heard[n].1.bidirectional);
            }
            if exists|j: int|
                {
                    &&& 0 <= j < heard.len()
                    &&& (#[trigger] heard[j]).1.bidirectional
                    &&& now_ms - heard[j].1.last_ms <= dead * 1000
                    &&& e.router_id == heard[j].1.rid
                    &&& e.ip == heard[j].1.ip
                    &&& e.priority == heard[j].1.priority
                    &&& e.stated_dr == heard[j].1.stated_dr
                    &&& e.stated_bdr == heard[j].1.stated_bdr
                } {
                let j = choose|j: int|
                    {
                        &&& 0 <= j < heard.len()
                        &&& (#[trigger] heard[j]).1.bidirectional
                        &&& now_ms - heard[j].1.last_ms <= dead * 1000
                        &&& e.router_id == heard[j].1.rid
                        &&& e.ip == heard[j].1.ip
                        &&& e.priority == heard[j].1.priority
                        &&& e.stated_dr == heard[j].1.stated_dr
                        &&& e.stated_bdr == heard[j].1.stated_bdr
                    };
                if j < n {
                    assert(rest[j].1.bidirectional);
                }
                assert(all[all.len() - 1] == e);
            }
        }
    }
}

/// This router is DR exactly if the elected DR has its address, Backup if it is
/// not DR and the elected Backup has it, and neither otherwise; without an
/// address it is neither.
pub proof fn roles_follow_the_election(local: u32, dr: u32, bdr: u32)
    ensures
        role_of(local, dr, bdr) == IfState::Dr <==> local != 0 && local == dr,
        role_of(local, dr, bdr) == IfState::Backup <==> local != 0 && local != dr && local == bdr,
        role_of(local, dr, bdr) == IfState::DrOther <==> local == 0 || (local != dr && local
            != bdr),
{
}

/// An election runs on a broadcast segment only, never while the interface is
/// down, and while it waits only on news or once the wait is over.
pub proof fn elections_run_when_due(c: IfCore, now_ms: u64)
    ensures
        c.network_type == NetworkType::PointToPoint ==> !election_due(c, now_ms),
        c.if_state == IfState::Down ==> !election_due(c, now_ms),
        c.network_type == NetworkType::Broadcast && c.if_state != IfState::Down
            && c.election_dirty ==> election_due(c, now_ms),
        !c.election_dirty && c.if_state != IfState::Waiting ==> !election_due(c, now_ms),
        c.network_type == NetworkType::Broadcast && c.if_state == IfState::Waiting
            && !c.election_dirty ==> (election_due(c, now_ms) <==> c.wait_deadline_ms != 0 && now_ms
            >= c.wait_deadline_ms),
{
}

/// Unicast copies go to the neighbors that list this router.
pub proof fn unicast_goes_to_neighbors_in_touch(heard: Entries<HeardNeighbor>, ip: u32)
    ensures
        bidirectional_ips(heard).contains(ip) <==> exists|j: int|
            0 <= j < heard.len() && (#[trigger] heard[j]).1.bidirectional && heard[j].1.ip == ip,
    decreases heard.len(),
{
    if heard.len() > 0 {
        let rest = heard.drop_last();
        unicast_goes_to_neighbors_in_touch(rest, ip);
        let all = bidirectional_ips(heard);
        let before = bidirectional_ips(rest);
        let n = heard.len() - 1;
        assert(heard[n] == heard.last());
        if before.contains(ip) {
            let k = choose|k: int| 0 <= k < before.len() && before[k] == ip;
            assert(all[k] == ip);
            let j = choose|j: int|
                0 <= j < rest.len() && (#[trigger] rest[j]).1.bidirectional && rest[j].1.ip == ip;
            assert(heard[j].1.ip == ip);
        } else {
            if all.contains(ip) {
                let k = choose|k: int| 0 <= k < all.len() && all[k] == ip;
                if k < before.len() {
                    assert(before[k] == ip);
                }
                assert(heard[n].1.bidirectional);
            }
            if exists|j: int|
                0 <= j < heard.len() && (#[trigger] heard[j]).1.bidirectional && heard[j].1.ip
                    == ip {
                let j = choose|j: int|
                    0 <= j < heard.len() && (#[trigger] heard[j]).1.bidirectional && heard[j].1.ip
                        == ip;
                if j < n {
                    assert(rest[j].1.ip == ip);
                }
                assert(all[all.len() - 1] == ip);
            }
        }
    }
}

/// A router is a Full neighbor of an interface exactly if its session in that
/// area, on that interface, is up and the interface still hears it.
pub proof fn full_neighbors_are_up_and_heard(
    n: Entries<Neighbor>,
    area: u32,
    ifindex: u32,
    heard: Entries<HeardNeighbor>,
    rid: u32,
)
    ensures
        full_rids(n, area, ifindex, heard).contains(rid) <==> exists|j: int|
            {
                &&& 0 <= j < n.len()
                &&& (#[trigger] n[j]).1.rid == rid
                &&& n[j].1.area == area
                &&& n[j].1.ifindex == ifindex
                &&& n[j].1.established
                &&& key_in(heard, rid as u64)
            },
    decreases n.len(),
{
    if n.len() > 0 {
        let rest = n.drop_last();
        full_neighbors_are_up_and_heard(rest, area, ifindex, heard, rid);
        let all = full_rids(n, area, ifindex, heard);
        let before = full_rids(rest, area, ifindex, heard);
        let m = n.len() - 1;
        assert(n[m] == n.last());
        if before.contains(rid) {
            let k = choose|k: int| 0 <= k < before.len() && before[k] == rid;
            assert(all[k] == rid);
            let j = choose|j: int|
                {
                    &&& 0 <= j < rest.len()
                    &&& (#[trigger] rest[j]).1.rid == rid
                    &&& rest[j].1.area == area
                    &&& rest[j].1.ifindex == ifindex
                    &&& rest[j].1.established
                    &&& key_in(heard, rid as u64)
                };
            assert(n[j].1.rid == rid);
        } else {
            if all.contains(rid) {
                let k = choose|k: int| 0 <= k < all.len() && all[k] == rid;
                if k < before.len() {
                    assert(before[k] == rid);
                }
                assert(n[m].1.rid == rid);
            }
            if exists|j: int|
                {
                    &&& 0 <= j < n.len()
                    &&& (#[trigger] n[j]).1.rid == rid
                    &&& n[j].1.area == area
                    &&& n[j].1.ifindex == ifindex
                    &&& n[j].1.established
                    &&& key_in(heard, rid as u64)
                } {
                let j = choose|j: int|
                    {
                        &&& 0 <= j < n.len()
                        &&& (#[trigger] n[j]).1.rid == rid
                        &&& n[j].1.area == area
                        &&& n[j].1.ifindex == ifindex
                        &&& n[j].1.established
                        &&& key_in(heard, rid as u64)
                    };
                if j < m {
                    assert(rest[j].1.rid == rid);
                }
                assert(all[all.len() - 1] == rid);
            }
        }
    }
}

/// The links of an area are those of its interfaces, each with its own
/// adjacencies, and of no other.
pub proof fn area_links_are_the_interfaces(
    ifs: Seq<OspfInterface>,
    i: OspfInterface,
    n: Entries<Neighbor>,
    area: u32,
)
    ensures
        area_links(Seq::empty(), n, area) == Seq::<RouterLsaLink>::empty(),
        i.core.area != area ==> area_links(ifs.push(i), n, area) == area_links(ifs, n, area),
        i.core.area == area ==> area_links(ifs.push(i), n, area) == area_links(ifs, n, area)
            + links_of(i, full_rids(n, area, i.core.ifindex, i.heard@)),
{
    assert(ifs.push(i).drop_last() =~= ifs);
}

/// The Network-LSA decisions of an area are those of its interfaces, each at
/// its interface's place.
pub proof fn area_networks_are_the_interfaces(
    ifs: Seq<OspfInterface>,
    i: OspfInterface,
    n: Entries<Neighbor>,
    area: u32,
    our_rid: u32,
)
    ensures
        i.core.area != area ==> area_networks(ifs.push(i), n, area, our_rid) == area_networks(
            ifs,
            n,
            area,
            our_rid,
        ),
        i.core.area == area ==> area_networks(ifs.push(i), n, area, our_rid) == area_networks(
            ifs,
            n,
            area,
            our_rid,
        ).push(
            (
                ifs.len() as int,
                network_decision(i, full_rids(n, area, i.core.ifindex, i.heard@), our_rid),
            ),
        ),
{
    assert(ifs.push(i).drop_last() =~= ifs);
}

/// A Hello leaves what it says of its sender: address, priority and the DR and
/// Backup it states, the time it came, and whether it lists this router.
pub proof fn hellos_are_remembered(rid: u32, ip: u32, body: HelloBody, our_rid: u32, now_ms: u64)
    ensures
        ({
            let h = hello_entry(rid, ip, body, our_rid, now_ms);
            &&& h.rid == rid
            &&& h.ip == ip
            &&& h.priority == body.priority
            &&& h.stated_dr == body.dr
            &&& h.stated_bdr == body.bdr
            &&& h.last_ms == now_ms
            &&& h.bidirectional <==> exists|j: int|
                0 <= j < body.neighbors@.len() && #[trigger] body.neighbors@[j] == our_rid
        }),
{
    let h = hello_entry(rid, ip, body, our_rid, now_ms);
    if h.bidirectional {
        let j = choose|j: int| 0 <= j < body.neighbors@.len() && body.neighbors@[j] == our_rid;
        assert(body.neighbors@[j] == our_rid);
    }
}

/// A Hello that says the same again is no news for the election; one of a new
/// neighbor is news exactly if it lists this router, and so is a new priority,
/// a new claim to be DR or Backup, or an end of such a claim.
pub proof fn only_news_dirties_the_election(
    p: HeardNeighbor,
    ip: u32,
    body: HelloBody,
    our_rid: u32,
)
    ensures
        hello_dirties(None, ip, body, our_rid) == body.neighbors@.contains(our_rid),
        p.priority != body.priority ==> hello_dirties(Some(p), ip, body, our_rid),
        (p.stated_dr == p.ip) != (body.dr == ip) ==> hello_dirties(Some(p), ip, body, our_rid),
        (p.stated_bdr == p.ip) != (body.bdr == ip) ==> hello_dirties(Some(p), ip, body, our_rid),
        !p.bidirectional && body.neighbors@.contains(our_rid) ==> hello_dirties(
            Some(p),
            ip,
            body,
            our_rid,
        ),
        p.priority == body.priority && p.ip == ip && p.stated_dr == body.dr && p.stated_bdr
            == body.bdr && p.bidirectional == body.neighbors@.contains(our_rid) ==> !hello_dirties(
            Some(p),
            ip,
            body,
            our_rid,
        ),
{
}

/// What an interface table states holds of the interface; what it leaves out is
/// the daemon's default. A Hello goes out at least every second, and a neighbor
/// is not dead before its Hello is due.
pub proof fn interfaces_start_as_configured(
    spec: OspfIfSpec,
    d: OspfIfDefaults,
    network_type: NetworkType,
    ifindex: u32,
    mtu: u16,
)
    ensures
        ({
            let c = initial_core(spec, d, network_type, ifindex, mtu);
            &&& c.ifindex == ifindex && c.mtu == mtu && c.network_type == network_type
            &&& spec.area is Some ==> c.area == spec.area->0
            &&& spec.area is None ==> c.area == d.area
            &&& spec.cost is Some ==> c.cost == spec.cost->0
            &&& spec.cost is None ==> c.cost == 10
            &&& spec.priority is Some ==> c.priority == spec.priority->0
            &&& spec.priority is None ==> c.priority == 1
            &&& spec.hello_interval is Some && spec.hello_interval->0 >= 1 ==> c.hello_interval
                == spec.hello_interval->0
            &&& spec.hello_interval is None && d.hello_interval >= 1 ==> c.hello_interval
                == d.hello_interval
            &&& c.hello_interval >= 1
            &&& spec.dead_interval is Some && spec.dead_interval->0 >= c.hello_interval
                ==> c.dead_interval == spec.dead_interval->0
            &&& spec.dead_interval is None && d.dead_interval >= c.hello_interval
                ==> c.dead_interval == d.dead_interval
            &&& c.dead_interval >= c.hello_interval
            &&& c.dr == 0 && c.bdr == 0
            &&& c.net_lsa_seq is None && !c.net_lsa_active && !c.election_dirty
            &&& c.if_state == IfState::Waiting <==> network_type == NetworkType::Broadcast
                && c.priority > 0
            &&& c.if_state == IfState::Waiting ==> c.wait_deadline_ms == c.dead_interval * 1000
            &&& c.if_state != IfState::Waiting ==> c.if_state == IfState::DrOther
                && c.wait_deadline_ms == 0
        }),
{
}

/// The words for a kind of network.
pub proof fn network_types_have_their_words(w: Seq<char>)
    ensures
        network_type_of(None) == Some(NetworkType::PointToPoint),
        network_type_of(Some(w)) == Some(NetworkType::Broadcast) <==> w == "broadcast"@,
        network_type_of(Some(w)) == Some(NetworkType::PointToPoint) <==> w == "p2p"@ || w
            == "point-to-point"@ || w == ""@,
        network_type_of(Some(w)) is None <==> w != "broadcast"@ && w != "p2p"@ && w
            != "point-to-point"@ && w != ""@,
{
    reveal_strlit("broadcast");
    reveal_strlit("p2p");
    reveal_strlit("point-to-point");
    reveal_strlit("");
    assert("broadcast"@.len() == 9 && "p2p"@.len() == 3 && "point-to-point"@.len() == 14);
    assert(""@.len() == 0);
}

/// An area is special only if it is a stub or an NSSA, each of its own kind,
/// and keeps what its table states.
pub proof fn areas_are_of_their_kind(spec: OspfAreaSpec)
    ensures
        ({
            let a = area_kind_of(spec);
            &&& a is Some <==> spec.kind is Some && (spec.kind->0@ == "stub"@ || spec.kind->0@
                == "nssa"@)
            &&& a is Some ==> {
                &&& a->0.nssa <==> spec.kind->0@ == "nssa"@
                &&& a->0.no_summary <==> spec.no_summary == Some(true)
                &&& spec.stub_metric is Some ==> a->0.metric == spec.stub_metric->0
                &&& spec.stub_metric is None ==> a->0.metric == 10
            }
        }),
{
    reveal_strlit("stub");
    reveal_strlit("nssa");
    assert("stub"@[0] == 's' && "nssa"@[0] == 'n');
}

} // verus!
