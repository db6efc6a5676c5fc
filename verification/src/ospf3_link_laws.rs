//! What the OSPFv3 daemon says of its interfaces and segments.

use crate::ospf::{IfState, NetworkType};
use crate::ospf3::{Heard3, If3Core, Ospf3Interface, V6Prefix};
use crate::ospf3_daemon::{
    area3_links, described, end_x_table, full3, is_dr, is_link_local, lan_of, lan_table,
    link_requests, links3_of, merge_prefix, merge_prefixes, merged_options, models3,
    network_request, network_requests, others, plan3_of, prefix_before, prefix_rank,
    prefix_request, prefix_requests, reported, request_views, rest_requests, router_prefixes,
    segment_lsid, segment_prefixes, withheld, Area3Plan, If3Model, LanModel, LinkBody, Lsdb,
    Ospf3Daemon, RequestKind, RequestModel, SLOT_COMPANION, SLOT_LINK, SLOT_NETWORK, SLOT_PREFIX,
    SLOT_ROUTER, SLOT_SRV6_INFO, SLOT_SRV6_LOCATORS,
};
use crate::ospf3_plan::{place_ok, record_one, Recorded};
use crate::ospf_daemon::{newer, signed_sequence, Neighbor};
use crate::srv6::{LinkType, V3RouterLink};
use crate::table::{ascending, get, key_in, pair_key, put_keeps_order, put_then_get, Entries};
use vstd::prelude::*;

verus! {

/// Every link tells the truth of the interface. A transit link names the
/// segment's elected DR: its router-id, and the id that the DR's interface has,
/// as the DR itself knows it or as it was heard from it. So it is the identity
/// of the Network-LSA that the DR originates. A point-to-point link names an
/// adjacent neighbor and its interface. Each has the interface's own id and
/// cost.
pub proof fn links_name_the_elected_dr(i: If3Model, full: Seq<u32>, our_rid: u32, k: int)
    requires
        0 <= k < links3_of(i, full, our_rid).len(),
    ensures
        ({
            let l = links3_of(i, full, our_rid)[k];
            let reigns = i.core.if_state == IfState::Dr && i.core.dr == our_rid;
            &&& l.interface_id == i.core.interface_id
            &&& l.metric == i.core.cost
            &&& i.core.network_type == NetworkType::Broadcast ==> {
                &&& l.link_type == LinkType::Transit
                &&& l.neighbor_router_id == i.core.dr
                &&& reigns ==> l.neighbor_interface_id == i.core.interface_id
                &&& !reigns ==> get(i.heard, i.core.dr as u64) is Some && l.neighbor_interface_id
                    == get(i.heard, i.core.dr as u64)->0.interface_id
                &&& !reigns ==> full.contains(i.core.dr) && i.core.dr != 0
                &&& full.len() > 0
                &&& links3_of(i, full, our_rid).len() == 1
            }
            &&& i.core.network_type == NetworkType::PointToPoint ==> {
                &&& l.link_type == LinkType::PointToPoint
                &&& l.neighbor_router_id == full[k]
                &&& get(i.heard, full[k] as u64) is Some ==> l.neighbor_interface_id == get(
                    i.heard,
                    full[k] as u64,
                )->0.interface_id
                &&& get(i.heard, full[k] as u64) is None ==> l.neighbor_interface_id == 0
            }
        }),
{
}

/// An interface has as many links as it should: a point-to-point one for every
/// adjacency; a broadcast one if this router is the DR and adjacent to someone,
/// or is adjacent to the DR and hears it, and otherwise none.
pub proof fn links_are_complete(i: If3Model, full: Seq<u32>, our_rid: u32)
    ensures
        i.core.network_type == NetworkType::PointToPoint ==> links3_of(i, full, our_rid).len()
            == full.len(),
        i.core.network_type == NetworkType::Broadcast ==> {
            let reigns = i.core.if_state == IfState::Dr && i.core.dr == our_rid;
            links3_of(i, full, our_rid).len() == (if (reigns && full.len() > 0) || (!reigns
                && i.core.dr != 0 && full.contains(i.core.dr) && get(i.heard, i.core.dr as u64)
                is Some) {
                1int
            } else {
                0
            })
        },
{
}

/// The links of an area are those of its interfaces, each with its own
/// adjacencies, and of no other.
pub proof fn area_links_are_the_interfaces(
    ifs: Seq<If3Model>,
    i: If3Model,
    n: Entries<Neighbor>,
    area: u32,
    our_rid: u32,
)
    ensures
        area3_links(Seq::empty(), n, area, our_rid) == Seq::<V3RouterLink>::empty(),
        i.core.area != area ==> area3_links(ifs.push(i), n, area, our_rid) == area3_links(
            ifs,
            n,
            area,
            our_rid,
        ),
        i.core.area == area ==> area3_links(ifs.push(i), n, area, our_rid) == area3_links(
            ifs,
            n,
            area,
            our_rid,
        ) + links3_of(i, full3(n, area, i.core.interface_id), our_rid),
{
    assert(ifs.push(i).drop_last() =~= ifs);
}

/// A router is a Full neighbor of an interface exactly if its session in that
/// area, on that interface, is up.
pub proof fn full_neighbors_are_up(n: Entries<Neighbor>, area: u32, id: u32, rid: u32)
    ensures
        full3(n, area, id).contains(rid) <==> exists|j: int|
            {
                &&& 0 <= j < n.len()
                &&& (#[trigger] n[j]).1.rid == rid
                &&& n[j].1.area == area
                &&& n[j].1.ifindex == id
                &&& n[j].1.established
            },
    decreases n.len(),
{
    if n.len() > 0 {
        let rest = n.drop_last();
        full_neighbors_are_up(rest, area, id, rid);
        let all = full3(n, area, id);
        let before = full3(rest, area, id);
        let m = n.len() - 1;
        assert(n[m] == n.last());
        if before.contains(rid) {
            let k = choose|k: int| 0 <= k < before.len() && before[k] == rid;
            assert(all[k] == rid);
            let j = choose|j: int|
                {
                    &&& 0 <= j < rest.len()
                    &&& (#[trigger] rest[j]).1.rid == rid
                    &&& rest[j].1.area == area
                    &&& rest[j].1.ifindex == id
                    &&& rest[j].1.established
                };
            assert(n[j].1.rid == rid);
        } else {
            if all.contains(rid) {
                let k = choose|k: int| 0 <= k < all.len() && all[k] == rid;
                if k < before.len() {
                    assert(before[k] == rid);
                }
                assert(n[m].1.rid == rid);
            }
            if exists|j: int|
                {
                    &&& 0 <= j < n.len()
                    &&& (#[trigger] n[j]).1.rid == rid
                    &&& n[j].1.area == area
                    &&& n[j].1.ifindex == id
                    &&& n[j].1.established
                } {
                let j = choose|j: int|
                    {
                        &&& 0 <= j < n.len()
                        &&& (#[trigger] n[j]).1.rid == rid
                        &&& n[j].1.area == area
                        &&& n[j].1.ifindex == id
                        &&& n[j].1.established
                    };
                if j < m {
                    assert(rest[j].1.rid == rid);
                }
                assert(all[all.len() - 1] == rid);
            }
        }
    }
}

/// The prefixes of an interface go with the Router-LSA of its area exactly if
/// no transit link describes it; then its segment's DR advertises them.
pub proof fn prefixes_go_with_the_router_or_the_segment(
    ifs: Seq<Ospf3Interface>,
    i: Ospf3Interface,
    transit: Seq<u32>,
    area: u32,
)
    ensures
        router_prefixes(Seq::empty(), transit, area) == Seq::<V6Prefix>::empty(),
        i.core.area == area && !transit.contains(i.core.interface_id) ==> router_prefixes(
            ifs.push(i),
            transit,
            area,
        ) == router_prefixes(ifs, transit, area) + i.prefixes@,
        i.core.area != area || transit.contains(i.core.interface_id) ==> router_prefixes(
            ifs.push(i),
            transit,
            area,
        ) == router_prefixes(ifs, transit, area),
{
    assert(ifs.push(i).drop_last() =~= ifs);
}

/// An interface counts as described by a transit link exactly if it has one.
pub proof fn described_interfaces_have_a_transit_link(
    ifs: Seq<If3Model>,
    i: If3Model,
    n: Entries<Neighbor>,
    area: u32,
    our_rid: u32,
)
    ensures
        reported(Seq::empty(), n, area, our_rid) == Seq::<u32>::empty(),
        ({
            let links = links3_of(i, full3(n, area, i.core.interface_id), our_rid);
            reported(ifs.push(i), n, area, our_rid) == (if i.core.area == area && links.len() > 0
                && links[0].link_type == LinkType::Transit {
                reported(ifs, n, area, our_rid).push(i.core.interface_id)
            } else {
                reported(ifs, n, area, our_rid)
            })
        }),
{
    assert(ifs.push(i).drop_last() =~= ifs);
}

/// The Network-LSA of a segment: its DR originates it if it has an adjacency,
/// for its own interface, with itself and every adjacent neighbor, after the
/// newest instance known. Who is no longer DR flushes what it holds. Everyone
/// else keeps still.
pub proof fn network_lsas_list_the_segment(
    i: If3Model,
    place: int,
    full: Seq<u32>,
    our_rid: u32,
    options: u32,
    seqs: Entries<u32>,
    links: Entries<LinkBody>,
)
    requires
        0 <= place <= usize::MAX,
    ensures
        ({
            let q = network_request(i, place, full, our_rid, options, seqs, links);
            let reigns = i.core.network_type == NetworkType::Broadcast && i.core.if_state
                == IfState::Dr && i.core.dr == our_rid && full.len() > 0;
            let former = i.core.network_type == NetworkType::Broadcast && !reigns
                && i.core.net_lsa_active;
            &&& q is Some <==> reigns || former
            &&& reigns ==> {
                let r = q->0;
                let held = get(seqs, pair_key(SLOT_NETWORK, i.core.interface_id));
                &&& r.kind matches RequestKind::Network { place: p, interface_id, .. } && p == place
                    && interface_id == i.core.interface_id
                &&& r.routers.len() == full.len() + 1
                &&& r.routers[0] == our_rid
                &&& forall|j: int|
                    0 <= j < full.len() ==> r.routers[j + 1] == #[trigger] full[j]
                &&& r.prev == i.core.net_lsa_seq || r.prev == held
                &&& held is Some ==> r.prev is Some && signed_sequence(r.prev->0)
                    >= signed_sequence(held->0)
                &&& i.core.net_lsa_seq is Some ==> r.prev is Some && signed_sequence(r.prev->0)
                    >= signed_sequence(i.core.net_lsa_seq->0)
            }
            &&& former && i.core.net_lsa_seq is Some ==> {
                &&& q->0.kind == RequestKind::NetworkFlush {
                    place: place as usize,
                    interface_id: i.core.interface_id,
                }
                &&& q->0.prev == i.core.net_lsa_seq
                &&& q->0.routers == seq![our_rid]
            }
            &&& former && i.core.net_lsa_seq is None ==> q->0.kind == RequestKind::NetworkForget {
                place: place as usize,
            }
        }),
{
}

/// The options of a Network-LSA hold this router's own, and those of the
/// Link-LSA of every adjacent neighbor that is heard, and no other bit.
pub proof fn network_options_are_united(
    start: u32,
    heard: Entries<Heard3>,
    full: Seq<u32>,
    links: Entries<LinkBody>,
    rid: u32,
)
    ensures
        merged_options(start, heard, Seq::empty(), links) == start,
        ({
            let before = merged_options(start, heard, full, links);
            let h = get(heard, rid as u64);
            let b = get(links, pair_key(h->0.interface_id, rid));
            merged_options(start, heard, full.push(rid), links) == (if h is Some && b is Some {
                before | b->0.options
            } else {
                before
            })
        }),
{
    assert(full.push(rid).drop_last() =~= full);
}

/// An address is link-local exactly if it is in `fe80::/10`.
pub proof fn link_local_is_fe80(addr: u128)
    ensures
        is_link_local(addr) <==> 0xfe80_0000_0000_0000_0000_0000_0000_0000u128 <= addr
            <= 0xfebf_ffff_ffff_ffff_ffff_ffff_ffff_ffffu128,
{
}

/// A prefix is withheld exactly if it is link-local or marked as no-unicast or
/// as a local address.
pub proof fn withheld_prefixes_are_local(p: V6Prefix)
    ensures
        withheld(p) <==> is_link_local(p.addr) || p.options & 1 != 0 || p.options & 2 != 0,
{
    let o = p.options;
    assert(o & (1u8 | 2u8) != 0 <==> o & 1u8 != 0 || o & 2u8 != 0) by (bit_vector);
}

proof fn ranks_split(s: Seq<V6Prefix>, p: V6Prefix)
    ensures
        prefix_rank(s, p) <= s.len(),
        forall|j: int| 0 <= j < prefix_rank(s, p) ==> prefix_before(#[trigger] s[j], p),
        prefix_rank(s, p) < s.len() ==> !prefix_before(s[prefix_rank(s, p) as int], p),
    decreases s.len(),
{
    if s.len() > 0 && prefix_before(s[0], p) {
        let t = s.subrange(1, s.len() as int);
        ranks_split(t, p);
        assert forall|j: int| 0 <= j < prefix_rank(s, p) implies prefix_before(
            #[trigger] s[j],
            p,
        ) by {
            if j > 0 {
                assert(t[j - 1] == s[j]);
            }
        }
    }
}

/// Whether a prefix is listed, with at least these options.
pub open spec fn lists_prefix(s: Seq<V6Prefix>, p: V6Prefix) -> bool {
    exists|j: int|
        0 <= j < s.len() && (#[trigger] s[j]).addr == p.addr && s[j].len == p.len && s[j].options
            & p.options == p.options
}

/// Merging a prefix into a segment's lists it, with its options, unless it is
/// withheld; keeps every prefix listed before; and lists nothing else.
pub proof fn merging_lists_the_prefix(s: Seq<V6Prefix>, p: V6Prefix, q: V6Prefix)
    ensures
        !withheld(p) ==> lists_prefix(merge_prefix(s, p), p),
        withheld(p) ==> merge_prefix(s, p) == s,
        lists_prefix(s, q) ==> lists_prefix(merge_prefix(s, p), q),
        forall|j: int|
            0 <= j < merge_prefix(s, p).len() ==> {
                let m = #[trigger] merge_prefix(s, p)[j];
                ||| m.addr == p.addr && m.len == p.len
                ||| s.contains(m)
            },
{
    let r = prefix_rank(s, p) as int;
    let t = merge_prefix(s, p);
    ranks_split(s, p);
    let o = p.options;
    assert(o & o == o) by (bit_vector);
    if !withheld(p) {
        let joins = r < s.len() && s[r].len == p.len && s[r].addr == p.addr;
        if joins {
            let b = s[r].options;
            assert((b | o) & o == o) by (bit_vector);
            assert(t[r].options & o == o);
        } else {
            assert(t[r] == p);
        }
        assert(lists_prefix(t, p));
        if lists_prefix(s, q) {
            let j = choose|j: int|
                0 <= j < s.len() && (#[trigger] s[j]).addr == q.addr && s[j].len == q.len
                    && s[j].options & q.options == q.options;
            if joins {
                if j == r {
                    let b = s[r].options;
                    let w = q.options;
                    assert(b & w == w ==> (b | o) & w == w) by (bit_vector);
                }
                assert(t[j].addr == q.addr);
            } else if j < r {
                assert(t[j] == s[j]);
            } else {
                assert(t[j + 1] == s[j]);
            }
        }
        assert forall|j: int| 0 <= j < t.len() implies {
            let m = #[trigger] t[j];
            ||| m.addr == p.addr && m.len == p.len
            ||| s.contains(m)
        } by {
            if joins {
                if j != r {
                    assert(s[j] == t[j]);
                }
            } else if j < r {
                assert(s[j] == t[j]);
            } else if j > r {
                assert(s[j - 1] == t[j]);
            }
        }
    } else {
        assert forall|j: int| 0 <= j < t.len() implies {
            let m = #[trigger] t[j];
            ||| m.addr == p.addr && m.len == p.len
            ||| s.contains(m)
        } by {
            assert(s[j] == t[j]);
        }
    }
}

/// A list is merged prefix by prefix, in its order.
pub proof fn lists_are_merged_in_order(s: Seq<V6Prefix>, list: Seq<V6Prefix>, p: V6Prefix)
    ensures
        merge_prefixes(s, Seq::empty()) == s,
        merge_prefixes(s, list.push(p)) == merge_prefix(merge_prefixes(s, list), p),
{
    assert(list.push(p).drop_last() =~= list);
}

/// A segment's prefixes are this router's and those in the Link-LSA of every
/// adjacent neighbor that is heard, and no other's.
pub proof fn segments_gather_their_prefixes(
    start: Seq<V6Prefix>,
    heard: Entries<Heard3>,
    full: Seq<u32>,
    links: Entries<LinkBody>,
    rid: u32,
)
    ensures
        segment_prefixes(start, heard, Seq::empty(), links) == start,
        ({
            let before = segment_prefixes(start, heard, full, links);
            let h = get(heard, rid as u64);
            let b = get(links, pair_key(h->0.interface_id, rid));
            segment_prefixes(start, heard, full.push(rid), links) == (if h is Some && b is Some {
                merge_prefixes(before, b->0.prefixes@)
            } else {
                before
            })
        }),
{
    assert(full.push(rid).drop_last() =~= full);
}

/// A segment's Intra-Area-Prefix-LSA has an id of its own: that of the interface
/// with the highest bit set, so never that of the router's own prefixes.
pub proof fn segment_ids_are_their_own(a: u32, b: u32)
    ensures
        a < 0x8000_0000 ==> segment_lsid(a) == a + 0x8000_0000,
        segment_lsid(a) >= 0x8000_0000,
        segment_lsid(a) != 1,
        a < 0x8000_0000 && b < 0x8000_0000 && a != b ==> segment_lsid(a) != segment_lsid(b),
{
    assert(a < 0x8000_0000 ==> (a | 0x8000_0000) - 0x8000_0000 == a) by (bit_vector);
    assert(b < 0x8000_0000 ==> (b | 0x8000_0000) - 0x8000_0000 == b) by (bit_vector);
    assert(a | 0x8000_0000 >= 0x8000_0000) by (bit_vector);
}

/// The Intra-Area-Prefix-LSA of a segment: its DR advertises the segment's
/// prefixes, its own first and without those withheld, if it has an adjacency;
/// who is no longer DR flushes what it holds; everyone else keeps still.
pub proof fn segment_prefixes_are_the_drs(
    i: Ospf3Interface,
    place: int,
    full: Seq<u32>,
    area: u32,
    our_rid: u32,
    own: Entries<u32>,
    seqs: Entries<u32>,
    links: Entries<LinkBody>,
)
    requires
        0 <= place <= usize::MAX,
    ensures
        ({
            let q = prefix_request(i, place, full, area, our_rid, own, seqs, links);
            let c = i.core;
            let id = segment_lsid(c.interface_id);
            let reigns = c.network_type == NetworkType::Broadcast && c.if_state == IfState::Dr
                && c.dr == our_rid && full.len() > 0;
            let former = c.network_type == NetworkType::Broadcast && !reigns && c.net_iap_active;
            &&& q is Some <==> reigns || former
            &&& reigns ==> {
                let r = q->0;
                let held = get(seqs, pair_key(SLOT_PREFIX, id));
                let made = get(own, pair_key(area, id));
                &&& r.kind == RequestKind::Prefixes {
                    place: place as usize,
                    interface_id: c.interface_id,
                    ls_id: id,
                }
                &&& r.prefixes == segment_prefixes(
                    merge_prefixes(Seq::empty(), i.prefixes@),
                    i.heard@,
                    full,
                    links,
                )
                &&& r.prev == made || r.prev == held
                &&& held is Some ==> r.prev is Some && signed_sequence(r.prev->0)
                    >= signed_sequence(held->0)
                &&& made is Some ==> r.prev is Some && signed_sequence(r.prev->0)
                    >= signed_sequence(made->0)
            }
            &&& former && c.net_iap_seq is Some ==> q->0.kind == RequestKind::PrefixesFlush {
                place: place as usize,
                interface_id: c.interface_id,
                ls_id: id,
            } && q->0.prev == c.net_iap_seq
            &&& former && c.net_iap_seq is None ==> q->0.kind == RequestKind::PrefixesForget {
                place: place as usize,
            }
        }),
{
}

/// Every interface of an area has its Link-LSA, with the interface's prefixes,
/// after the newest instance known; interfaces of other areas have none.
pub proof fn interfaces_have_their_link_lsa(
    ifs: Seq<Ospf3Interface>,
    i: Ospf3Interface,
    area: u32,
    own: Entries<u32>,
    lsdb: Entries<u32>,
)
    requires
        ifs.len() <= usize::MAX,
    ensures
        link_requests(Seq::empty(), area, own, lsdb) == Seq::<RequestModel>::empty(),
        i.core.area != area ==> link_requests(ifs.push(i), area, own, lsdb) == link_requests(
            ifs,
            area,
            own,
            lsdb,
        ),
        i.core.area == area ==> {
            let all = link_requests(ifs.push(i), area, own, lsdb);
            let r = all.last();
            let made = get(own, pair_key(area, i.core.interface_id));
            let held = get(lsdb, pair_key(SLOT_LINK, i.core.interface_id));
            &&& all.drop_last() == link_requests(ifs, area, own, lsdb)
            &&& all.len() == link_requests(ifs, area, own, lsdb).len() + 1
            &&& r.kind == RequestKind::Link {
                place: ifs.len() as usize,
                interface_id: i.core.interface_id,
            }
            &&& r.prefixes == i.prefixes@
            &&& r.routers.len() == 0
            &&& r.prev == made || r.prev == held
            &&& held is Some ==> r.prev is Some && signed_sequence(r.prev->0) >= signed_sequence(
                held->0,
            )
            &&& made is Some ==> r.prev is Some && signed_sequence(r.prev->0) >= signed_sequence(
                made->0,
            )
        },
{
    assert(ifs.push(i).drop_last() =~= ifs);
    if i.core.area == area {
        assert(link_requests(ifs.push(i), area, own, lsdb).drop_last() =~= link_requests(
            ifs,
            area,
            own,
            lsdb,
        ));
    }
}

/// Network-LSAs and segment prefixes are asked for interface by interface, for
/// the interfaces of the area only, each with its own adjacencies.
pub proof fn segments_are_asked_in_turn(
    ifs: Seq<Ospf3Interface>,
    i: Ospf3Interface,
    ms: Seq<If3Model>,
    m: If3Model,
    n: Entries<Neighbor>,
    area: u32,
    our_rid: u32,
    options: u32,
    own: Entries<u32>,
    seqs: Entries<u32>,
    links: Entries<LinkBody>,
)
    ensures
        ({
            let before = network_requests(ms, n, area, our_rid, options, seqs, links);
            let q = network_request(
                m,
                ms.len() as int,
                full3(n, area, m.core.interface_id),
                our_rid,
                options,
                seqs,
                links,
            );
            network_requests(ms.push(m), n, area, our_rid, options, seqs, links) == (if m.core.area
                == area && q is Some {
                before.push(q->0)
            } else {
                before
            })
        }),
        ({
            let before = prefix_requests(ifs, n, area, our_rid, own, seqs, links);
            let q = prefix_request(
                i,
                ifs.len() as int,
                full3(n, area, i.core.interface_id),
                area,
                our_rid,
                own,
                seqs,
                links,
            );
            prefix_requests(ifs.push(i), n, area, our_rid, own, seqs, links) == (if i.core.area
                == area && q is Some {
                before.push(q->0)
            } else {
                before
            })
        }),
{
    assert(ifs.push(i).drop_last() =~= ifs);
    assert(ms.push(m).drop_last() =~= ms);
}

proof fn end_x_ascends(ifs: Seq<If3Model>)
    ensures
        ascending(end_x_table(ifs)),
    decreases ifs.len(),
{
    if ifs.len() > 0 {
        end_x_ascends(ifs.drop_last());
        if ifs.last().core.end_x_sid is Some {
            put_keeps_order(
                end_x_table(ifs.drop_last()),
                ifs.last().core.interface_id as u64,
                ifs.last().core.end_x_sid->0,
            );
        }
    }
}

/// An interface with an adjacency SID has it in the table under its own id, and
/// one without changes nothing.
pub proof fn adjacency_sids_are_found(ifs: Seq<If3Model>, i: If3Model, id: u32)
    ensures
        get(end_x_table(ifs.push(i)), id as u64) == (if i.core.end_x_sid is Some
            && i.core.interface_id == id {
            i.core.end_x_sid
        } else {
            get(end_x_table(ifs), id as u64)
        }),
{
    assert(ifs.push(i).drop_last() =~= ifs);
    end_x_ascends(ifs);
    if i.core.end_x_sid is Some {
        put_then_get(
            end_x_table(ifs),
            i.core.interface_id as u64,
            i.core.end_x_sid->0,
            id as u64,
        );
    }
}

/// The neighbors other than the DR are all but the DR, in their order.
pub proof fn others_are_all_but_the_dr(full: Seq<u32>, dr: u32, rid: u32)
    ensures
        others(full, dr) == full.filter(|r: u32| r != dr),
        others(full, dr).contains(rid) <==> full.contains(rid) && rid != dr,
    decreases full.len(),
{
    reveal(Seq::filter);
    if full.len() > 0 {
        others_are_all_but_the_dr(full.drop_last(), dr, rid);
        let rest = full.drop_last();
        let a = others(rest, dr);
        let b = others(full, dr);
        assert(full =~= rest.push(full.last()));
        if full.contains(rid) && rid != dr {
            if rest.contains(rid) {
                let k = choose|k: int| 0 <= k < a.len() && a[k] == rid;
                assert(b[k] == rid);
            } else {
                let k = choose|k: int| 0 <= k < full.len() && full[k] == rid;
                if k < rest.len() {
                    assert(rest[k] == rid);
                }
                assert(b[b.len() - 1] == rid);
            }
        }
        if b.contains(rid) {
            let k = choose|k: int| 0 <= k < b.len() && b[k] == rid;
            if k < a.len() {
                assert(a[k] == rid);
                let j = choose|j: int| 0 <= j < rest.len() && rest[j] == rid;
                assert(full[j] == rid);
            } else {
                assert(full[full.len() - 1] == rid);
            }
        }
    }
}

/// The adjacency SIDs of a broadcast interface: the SID of the adjacency to the
/// DR is only that of a router that is not the DR and is adjacent to it; the
/// others get theirs from the base.
pub proof fn lan_sids_are_the_adjacencies(c: If3Core, full: Seq<u32>, our_rid: u32)
    ensures
        ({
            let reigns = c.if_state == IfState::Dr && c.dr == our_rid;
            let to_dr = !reigns && c.dr != 0 && full.contains(c.dr);
            match lan_of(c, full, our_rid) {
                Some(m) => {
                    &&& to_dr ==> m.dr_sid == c.end_x_sid
                    &&& !to_dr ==> m.dr_sid is None
                    &&& m.base == c.end_x_lan
                    &&& m.neighbors == full.filter(|r: u32| r != c.dr)
                },
                None => (!to_dr || c.end_x_sid is None) && (c.end_x_lan is None || forall|j: int|
                    0 <= j < full.len() ==> #[trigger] full[j] == c.dr),
            }
        }),
{
    others_are_all_but_the_dr(full, c.dr, 0);
    if lan_of(c, full, our_rid) is None && c.end_x_lan is Some {
        assert forall|j: int| 0 <= j < full.len() implies #[trigger] full[j] == c.dr by {
            others_are_all_but_the_dr(full, c.dr, full[j]);
            assert(full.contains(full[j]));
            if full[j] != c.dr {
                assert(others(full, c.dr).contains(full[j]));
            }
        }
    }
}

/// A plan is that of the area: its links, prefixes and requests come from the
/// daemon's interfaces and neighbors, its bits from the database, and its
/// numbers go on after the newest that the daemon or the database knows.
pub proof fn plans_are_the_areas(d: Ospf3Daemon, area: u32, lsdb: Lsdb, p: Area3Plan)
    requires
        plan3_of(d, area, lsdb, p),
    ensures
        p.asbr == lsdb.asbr,
        p.border == lsdb.border,
        p.links@ == area3_links(models3(d.interfaces@), d.neighbors@, area, d.core.router_id),
        p.prefixes@ == router_prefixes(
            d.interfaces@,
            reported(models3(d.interfaces@), d.neighbors@, area, d.core.router_id),
            area,
        ),
        ({
            let made = get(d.seqs.router@, area as u64);
            let held = get(lsdb.seqs@, pair_key(SLOT_ROUTER, 0));
            &&& p.router_prev == made || p.router_prev == held
            &&& made is Some ==> p.router_prev is Some && signed_sequence(p.router_prev->0)
                >= signed_sequence(made->0)
            &&& held is Some ==> p.router_prev is Some && signed_sequence(p.router_prev->0)
                >= signed_sequence(held->0)
        }),
        ({
            let made = get(d.seqs.iap@, pair_key(area, 1));
            let held = get(lsdb.seqs@, pair_key(SLOT_PREFIX, 1));
            &&& p.prefixes_prev == made || p.prefixes_prev == held
            &&& made is Some ==> p.prefixes_prev is Some && signed_sequence(p.prefixes_prev->0)
                >= signed_sequence(made->0)
            &&& held is Some ==> p.prefixes_prev is Some && signed_sequence(p.prefixes_prev->0)
                >= signed_sequence(held->0)
        }),
        request_views(p.segment@) == link_requests(
            d.interfaces@,
            area,
            d.seqs.link@,
            lsdb.seqs@,
        ) + network_requests(
            models3(d.interfaces@),
            d.neighbors@,
            area,
            d.core.router_id,
            d.core.default_options,
            lsdb.seqs@,
            lsdb.links@,
        ),
        p.end_x@ == end_x_table(models3(d.interfaces@)),
        request_views(p.rest@) == rest_requests(d, area, lsdb),
{
}

/// Behind the segments' prefixes stand the SRv6 LSAs exactly if SRv6 is on, and
/// before them the companion exactly if there are adjacency SIDs that the
/// Router-LSA cannot carry.
pub proof fn the_rest_is_the_companion_and_srv6(d: Ospf3Daemon, area: u32, lsdb: Lsdb)
    ensures
        ({
            let ms = models3(d.interfaces@);
            let our = d.core.router_id;
            let q = rest_requests(d, area, lsdb);
            let middle = prefix_requests(
                d.interfaces@,
                d.neighbors@,
                area,
                our,
                d.seqs.iap@,
                lsdb.seqs@,
                lsdb.links@,
            );
            let companion = !d.core.extended_lsas && (end_x_table(ms).len() > 0 || lan_table(
                ms,
                d.neighbors@,
                area,
                our,
            ).len() > 0);
            let a = if companion {
                1int
            } else {
                0
            };
            let b = if d.core.srv6 {
                2int
            } else {
                0
            };
            &&& q.len() == a + middle.len() + b
            &&& companion ==> q[0].kind == RequestKind::Companion && q[0].prev == newer(
                get(d.seqs.e_router@, area as u64),
                get(lsdb.seqs@, pair_key(SLOT_COMPANION, 0)),
            )
            &&& q.subrange(a, a + middle.len()) == middle
            &&& d.core.srv6 ==> {
                let i = q[q.len() - 2];
                let l = q[q.len() - 1];
                &&& i.kind == RequestKind::Srv6Info
                &&& l.kind == RequestKind::Srv6Locators
                &&& i.prev == newer(
                    get(d.seqs.ri@, area as u64),
                    get(lsdb.seqs@, pair_key(SLOT_SRV6_INFO, 0)),
                )
                &&& l.prev == newer(
                    get(d.seqs.srv6@, area as u64),
                    get(lsdb.seqs@, pair_key(SLOT_SRV6_LOCATORS, 1)),
                )
            }
        }),
{
    let ms = models3(d.interfaces@);
    let our = d.core.router_id;
    let q = rest_requests(d, area, lsdb);
    let middle = prefix_requests(
        d.interfaces@,
        d.neighbors@,
        area,
        our,
        d.seqs.iap@,
        lsdb.seqs@,
        lsdb.links@,
    );
    let companion = !d.core.extended_lsas && (end_x_table(ms).len() > 0 || lan_table(
        ms,
        d.neighbors@,
        area,
        our,
    ).len() > 0);
    let a = if companion {
        1int
    } else {
        0
    };
    assert(q.subrange(a, a + middle.len()) =~= middle);
}

/// Each of the daemon's LSAs has a slot of its own.
pub proof fn slots_are_distinct()
    ensures
        SLOT_LINK != SLOT_NETWORK && SLOT_LINK != SLOT_ROUTER && SLOT_LINK != SLOT_PREFIX
            && SLOT_LINK != SLOT_COMPANION && SLOT_LINK != SLOT_SRV6_INFO && SLOT_LINK
            != SLOT_SRV6_LOCATORS,
        SLOT_NETWORK != SLOT_ROUTER && SLOT_NETWORK != SLOT_PREFIX && SLOT_NETWORK
            != SLOT_COMPANION && SLOT_NETWORK != SLOT_SRV6_INFO && SLOT_NETWORK
            != SLOT_SRV6_LOCATORS,
        SLOT_ROUTER != SLOT_PREFIX && SLOT_ROUTER != SLOT_COMPANION && SLOT_ROUTER
            != SLOT_SRV6_INFO && SLOT_ROUTER != SLOT_SRV6_LOCATORS,
        SLOT_PREFIX != SLOT_COMPANION && SLOT_PREFIX != SLOT_SRV6_INFO && SLOT_PREFIX
            != SLOT_SRV6_LOCATORS,
        SLOT_COMPANION != SLOT_SRV6_INFO && SLOT_COMPANION != SLOT_SRV6_LOCATORS && SLOT_SRV6_INFO
            != SLOT_SRV6_LOCATORS,
{
}

/// What was made is remembered where the next origination looks for it, and
/// nowhere else; what was not made changes nothing but a flush.
pub proof fn originations_are_remembered(
    r: Recorded,
    area: u32,
    kind: RequestKind,
    made: Option<u32>,
    key: u64,
)
    requires
        ascending(r.link) && ascending(r.iap) && ascending(r.e_router) && ascending(r.ri)
            && ascending(r.srv6),
    ensures
        ({
            let q = record_one(r, area, kind, made);
            &&& get(q.link, key) == (if kind is Link && made is Some && key == pair_key(
                area,
                kind->Link_interface_id,
            ) {
                made
            } else {
                get(r.link, key)
            })
            &&& get(q.iap, key) == (if kind is Prefixes && made is Some && key == pair_key(
                area,
                kind->Prefixes_ls_id,
            ) {
                made
            } else {
                get(r.iap, key)
            })
            &&& get(q.e_router, key) == (if kind is Companion && made is Some && key
                == area as u64 {
                made
            } else {
                get(r.e_router, key)
            })
            &&& get(q.ri, key) == (if kind is Srv6Info && made is Some && key == area as u64 {
                made
            } else {
                get(r.ri, key)
            })
            &&& get(q.srv6, key) == (if kind is Srv6Locators && made is Some && key
                == area as u64 {
                made
            } else {
                get(r.srv6, key)
            })
        }),
{
    if made is Some {
        let s = made->0;
        match kind {
            RequestKind::Link { place: _, interface_id } => {
                put_then_get(r.link, pair_key(area, interface_id), s, key);
            },
            RequestKind::Prefixes { place: _, interface_id: _, ls_id } => {
                put_then_get(r.iap, pair_key(area, ls_id), s, key);
            },
            RequestKind::Companion => {
                put_then_get(r.e_router, area as u64, s, key);
            },
            RequestKind::Srv6Info => {
                put_then_get(r.ri, area as u64, s, key);
            },
            RequestKind::Srv6Locators => {
                put_then_get(r.srv6, area as u64, s, key);
            },
            _ => {},
        }
    }
}

/// A segment's interface remembers its Network-LSA and its prefixes, each by
/// itself: the number it was made with, or that it is gone once it was flushed.
/// Other interfaces stay as they were.
pub proof fn segments_remember_their_lsas(
    r: Recorded,
    area: u32,
    kind: RequestKind,
    made: Option<u32>,
    j: int,
)
    requires
        0 <= j < r.ifs.len(),
        place_ok(kind, r.ifs.len()),
    ensures
        ({
            let c = r.ifs[j].core;
            let e = record_one(r, area, kind, made).ifs[j].core;
            &&& (kind matches RequestKind::Network { place, .. } && place == j) && made is Some
                ==> e == If3Core { net_lsa_seq: made, net_lsa_active: true, ..c }
            &&& (kind matches RequestKind::NetworkFlush { place, .. } && place == j) || (
            kind matches RequestKind::NetworkForget { place } && place == j) ==> e == If3Core {
                net_lsa_seq: None,
                net_lsa_active: false,
                ..c
            }
            &&& (kind matches RequestKind::Prefixes { place, .. } && place == j) && made is Some
                ==> e == If3Core { net_iap_seq: made, net_iap_active: true, ..c }
            &&& (kind matches RequestKind::PrefixesFlush { place, .. } && place == j) || (
            kind matches RequestKind::PrefixesForget { place } && place == j) ==> e == If3Core {
                net_iap_seq: None,
                net_iap_active: false,
                ..c
            }
            &&& kind is Link || kind is Companion || kind is Srv6Info || kind is Srv6Locators
                ==> e == c
            &&& (kind matches RequestKind::Network { place, .. } && place != j) ==> e == c
        }),
{
}

} // verus!
