//! The converted configuration: what a BIRD or FRR file is read into, and what
//! is rendered as daemon TOML.

use crate::text::{no_items, opt_view, own, views};
use vstd::prelude::*;

verus! {

/// One `lr:` comment directive: its key in snake case, and its value.
pub struct LrDirective {
    pub key: String,
    pub value: Option<String>,
}

/// The text of a directive.
pub struct DirectiveModel {
    pub key: Seq<char>,
    pub value: Option<Seq<char>>,
}

impl View for LrDirective {
    type V = DirectiveModel;

    open spec fn view(&self) -> DirectiveModel {
        DirectiveModel { key: self.key@, value: opt_view(self.value) }
    }
}

/// One peer extracted from the source configuration.
pub struct PeerOut {
    pub name: Option<String>,
    pub remote: Option<String>,
    /// The port to connect to; joins `remote` when rendered.
    pub remote_port: Option<String>,
    pub peer_as: Option<u32>,
    pub local_address: Option<String>,
    pub md5_key: Option<String>,
    pub hold_time: Option<u32>,
    pub bfd: Option<bool>,
    pub default_ipv4_unicast: Option<bool>,
    /// Route-maps.
    pub import: Option<String>,
    pub export: Option<String>,
    /// Filters.
    pub import_filter: Option<String>,
    pub export_filter: Option<String>,
    /// Families beyond the implicit one.
    pub families: Vec<String>,
    /// BIRD channels seen.
    pub channel_v4: bool,
    pub channel_v6: bool,
    pub tcp_ao_keys: Vec<String>,
    /// Directives scoped to this peer.
    pub ext: Vec<LrDirective>,
    /// Source lines with no equivalent.
    pub unmapped: Vec<String>,
}

/// The text of a peer.
#[verifier::ext_equal]
pub struct PeerModel {
    pub name: Option<Seq<char>>,
    pub remote: Option<Seq<char>>,
    pub remote_port: Option<Seq<char>>,
    pub peer_as: Option<u32>,
    pub local_address: Option<Seq<char>>,
    pub md5_key: Option<Seq<char>>,
    pub hold_time: Option<u32>,
    pub bfd: Option<bool>,
    pub default_ipv4_unicast: Option<bool>,
    pub import: Option<Seq<char>>,
    pub export: Option<Seq<char>>,
    pub import_filter: Option<Seq<char>>,
    pub export_filter: Option<Seq<char>>,
    pub families: Seq<Seq<char>>,
    pub channel_v4: bool,
    pub channel_v6: bool,
    pub tcp_ao_keys: Seq<Seq<char>>,
    pub ext: Seq<DirectiveModel>,
    pub unmapped: Seq<Seq<char>>,
}

impl View for PeerOut {
    type V = PeerModel;

    open spec fn view(&self) -> PeerModel {
        PeerModel {
            name: opt_view(self.name),
            remote: opt_view(self.remote),
            remote_port: opt_view(self.remote_port),
            peer_as: self.peer_as,
            local_address: opt_view(self.local_address),
            md5_key: opt_view(self.md5_key),
            hold_time: self.hold_time,
            bfd: self.bfd,
            default_ipv4_unicast: self.default_ipv4_unicast,
            import: opt_view(self.import),
            export: opt_view(self.export),
            import_filter: opt_view(self.import_filter),
            export_filter: opt_view(self.export_filter),
            families: views(self.families@),
            channel_v4: self.channel_v4,
            channel_v6: self.channel_v6,
            tcp_ao_keys: views(self.tcp_ao_keys@),
            ext: views(self.ext@),
            unmapped: views(self.unmapped@),
        }
    }
}

/// A peer of which nothing is known.
pub open spec fn blank_peer() -> PeerModel {
    PeerModel {
        name: None,
        remote: None,
        remote_port: None,
        peer_as: None,
        local_address: None,
        md5_key: None,
        hold_time: None,
        bfd: None,
        default_ipv4_unicast: None,
        import: None,
        export: None,
        import_filter: None,
        export_filter: None,
        families: Seq::empty(),
        channel_v4: false,
        channel_v6: false,
        tcp_ao_keys: Seq::empty(),
        ext: Seq::empty(),
        unmapped: Seq::empty(),
    }
}

impl Default for PeerOut {
    fn default() -> (p: PeerOut)
        ensures
            p@ == blank_peer(),
    {
        PeerOut {
            name: None,
            remote: None,
            remote_port: None,
            peer_as: None,
            local_address: None,
            md5_key: None,
            hold_time: None,
            bfd: None,
            default_ipv4_unicast: None,
            import: None,
            export: None,
            import_filter: None,
            export_filter: None,
            families: no_items(),
            channel_v4: false,
            channel_v6: false,
            tcp_ao_keys: no_items(),
            ext: no_items(),
            unmapped: no_items(),
        }
    }
}

/// The peer with one more unmapped line.
pub open spec fn with_note(p: PeerModel, note: Seq<char>) -> PeerModel {
    PeerModel { unmapped: p.unmapped.push(note), ..p }
}

/// One prefix-list entry.
pub struct PrefixListRow {
    pub name: String,
    pub seq: u32,
    pub permit: bool,
    pub prefix: String,
    pub ge: Option<u8>,
    pub le: Option<u8>,
}

/// The text of a prefix-list entry.
pub struct PrefixListModel {
    pub name: Seq<char>,
    pub seq: u32,
    pub permit: bool,
    pub prefix: Seq<char>,
    pub ge: Option<u8>,
    pub le: Option<u8>,
}

impl View for PrefixListRow {
    type V = PrefixListModel;

    open spec fn view(&self) -> PrefixListModel {
        PrefixListModel {
            name: self.name@,
            seq: self.seq,
            permit: self.permit,
            prefix: self.prefix@,
            ge: self.ge,
            le: self.le,
        }
    }
}

/// One route-map entry.
pub struct RouteMapRow {
    pub name: String,
    pub entry: u32,
    pub permit: bool,
    pub match_prefix: Option<String>,
    pub match_as_path: Option<String>,
    pub match_community: Option<String>,
    pub set_local_pref: Option<u32>,
    pub set_med: Option<u32>,
    pub set_next_hop: Option<String>,
    pub prepend: Option<String>,
    pub add_community: Option<String>,
    pub unmapped: Vec<String>,
}

/// The text of a route-map entry.
#[verifier::ext_equal]
pub struct RouteMapModel {
    pub name: Seq<char>,
    pub entry: u32,
    pub permit: bool,
    pub match_prefix: Option<Seq<char>>,
    pub match_as_path: Option<Seq<char>>,
    pub match_community: Option<Seq<char>>,
    pub set_local_pref: Option<u32>,
    pub set_med: Option<u32>,
    pub set_next_hop: Option<Seq<char>>,
    pub prepend: Option<Seq<char>>,
    pub add_community: Option<Seq<char>>,
    pub unmapped: Seq<Seq<char>>,
}

impl View for RouteMapRow {
    type V = RouteMapModel;

    open spec fn view(&self) -> RouteMapModel {
        RouteMapModel {
            name: self.name@,
            entry: self.entry,
            permit: self.permit,
            match_prefix: opt_view(self.match_prefix),
            match_as_path: opt_view(self.match_as_path),
            match_community: opt_view(self.match_community),
            set_local_pref: self.set_local_pref,
            set_med: self.set_med,
            set_next_hop: opt_view(self.set_next_hop),
            prepend: opt_view(self.prepend),
            add_community: opt_view(self.add_community),
            unmapped: views(self.unmapped@),
        }
    }
}

/// An entry without clauses.
pub open spec fn bare_entry(name: Seq<char>, entry: u32, permit: bool) -> RouteMapModel {
    RouteMapModel {
        name,
        entry,
        permit,
        match_prefix: None,
        match_as_path: None,
        match_community: None,
        set_local_pref: None,
        set_med: None,
        set_next_hop: None,
        prepend: None,
        add_community: None,
        unmapped: Seq::empty(),
    }
}

impl RouteMapRow {
    /// An entry without clauses.
    pub fn new(name: &str, entry: u32, permit: bool) -> (r: RouteMapRow)
        ensures
            r@ == bare_entry(name@, entry, permit),
    {
        RouteMapRow {
            name: own(name),
            entry,
            permit,
            match_prefix: None,
            match_as_path: None,
            match_community: None,
            set_local_pref: None,
            set_med: None,
            set_next_hop: None,
            prepend: None,
            add_community: None,
            unmapped: no_items(),
        }
    }
}

/// One AS-path list entry.
pub struct AsPathListRow {
    pub name: String,
    pub pattern: String,
    pub permit: bool,
}

/// The text of an AS-path list entry.
pub struct AsPathListModel {
    pub name: Seq<char>,
    pub pattern: Seq<char>,
    pub permit: bool,
}

impl View for AsPathListRow {
    type V = AsPathListModel;

    open spec fn view(&self) -> AsPathListModel {
        AsPathListModel { name: self.name@, pattern: self.pattern@, permit: self.permit }
    }
}

/// One community-list entry.
pub struct CommunityListRow {
    pub name: String,
    pub communities: Vec<String>,
    pub permit: bool,
}

/// The text of a community-list entry.
#[verifier::ext_equal]
pub struct CommunityListModel {
    pub name: Seq<char>,
    pub communities: Seq<Seq<char>>,
    pub permit: bool,
}

impl View for CommunityListRow {
    type V = CommunityListModel;

    open spec fn view(&self) -> CommunityListModel {
        CommunityListModel {
            name: self.name@,
            communities: views(self.communities@),
            permit: self.permit,
        }
    }
}

/// A named text: a filter with its body, a function, a constant.
pub struct Named {
    pub name: String,
    pub text: String,
}

/// The texts of a named text.
pub struct NamedModel {
    pub name: Seq<char>,
    pub text: Seq<char>,
}

impl View for Named {
    type V = NamedModel;

    open spec fn view(&self) -> NamedModel {
        NamedModel { name: self.name@, text: self.text@ }
    }
}

/// A name with several lines: a captured filter, or the notes on one.
pub struct NamedLines {
    pub name: String,
    pub lines: Vec<String>,
}

/// The texts of a name with lines.
#[verifier::ext_equal]
pub struct NamedLinesModel {
    pub name: Seq<char>,
    pub lines: Seq<Seq<char>>,
}

impl View for NamedLines {
    type V = NamedLinesModel;

    open spec fn view(&self) -> NamedLinesModel {
        NamedLinesModel { name: self.name@, lines: views(self.lines@) }
    }
}

/// One route-origin authorisation.
pub struct RoaRow {
    pub prefix: String,
    pub max_length: Option<u8>,
    pub asn: u32,
}

/// The text of a route-origin authorisation.
pub struct RoaModel {
    pub prefix: Seq<char>,
    pub max_length: Option<u8>,
    pub asn: u32,
}

impl View for RoaRow {
    type V = RoaModel;

    open spec fn view(&self) -> RoaModel {
        RoaModel { prefix: self.prefix@, max_length: self.max_length, asn: self.asn }
    }
}

/// The authorisations of one table.
pub struct RoaTable {
    pub rows: Vec<RoaRow>,
}

impl View for RoaTable {
    type V = Seq<RoaModel>;

    open spec fn view(&self) -> Seq<RoaModel> {
        views(self.rows@)
    }
}

/// The parameters of one Babel interface.
pub struct BabelInterfaceSpec {
    pub name: Option<String>,
    pub kind: Option<String>,
    pub hello_interval_ms: Option<u32>,
    pub update_interval_ms: Option<u32>,
    pub rxcost: Option<u16>,
    pub rtt_cost: Option<u16>,
    pub rtt_min_us: Option<u32>,
    pub rtt_max_us: Option<u32>,
    pub next_hop_ipv4: Option<String>,
    pub next_hop_ipv6: Option<String>,
    pub extended_next_hop: Option<bool>,
    pub check_link: Option<bool>,
    pub port: Option<u16>,
}

/// The text of a Babel interface's parameters.
pub struct BabelModel {
    pub name: Option<Seq<char>>,
    pub kind: Option<Seq<char>>,
    pub hello_interval_ms: Option<u32>,
    pub update_interval_ms: Option<u32>,
    pub rxcost: Option<u16>,
    pub rtt_cost: Option<u16>,
    pub rtt_min_us: Option<u32>,
    pub rtt_max_us: Option<u32>,
    pub next_hop_ipv4: Option<Seq<char>>,
    pub next_hop_ipv6: Option<Seq<char>>,
    pub extended_next_hop: Option<bool>,
    pub check_link: Option<bool>,
    pub port: Option<u16>,
}

impl View for BabelInterfaceSpec {
    type V = BabelModel;

    open spec fn view(&self) -> BabelModel {
        BabelModel {
            name: opt_view(self.name),
            kind: opt_view(self.kind),
            hello_interval_ms: self.hello_interval_ms,
            update_interval_ms: self.update_interval_ms,
            rxcost: self.rxcost,
            rtt_cost: self.rtt_cost,
            rtt_min_us: self.rtt_min_us,
            rtt_max_us: self.rtt_max_us,
            next_hop_ipv4: opt_view(self.next_hop_ipv4),
            next_hop_ipv6: opt_view(self.next_hop_ipv6),
            extended_next_hop: self.extended_next_hop,
            check_link: self.check_link,
            port: self.port,
        }
    }
}

/// A Babel interface of which only the name is known.
pub open spec fn blank_babel(name: Seq<char>) -> BabelModel {
    BabelModel {
        name: Some(name),
        kind: None,
        hello_interval_ms: None,
        update_interval_ms: None,
        rxcost: None,
        rtt_cost: None,
        rtt_min_us: None,
        rtt_max_us: None,
        next_hop_ipv4: None,
        next_hop_ipv6: None,
        extended_next_hop: None,
        check_link: None,
        port: None,
    }
}

impl BabelInterfaceSpec {
    /// An interface of which only the name is known.
    pub fn named(name: String) -> (s: BabelInterfaceSpec)
        ensures
            s@ == blank_babel(name@),
    {
        BabelInterfaceSpec {
            name: Some(name),
            kind: None,
            hello_interval_ms: None,
            update_interval_ms: None,
            rxcost: None,
            rtt_cost: None,
            rtt_min_us: None,
            rtt_max_us: None,
            next_hop_ipv4: None,
            next_hop_ipv6: None,
            extended_next_hop: None,
            check_link: None,
            port: None,
        }
    }
}

/// A Babel interface with the notes on its block.
pub struct BabelRow {
    pub spec: BabelInterfaceSpec,
    pub notes: Vec<String>,
}

/// The text of a Babel interface and its notes.
#[verifier::ext_equal]
pub struct BabelRowModel {
    pub spec: BabelModel,
    pub notes: Seq<Seq<char>>,
}

impl View for BabelRow {
    type V = BabelRowModel;

    open spec fn view(&self) -> BabelRowModel {
        BabelRowModel { spec: self.spec@, notes: views(self.notes@) }
    }
}

/// The converted configuration before rendering.
pub struct ConfigOut {
    pub local_as: Option<u32>,
    pub router_id: Option<String>,
    /// Locally originated prefixes.
    pub networks: Vec<String>,
    pub peers: Vec<PeerOut>,
    pub prefix_lists: Vec<PrefixListRow>,
    pub as_path_lists: Vec<AsPathListRow>,
    pub community_lists: Vec<CommunityListRow>,
    pub route_maps: Vec<RouteMapRow>,
    /// Translated filters.
    pub filters: Vec<Named>,
    pub roas: Vec<RoaRow>,
    /// Filters that could not be translated faithfully, with the reasons.
    pub failed_filters: Vec<NamedLines>,
    pub babel_ifaces: Vec<BabelRow>,
    /// Notes rendered near the header.
    pub unmapped_global: Vec<String>,
    /// Directives outside any peer.
    pub ext_global: Vec<LrDirective>,
    /// Other routing protocols seen.
    pub ignored_protocols: Vec<String>,
    /// A dialect default that differs from the daemon's.
    pub enforce_first_as: Option<bool>,
}

/// The text of a converted configuration.
#[verifier::ext_equal]
pub struct ConfigModel {
    pub local_as: Option<u32>,
    pub router_id: Option<Seq<char>>,
    pub networks: Seq<Seq<char>>,
    pub peers: Seq<PeerModel>,
    pub prefix_lists: Seq<PrefixListModel>,
    pub as_path_lists: Seq<AsPathListModel>,
    pub community_lists: Seq<CommunityListModel>,
    pub route_maps: Seq<RouteMapModel>,
    pub filters: Seq<NamedModel>,
    pub roas: Seq<RoaModel>,
    pub failed_filters: Seq<NamedLinesModel>,
    pub babel_ifaces: Seq<BabelRowModel>,
    pub unmapped_global: Seq<Seq<char>>,
    pub ext_global: Seq<DirectiveModel>,
    pub ignored_protocols: Seq<Seq<char>>,
    pub enforce_first_as: Option<bool>,
}

impl View for ConfigOut {
    type V = ConfigModel;

    open spec fn view(&self) -> ConfigModel {
        ConfigModel {
            local_as: self.local_as,
            router_id: opt_view(self.router_id),
            networks: views(self.networks@),
            peers: views(self.peers@),
            prefix_lists: views(self.prefix_lists@),
            as_path_lists: views(self.as_path_lists@),
            community_lists: views(self.community_lists@),
            route_maps: views(self.route_maps@),
            filters: views(self.filters@),
            roas: views(self.roas@),
            failed_filters: views(self.failed_filters@),
            babel_ifaces: views(self.babel_ifaces@),
            unmapped_global: views(self.unmapped_global@),
            ext_global: views(self.ext_global@),
            ignored_protocols: views(self.ignored_protocols@),
            enforce_first_as: self.enforce_first_as,
        }
    }
}

/// A configuration that holds nothing.
pub open spec fn blank_config() -> ConfigModel {
    ConfigModel {
        local_as: None,
        router_id: None,
        networks: Seq::empty(),
        peers: Seq::empty(),
        prefix_lists: Seq::empty(),
        as_path_lists: Seq::empty(),
        community_lists: Seq::empty(),
        route_maps: Seq::empty(),
        filters: Seq::empty(),
        roas: Seq::empty(),
        failed_filters: Seq::empty(),
        babel_ifaces: Seq::empty(),
        unmapped_global: Seq::empty(),
        ext_global: Seq::empty(),
        ignored_protocols: Seq::empty(),
        enforce_first_as: None,
    }
}

impl Default for ConfigOut {
    fn default() -> (c: ConfigOut)
        ensures
            c@ == blank_config(),
    {
        ConfigOut {
            local_as: None,
            router_id: None,
            networks: no_items(),
            peers: no_items(),
            prefix_lists: no_items(),
            as_path_lists: no_items(),
            community_lists: no_items(),
            route_maps: no_items(),
            filters: no_items(),
            roas: no_items(),
            failed_filters: no_items(),
            babel_ifaces: no_items(),
            unmapped_global: no_items(),
            ext_global: no_items(),
            ignored_protocols: no_items(),
            enforce_first_as: None,
        }
    }
}

} // verus!
