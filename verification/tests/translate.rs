use lr_cli::address::{is_address, is_prefix};
use lr_cli::babel::{absorb_babel_line, finish_babel_iface, BabelProto};
use lr_cli::bird_config::{parse_bird_config, translate_bird};
use lr_cli::bird_scan::{BirdCapture, CaptureKind};
use lr_cli::bird_set::{CompileOutcome, Filter};
use lr_cli::conf::ConfigOut;
use lr_cli::directives::toml_str;
use lr_cli::frr::{parse_frr_config, translate_frr};
use lr_cli::render::{render, render_config};

/// A filter compiler that takes every body.
fn compiled() -> CompileOutcome {
    CompileOutcome::Parsed(Filter {
        functions: vec![],
        body: vec![],
    })
}

/// Reads a BIRD configuration whose translated bodies all compile.
fn bird(text: &str) -> ConfigOut {
    let draft = translate_bird(text);
    let filters: Vec<CompileOutcome> = draft.drafts.iter().map(|_| compiled()).collect();
    let wheres: Vec<CompileOutcome> = draft.pending.iter().map(|_| compiled()).collect();
    parse_bird_config(draft, &filters, &wheres)
}

/// One table of a TOML document: its keys with their values as written.
struct TomlTable {
    name: String,
    keys: Vec<(String, String)>,
}

impl TomlTable {
    fn raw(&self, key: &str) -> Option<&str> {
        self.keys
            .iter()
            .find(|(k, _)| k == key)
            .map(|(_, v)| v.as_str())
    }

    fn text(&self, key: &str) -> Option<String> {
        self.raw(key).map(unescape)
    }

    fn number<T: std::str::FromStr>(&self, key: &str) -> Option<T> {
        self.raw(key).and_then(|v| v.parse().ok())
    }

    fn flag(&self, key: &str) -> Option<bool> {
        self.raw(key).and_then(|v| v.parse().ok())
    }

    fn list(&self, key: &str) -> Option<Vec<String>> {
        self.raw(key).map(strings)
    }
}

/// The text of a TOML basic string.
fn unescape(v: &str) -> String {
    let inner = v
        .strip_prefix('"')
        .and_then(|v| v.strip_suffix('"'))
        .expect("a quoted string");
    let mut out = String::new();
    let mut chars = inner.chars();
    while let Some(c) = chars.next() {
        if c == '\\' {
            out.push(chars.next().expect("an escaped character"));
        } else {
            out.push(c);
        }
    }
    out
}

/// The texts of an array of plain strings.
fn strings(v: &str) -> Vec<String> {
    let inner = v
        .strip_prefix('[')
        .and_then(|v| v.strip_suffix(']'))
        .expect("an array");
    inner
        .split(',')
        .map(str::trim)
        .filter(|p| !p.is_empty())
        .map(unescape)
        .collect()
}

/// The tables of a TOML document; the first is the one without a header.
fn tables(toml: &str) -> Vec<TomlTable> {
    let mut out = vec![TomlTable {
        name: String::new(),
        keys: vec![],
    }];
    for line in toml.lines() {
        let line = line.trim();
        if line.is_empty() || line.starts_with('#') {
            continue;
        }
        if line.starts_with('[') {
            out.push(TomlTable {
                name: line.trim_matches(|c| c == '[' || c == ']').to_string(),
                keys: vec![],
            });
            continue;
        }
        let (key, value) = line.split_once('=').expect("a key and a value");
        out.last_mut()
            .expect("a table")
            .keys
            .push((key.trim().to_string(), value.trim().to_string()));
    }
    out
}

struct Peer {
    remote: Option<String>,
    peer_as: u32,
    local_address: Option<String>,
    md5_key: Option<String>,
    hold_time: Option<u32>,
    bfd: Option<bool>,
    import: Option<String>,
    export: Option<String>,
    import_filter: Option<String>,
    export_filter: Option<String>,
    default_ipv4_unicast: Option<bool>,
    mp_families: Option<Vec<String>>,
}

struct RouteMap {
    name: String,
    permit: Option<bool>,
    match_prefix: Option<String>,
    match_as_path: Option<String>,
    match_community: Option<String>,
    set_next_hop: Option<String>,
    set_local_pref: Option<u32>,
    set_med: Option<u32>,
    prepend: Option<String>,
    add_community: Option<String>,
}

struct AsPathList {
    pattern: String,
}

struct CommunityList {
    communities: Vec<String>,
}

struct FilterTable {
    name: Option<String>,
    body: Option<String>,
}

struct Roa {
    prefix: Option<String>,
    max_length: Option<u8>,
    asn: Option<u32>,
}

struct BabelInterface {
    name: Option<String>,
    kind: Option<String>,
    rxcost: Option<u16>,
    hello_interval_ms: Option<u32>,
    update_interval_ms: Option<u32>,
    rtt_cost: Option<u16>,
    rtt_min_us: Option<u32>,
    rtt_max_us: Option<u32>,
    check_link: Option<bool>,
    next_hop_ipv4: Option<String>,
    next_hop_ipv6: Option<String>,
}

struct Daemon {
    router_id: String,
    local_as: u32,
    networks: Vec<String>,
    gr_restart_time: Option<u32>,
    install_kernel: bool,
    peers: Vec<Peer>,
    prefix_lists: Vec<String>,
    route_maps: Vec<RouteMap>,
    as_path_lists: Vec<AsPathList>,
    community_lists: Vec<CommunityList>,
    filters: Vec<FilterTable>,
    roas: Vec<Roa>,
    babel_interfaces: Vec<BabelInterface>,
}

/// Loads what the converter wrote.
fn roundtrip(toml: &str) -> Daemon {
    let all = tables(toml);
    let named = |name: &str| -> Vec<&TomlTable> { all.iter().filter(|t| t.name == name).collect() };
    // Keys of the configuration as a whole stand in the head of the document.
    let global = |key: &str| -> Option<&str> {
        all.iter()
            .filter(|t| t.name.is_empty() || t.name == "bgp")
            .find_map(|t| t.raw(key))
    };
    Daemon {
        router_id: global("router_id").map(unescape).unwrap_or_default(),
        local_as: global("local_as").and_then(|v| v.parse().ok()).unwrap_or(0),
        networks: global("networks").map(strings).unwrap_or_default(),
        gr_restart_time: global("graceful_restart_time").and_then(|v| v.parse().ok()),
        install_kernel: global("install_kernel") == Some("true"),
        peers: named("peer")
            .iter()
            .map(|t| Peer {
                remote: t.text("remote"),
                peer_as: t.number("peer_as").expect("an AS"),
                local_address: t.text("local_address"),
                md5_key: t.text("md5_key"),
                hold_time: t.number("hold_time"),
                bfd: t.flag("bfd"),
                import: t.text("import"),
                export: t.text("export"),
                import_filter: t.text("import_filter"),
                export_filter: t.text("export_filter"),
                default_ipv4_unicast: t.flag("default_ipv4_unicast"),
                mp_families: t.list("mp_families"),
            })
            .collect(),
        prefix_lists: named("prefix-list")
            .iter()
            .filter_map(|t| t.text("name"))
            .collect(),
        route_maps: named("route-map")
            .iter()
            .map(|t| RouteMap {
                name: t.text("name").expect("a name"),
                permit: t.flag("permit"),
                match_prefix: t.text("match_prefix"),
                match_as_path: t.text("match_as_path"),
                match_community: t.text("match_community"),
                set_next_hop: t.text("set_next_hop"),
                set_local_pref: t.number("set_local_pref"),
                set_med: t.number("set_med"),
                prepend: t.text("prepend"),
                add_community: t.text("add_community"),
            })
            .collect(),
        as_path_lists: named("as-path-list")
            .iter()
            .map(|t| AsPathList {
                pattern: t.text("pattern").expect("a pattern"),
            })
            .collect(),
        community_lists: named("community-list")
            .iter()
            .map(|t| CommunityList {
                communities: t.list("communities").expect("communities"),
            })
            .collect(),
        filters: named("filter")
            .iter()
            .map(|t| FilterTable {
                name: t.text("name"),
                body: t.text("body"),
            })
            .collect(),
        roas: named("roa")
            .iter()
            .map(|t| Roa {
                prefix: t.text("prefix"),
                max_length: t.number("max_length"),
                asn: t.number("asn"),
            })
            .collect(),
        babel_interfaces: named("babel.interface")
            .iter()
            .map(|t| BabelInterface {
                name: t.text("name"),
                kind: t.text("kind"),
                rxcost: t.number("rxcost"),
                hello_interval_ms: t.number("hello_interval_ms"),
                update_interval_ms: t.number("update_interval_ms"),
                rtt_cost: t.number("rtt_cost"),
                rtt_min_us: t.number("rtt_min_us"),
                rtt_max_us: t.number("rtt_max_us"),
                check_link: t.flag("check_link"),
                next_hop_ipv4: t.text("next_hop_ipv4"),
                next_hop_ipv6: t.text("next_hop_ipv6"),
            })
            .collect(),
    }
}

#[test]
fn bird_single_peer() {
    let toml = render(&bird(
        r#"
router id 10.0.0.1;

protocol bgp uplink {
    local as 64512;
    neighbor 192.168.1.2 as 64513;
    local address 10.99.1.1;
    password "s3cret";
    hold time 90;
    multihop 2;
    ipv4 {
        import all;
        export all;
    };
}
"#,
    ));
    let cfg = roundtrip(&toml);
    assert_eq!(cfg.router_id, "10.0.0.1");
    assert_eq!(cfg.local_as, 64512);
    assert_eq!(cfg.peers.len(), 1);
    let peer = &cfg.peers[0];
    assert_eq!(peer.remote.as_deref(), Some("192.168.1.2"));
    assert_eq!(peer.peer_as, 64513);
    assert_eq!(peer.local_address.as_deref(), Some("10.99.1.1"));
    assert_eq!(peer.md5_key.as_deref(), Some("s3cret"));
    assert_eq!(peer.hold_time, Some(90));
    // `import all / export all` is what the emitted
    // `ebgp_policy = "accept-all"` already means: no maps attached.
    assert!(peer.import.is_none() && peer.export.is_none());
    assert!(toml.contains("ebgp_policy = \"accept-all\""));
    // `multihop 2` has no lr equivalent: kept as an UNMAPPED note.
    assert!(toml.contains("# UNMAPPED: multihop 2"));
}

#[test]
fn bird_import_none_gets_deny_all() {
    let toml = render(&bird(
        r#"
router id 10.0.0.1;
protocol bgp p1 {
    local as 64512;
    neighbor 192.168.1.2 as 64513;
    ipv4 {
        import none;
        export all;
    };
}
"#,
    ));
    let cfg = roundtrip(&toml);
    assert_eq!(
        cfg.peers[0].import.as_deref(),
        Some("translate-import-deny")
    );
    // `export all` needs no map under the emitted accept-all mode.
    assert!(cfg.peers[0].export.is_none());
    assert!(cfg
        .route_maps
        .iter()
        .any(|m| m.name == "translate-import-deny" && m.permit == Some(false)));
    assert!(!cfg
        .route_maps
        .iter()
        .any(|m| m.name.starts_with("translate-export")));
}

#[test]
fn frr_single_peer_with_policy() {
    let toml = render(&translate_frr(
        r#"
frr version 10
frr defaults traditional
hostname r1
!
router bgp 64512
 bgp router-id 10.0.0.1
 neighbor 192.168.1.2 remote-as 64513
 neighbor 192.168.1.2 password 0 s3cret
 neighbor 192.168.1.2 update-source 10.99.1.1
 neighbor 192.168.1.2 ebgp-multihop 2
 neighbor 192.168.1.2 route-map FILTER-IN in
 neighbor 192.168.1.2 bfd
!
ip prefix-list ONLY-DEFAULT seq 10 permit 0.0.0.0/0
!
route-map FILTER-IN permit 10
 match ip address prefix-list ONLY-DEFAULT
!
"#,
    ));
    let cfg = roundtrip(&toml);
    assert_eq!(cfg.local_as, 64512);
    assert_eq!(cfg.router_id, "10.0.0.1");
    assert_eq!(cfg.peers.len(), 1);
    let peer = &cfg.peers[0];
    assert_eq!(peer.remote.as_deref(), Some("192.168.1.2"));
    assert_eq!(peer.peer_as, 64513);
    assert_eq!(peer.md5_key.as_deref(), Some("s3cret"));
    assert_eq!(peer.local_address.as_deref(), Some("10.99.1.1"));
    assert_eq!(peer.bfd, Some(true));
    assert_eq!(peer.import.as_deref(), Some("FILTER-IN"));
    assert_eq!(cfg.prefix_lists.len(), 1);
    assert_eq!(cfg.route_maps.len(), 1);
    assert_eq!(
        cfg.route_maps[0].match_prefix.as_deref(),
        Some("ONLY-DEFAULT")
    );
    assert!(toml.contains("# UNMAPPED: neighbor 192.168.1.2 ebgp-multihop 2"));
}

#[test]
fn frr_no_activate_maps_to_default_off() {
    let out = translate_frr(
        "router bgp 64512\n neighbor 10.0.0.2 remote-as 64513\n\
         address-family ipv4 unicast\n  no neighbor 10.0.0.2 activate\n",
    );
    assert_eq!(out.peers[0].default_ipv4_unicast, Some(false));
}

/// `remote-as` combined with other attributes on one line.
#[test]
fn frr_combined_neighbor_line_keeps_remote_as() {
    let out = translate_frr("router bgp 64512\n neighbor 10.0.0.2 port 1179 remote-as 64513\n");
    assert_eq!(out.peers.len(), 1);
    assert_eq!(out.peers[0].peer_as, Some(64513));
    assert_eq!(out.peers[0].remote.as_deref(), Some("10.0.0.2"));
    assert_eq!(out.peers[0].remote_port.as_deref(), Some("1179"));
}

/// FRR dialect defaults: `router bgp` implies FRR's documented
/// `bgp enforce-first-as` default (on); BIRD keeps lr's default (off).
#[test]
fn frr_enforce_first_as_default_is_on() {
    let out = translate_frr("router bgp 64512\n neighbor 10.0.0.2 remote-as 64513\n");
    assert_eq!(out.enforce_first_as, Some(true));
    let other = bird("router id 10.0.0.1\n");
    assert_eq!(other.enforce_first_as, None);
}

/// Both `key value` and `key = value` directive spellings work —
/// the latter is the natural TOML-shaped habit.
#[test]
fn directives_accept_assignment_form() {
    let toml = render(&translate_frr(
        "router bgp 64512\n\
         neighbor 10.0.0.2 remote-as 64513\n\
         # lr: graceful_restart = 240\n\
         # lr: install-kernel\n",
    ));
    let cfg = roundtrip(&toml);
    assert_eq!(cfg.gr_restart_time, Some(240));
    assert!(cfg.install_kernel);
}

#[test]
fn bird_ipv6_only_channel_disables_v4() {
    let toml = render(&bird(
        r#"
router id 10.0.0.1;
protocol bgp v6peer {
    local as 64512;
    neighbor 2001:db8::2 as 64513;
    ipv6 {
        import all;
        export all;
    };
}
"#,
    ));
    let cfg = roundtrip(&toml);
    let peer = &cfg.peers[0];
    // BIRD would never exchange IPv4 NLRI with this peer — the
    // implicit v4 activation must be switched off and v6 listed.
    assert_eq!(peer.default_ipv4_unicast, Some(false));
    assert_eq!(
        peer.mp_families.as_deref(),
        Some(["ipv6-unicast".to_string()].as_slice())
    );
}

#[test]
fn bird_dual_channel_lists_both_families() {
    let out = bird(
        r#"
protocol bgp dual {
    local as 64512;
    neighbor 192.168.1.2 as 64513;
    ipv4 { import all; export all; };
    ipv6 { import all; export all; };
}
"#,
    );
    assert_eq!(out.peers[0].families, vec!["ipv4-unicast", "ipv6-unicast"]);
}

#[test]
fn bird_unknown_lines_inside_stanza_become_unmapped() {
    let toml = render(&bird(
        r#"
protocol bgp p1 {
    local as 64512;
    neighbor 192.168.1.2 as 64513;
    description "uplink to transit";
    ipv4 {
        import all;
        export all;
        next hop self;
    };
}
"#,
    ));
    // Unmapped content stays visible; brace punctuation does not
    // leak into the notes and the stanza still closes.
    assert!(toml.contains("# UNMAPPED: description \"uplink to transit\";"));
    assert!(toml.contains("# UNMAPPED: next hop self;"));
    assert!(!toml.contains("# UNMAPPED: }"));
    assert!(!toml.contains("# UNMAPPED: {"));
}

#[test]
fn frr_attributes_before_remote_as_survive() {
    let toml = render(&translate_frr(
        "router bgp 64512\n\
         neighbor 192.168.1.2 password 0 s3cret\n\
         neighbor 192.168.1.2 update-source 10.99.1.1\n\
         neighbor 192.168.1.2 remote-as 64513\n",
    ));
    let cfg = roundtrip(&toml);
    assert_eq!(cfg.peers.len(), 1);
    let peer = &cfg.peers[0];
    assert_eq!(peer.peer_as, 64513);
    assert_eq!(peer.md5_key.as_deref(), Some("s3cret"));
    assert_eq!(peer.local_address.as_deref(), Some("10.99.1.1"));
}

#[test]
fn frr_ipv6_activate_adds_family() {
    let toml = render(&translate_frr(
        "router bgp 64512\n\
         neighbor 2001:db8::2 remote-as 64513\n\
         address-family ipv6 unicast\n\
          neighbor 2001:db8::2 activate\n\
         exit-address-family\n",
    ));
    let cfg = roundtrip(&toml);
    assert_eq!(
        cfg.peers[0].mp_families.as_deref(),
        Some(["ipv6-unicast".to_string()].as_slice())
    );
}

#[test]
fn frr_stub_without_remote_as_is_dropped_with_note() {
    let toml = render(&translate_frr("router bgp 64512\n neighbor 10.0.0.2 bfd\n"));
    // The peer cannot start without an AS — dropped, with the
    // reason surfaced as a global UNMAPPED comment.
    assert!(
        toml.contains("# UNMAPPED: neighbor 10.0.0.2: no `remote-as` line found, peer dropped")
    );
    assert!(!toml.contains("[[peer]]"));
    assert!(toml.contains("ebgp_policy = \"accept-all\""));
}

#[test]
fn bird_named_filter_translates_and_attaches() {
    let toml = render(&bird(
        r#"
router id 10.0.0.1;

filter export_only_cust {
    if net ~ [ 10.0.0.0/8{16,24}, 192.0.2.0/24 ] then {
        bgp_local_pref := 200;
        bgp_path.prepend(64512);
        accept;
    }
    reject;
}

protocol bgp uplink {
    local as 64512;
    neighbor 192.0.2.2 as 64513;
    ipv4 {
        import all;
        export filter export_only_cust;
    };
}
"#,
    ));
    let cfg = roundtrip(&toml);
    // The filter body landed as a [[filter]] table and compiled
    // at finalize time (roundtrip would have failed otherwise).
    assert_eq!(cfg.filters.len(), 1);
    assert_eq!(cfg.filters[0].name.as_deref(), Some("export_only_cust"));
    assert!(cfg.filters[0]
        .body
        .as_deref()
        .unwrap_or("")
        .contains("bgp.local_pref = 200"));
    assert!(cfg.filters[0]
        .body
        .as_deref()
        .unwrap_or("")
        .contains("bgp.as_path.prepend(64512)"));
    assert!(cfg.filters[0]
        .body
        .as_deref()
        .unwrap_or("")
        .contains("10.0.0.0/8{16,24}"));
    assert!(!cfg.filters[0]
        .body
        .as_deref()
        .unwrap_or("")
        .contains("bgp_path"));
    // The peer references it.
    assert_eq!(cfg.peers.len(), 1);
    assert_eq!(
        cfg.peers[0].export_filter.as_deref(),
        Some("export_only_cust")
    );
}

#[test]
fn bird_where_expression_becomes_generated_filter() {
    let toml = render(&bird(
        r#"
router id 10.0.0.1;
protocol bgp uplink {
    local as 64512;
    neighbor 192.0.2.2 as 64513;
    ipv4 { import where net ~ 10.0.0.0/8; export all; };
}
"#,
    ));
    let cfg = roundtrip(&toml);
    assert_eq!(cfg.filters.len(), 1);
    assert_eq!(cfg.filters[0].name.as_deref(), Some("bird-import-uplink"));
    // `import where EXPR` = accept iff EXPR.
    assert!(cfg.filters[0]
        .body
        .as_deref()
        .unwrap_or("")
        .starts_with("if net ~ 10.0.0.0/8 then accept; reject;"));
    assert_eq!(
        cfg.peers[0].import_filter.as_deref(),
        Some("bird-import-uplink")
    );
}

#[test]
fn bird_unfaithful_filter_is_not_attached() {
    // `proto` compares the BIRD instance name — no faithful lr
    // translation exists, so the filter must NOT attach.
    let toml = render(&bird(
        r#"
router id 10.0.0.1;
filter from_customer {
    if proto = "cust_bgp" then accept;
    reject;
}
protocol bgp cust {
    local as 64512;
    neighbor 192.0.2.9 as 64513;
    ipv4 { import filter from_customer; export all; };
}
"#,
    ));
    let cfg = roundtrip(&toml);
    assert!(cfg.filters.is_empty(), "unfaithful filter must not emit");
    assert!(toml.contains(
        "filter from_customer: filter NOT attached — BIRD route attribute or statement `proto`"
    ));
    assert_eq!(cfg.peers[0].import_filter, None);
}

#[test]
fn bird_roa_table_and_roa_check_translate() {
    let toml = render(&bird(
        r#"
router id 10.0.0.1;
roa table roa_v4 {
    roa 198.51.100.0/24 max 24 as 64513;
    roa 203.0.113.0/24 as 65000;
}
filter roa_guard {
    if roa_check(roa_v4) = ROA_INVALID then reject;
    if roa_check(roa_v4) = ROA_UNKNOWN then accept;
    reject;
}
protocol bgp uplink {
    local as 64512;
    neighbor 192.0.2.2 as 64513;
    ipv4 { import filter roa_guard; export all; };
}
"#,
    ));
    let cfg = roundtrip(&toml);
    assert_eq!(cfg.roas.len(), 2);
    assert_eq!(cfg.roas[0].prefix.as_deref(), Some("198.51.100.0/24"));
    assert_eq!(cfg.roas[0].max_length, Some(24));
    assert_eq!(cfg.roas[0].asn, Some(64513));
    assert_eq!(cfg.roas[1].max_length, None);
    assert_eq!(cfg.roas[1].asn, Some(65000));
    assert_eq!(cfg.filters.len(), 1);
    assert!(cfg.filters[0]
        .body
        .as_deref()
        .unwrap_or("")
        .contains("roa.state == \"invalid\""));
    assert!(cfg.filters[0]
        .body
        .as_deref()
        .unwrap_or("")
        .contains("roa.state == \"not-found\""));
    assert!(!cfg.filters[0]
        .body
        .as_deref()
        .unwrap_or("")
        .contains("roa_check"));
    assert_eq!(cfg.peers[0].import_filter.as_deref(), Some("roa_guard"));
}

#[test]
fn bird_defines_substitute_into_filters() {
    let toml = render(&bird(
        r#"
router id 10.0.0.1;
define MY_AS = 64512;
define CUST_NETS = [ 10.0.0.0/8, 192.0.2.0/24 ];
filter tag_cust {
    if net ~ CUST_NETS then {
        bgp_path.prepend(MY_AS);
        accept;
    }
    reject;
}
protocol bgp uplink {
    local as 64512;
    neighbor 192.0.2.2 as 64513;
    ipv4 { export filter tag_cust; import all; };
}
"#,
    ));
    let cfg = roundtrip(&toml);
    assert_eq!(cfg.filters.len(), 1);
    assert!(cfg.filters[0]
        .body
        .as_deref()
        .unwrap_or("")
        .contains("bgp.as_path.prepend(64512)"));
    assert!(cfg.filters[0]
        .body
        .as_deref()
        .unwrap_or("")
        .contains("[ 10.0.0.0/8, 192.0.2.0/24 ]"));
    assert!(!cfg.filters[0]
        .body
        .as_deref()
        .unwrap_or("")
        .contains("CUST_NETS"));
    assert!(!cfg.filters[0]
        .body
        .as_deref()
        .unwrap_or("")
        .contains("MY_AS"));
}

#[test]
fn bird_function_used_by_filter_is_embedded() {
    let toml = render(&bird(
        r#"
router id 10.0.0.1;
function set_pref(int p) {
    bgp_local_pref := p;
    return true;
}
filter export_up {
    if net ~ 10.0.0.0/8 then {
        set_pref(200);
        accept;
    }
    reject;
}
protocol bgp uplink {
    local as 64512;
    neighbor 192.0.2.2 as 64513;
    ipv4 { export filter export_up; import all; };
}
"#,
    ));
    let cfg = roundtrip(&toml);
    assert_eq!(cfg.filters.len(), 1);
    // The function declaration precedes the body and survives
    // compilation (roundtrip finalizes the filter).
    assert!(cfg.filters[0]
        .body
        .as_deref()
        .unwrap_or("")
        .starts_with("function set_pref(p)"));
    assert!(cfg.filters[0]
        .body
        .as_deref()
        .unwrap_or("")
        .contains("set_pref(200);"));
    assert!(cfg.filters[0]
        .body
        .as_deref()
        .unwrap_or("")
        .contains("bgp.local_pref = p;"));
}

#[test]
fn bird_babel_protocol_maps_interfaces() {
    let toml = render(&bird(
        r#"
router id 10.0.0.1;
protocol babel babel_core {
    interface "eth0" {
        type wired;
        rxcost 8;
        hello interval 4 s;
        update interval 30 s;
        rtt cost 42;
        rtt min 10 ms;
        rtt max 120 ms;
        check link yes;
    };
    interface "wg*";
    next hop ipv4 192.0.2.1;
    next hop ipv6 2001:db8::1;
}
protocol bgp uplink {
    local as 64512;
    neighbor 192.0.2.2 as 64513;
}
"#,
    ));
    let cfg = roundtrip(&toml);
    // The BGP peer still converts; the Babel interfaces carry over
    // as [[babel.interface]] tables.
    assert_eq!(cfg.peers.len(), 1);
    assert_eq!(cfg.babel_interfaces.len(), 2);
    let eth0 = &cfg.babel_interfaces[0];
    assert_eq!(eth0.name.as_deref(), Some("eth0"));
    assert_eq!(eth0.kind.as_deref(), Some("wired"));
    assert_eq!(eth0.rxcost, Some(8));
    assert_eq!(eth0.hello_interval_ms, Some(4000));
    assert_eq!(eth0.update_interval_ms, Some(30000));
    assert_eq!(eth0.rtt_cost, Some(42));
    assert_eq!(eth0.rtt_min_us, Some(10_000));
    assert_eq!(eth0.rtt_max_us, Some(120_000));
    assert_eq!(eth0.check_link, Some(true));
    // Protocol-level next hops apply to interfaces without their own.
    assert_eq!(eth0.next_hop_ipv4.as_deref(), Some("192.0.2.1"));
    assert_eq!(eth0.next_hop_ipv6.as_deref(), Some("2001:db8::1"));
    // The bare interface inherits the protocol-level next hops only.
    let wg = &cfg.babel_interfaces[1];
    assert_eq!(wg.name.as_deref(), Some("wg*"));
    assert_eq!(wg.kind, None);
    assert_eq!(wg.next_hop_ipv4.as_deref(), Some("192.0.2.1"));
    // lr runs one protocol per daemon instance — the converter
    // says so instead of silently switching the protocol key.
    assert!(toml.contains("lr runs one protocol per daemon instance"));
}

#[test]
fn bird_neighbor_and_local_with_ports() {
    // Non-default ports on both ends of the session.
    let toml = render(&bird(
        r#"
router id 10.0.0.2;
protocol bgp lr {
    local port 17992 as 64513;
    neighbor 127.0.0.1 port 17990 as 64512;
    multihop 2;
    ipv4 {
        import all;
        export filter export_to_lr;
        next hop address 192.0.2.10;
    };
}
"#,
    ));
    let cfg = roundtrip(&toml);
    assert_eq!(cfg.local_as, 64513);
    assert_eq!(cfg.peers.len(), 1);
    let peer = &cfg.peers[0];
    // The connect port rides `remote` as ADDR:PORT; the local
    // listen port has no per-peer lr equivalent (noted instead).
    assert_eq!(peer.remote.as_deref(), Some("127.0.0.1:17990"));
    assert_eq!(peer.peer_as, 64512);
    assert!(toml
        .contains("# UNMAPPED: local port 17992 (lr listens on the daemon's global listener)"));
    // The filter is referenced but never defined in the source —
    // reported, and nothing attaches.
    assert!(toml.contains(
        "# UNMAPPED: export filter export_to_lr: filter NOT attached — filter is not defined"
    ));
}

#[test]
fn frr_neighbor_port_merges_into_remote() {
    let toml = render(&translate_frr(
        "router bgp 64512\n\
         neighbor 127.0.0.1 remote-as 64513\n\
         neighbor 127.0.0.1 port 17990\n",
    ));
    let cfg = roundtrip(&toml);
    assert_eq!(cfg.peers[0].remote.as_deref(), Some("127.0.0.1:17990"));
}

#[test]
fn frr_network_and_route_map_set_clauses() {
    let toml = render(&translate_frr(
        "router bgp 64512\n\
         neighbor 192.168.1.2 remote-as 64513\n\
         address-family ipv4 unicast\n\
          network 198.51.100.0/24\n\
         exit-address-family\n\
         route-map SET-OUT permit 10\n\
          set ip next-hop 192.0.2.20\n\
          set local-preference 200\n\
          set metric 50\n\
          set as-path prepend 65001 65001\n\
          set community 65000:1 additive\n\
         !\n",
    ));
    let cfg = roundtrip(&toml);
    // FRR `network` = lr `networks` (locally originated).
    assert_eq!(cfg.networks, vec!["198.51.100.0/24".to_string()]);
    let map = &cfg.route_maps[0];
    assert_eq!(map.set_next_hop.as_deref(), Some("192.0.2.20"));
    assert_eq!(map.set_local_pref, Some(200));
    assert_eq!(map.set_med, Some(50));
    assert_eq!(map.prepend.as_deref(), Some("65001 65001"));
    assert_eq!(map.add_community.as_deref(), Some("65000:1"));
}

#[test]
fn frr_as_path_and_community_lists_resolve() {
    let toml = render(&translate_frr(
        "router bgp 64512\n\
         neighbor 192.168.1.2 remote-as 64513\n\
         bgp as-path access-list ONLY-OURS permit ^65001$\n\
         bgp community-list standard TRUSTED permit 65000:42\n\
         route-map POLICY permit 10\n\
          match as-path ONLY-OURS\n\
          match community TRUSTED\n\
         !\n",
    ));
    let cfg = roundtrip(&toml);
    assert_eq!(cfg.as_path_lists.len(), 1);
    assert_eq!(cfg.as_path_lists[0].pattern, "^65001$");
    assert_eq!(cfg.community_lists.len(), 1);
    assert_eq!(
        cfg.community_lists[0].communities,
        vec!["65000:42".to_string()]
    );
    assert_eq!(
        cfg.route_maps[0].match_as_path.as_deref(),
        Some("ONLY-OURS")
    );
    assert_eq!(
        cfg.route_maps[0].match_community.as_deref(),
        Some("TRUSTED")
    );
}

#[test]
fn frr_dangling_match_is_noted_and_cleared() {
    let toml = render(&translate_frr(
        "router bgp 64512\n\
         neighbor 192.168.1.2 remote-as 64513\n\
         route-map POLICY permit 10\n\
          match as-path GHOST\n\
         !\n",
    ));
    // The daemon's policy compiler fails startup on unknown list
    // names — the reference is dropped with a visible note so the
    // generated TOML still loads.
    assert!(toml.contains("no such as-path access-list"));
    assert!(!toml.contains("match_as_path"));
}

#[test]
fn bird_static_routes_become_networks() {
    let toml = render(&bird(
        r#"
router id 10.0.0.1;
protocol static static_routes {
    ipv4;
    route 198.51.100.0/24 blackhole;
    route 203.0.113.0/24 via 10.0.0.9;
}
protocol bgp p1 {
    local as 64512;
    neighbor 192.168.1.2 as 64513;
}
"#,
    ));
    let cfg = roundtrip(&toml);
    assert_eq!(
        cfg.networks,
        vec!["198.51.100.0/24".to_string(), "203.0.113.0/24".to_string()]
    );
}

#[test]
fn configurations_are_read_and_rendered() {
    let frr = parse_frr_config("router bgp 64512\n neighbor 192.0.2.1 remote-as 64513\n");
    assert_eq!(frr.peers.len(), 1);
    assert_eq!(render_config(&frr), render(&frr));
    assert!(render_config(&frr).contains("peer_as = 64513"));
}

/// A captured stanza closes with its brace, also where the braces share a
/// line.
#[test]
fn captures_close_with_their_brace() {
    let mut c = BirdCapture::new(CaptureKind::RoaTable, "filter f", 0, 0);
    assert!(!c.is_closed());
    assert!(!c.feed("{ if x then {", 2, 0));
    assert!(!c.feed("accept; }", 0, 1));
    assert!(c.feed("}", 0, 1));
    assert!(BirdCapture::new(CaptureKind::RoaTable, "filter f { accept; }", 1, 1).is_closed());
}

/// A line without a mapping stays visible; comments and block ends are no
/// lines of their own.
#[test]
fn frr_lines_without_a_mapping_are_kept() {
    let toml = render(&translate_frr(
        "frr defaults traditional\n!\nrouter bgp 64512\n timers bgp 10 30\n \
         neighbor 10.0.0.2 remote-as 64513\n neighbor 10.0.0.2 route-map M\n \
         neighbor 10.0.0.2 password\n bgp log-neighbor-changes\nexit\n!\n\
         ipv6 prefix-list X permit any\nip prefix-list Y description none\nend\n",
    ));
    for note in [
        "frr defaults traditional",
        "timers bgp 10 30",
        "neighbor 10.0.0.2 route-map M",
        "neighbor 10.0.0.2 password",
        "bgp log-neighbor-changes",
        "ipv6 prefix-list X permit any",
        "ip prefix-list Y description none",
    ] {
        let line = format!("# UNMAPPED: {note}\n");
        assert!(toml.contains(&line), "{line}");
    }
    assert!(!toml.contains("# UNMAPPED: !"));
    assert!(!toml.contains("# UNMAPPED: exit"));
    assert!(!toml.contains("# UNMAPPED: end"));
}

/// Nothing inside the stanza of another protocol, or of a VRF, is mapped.
#[test]
fn frr_other_stanzas_are_not_mapped() {
    let out = translate_frr(
        "router bgp 64512\n neighbor 10.0.0.2 remote-as 64513\n!\n\
         router ospf\n network 10.0.0.0/8 area 0\n!\nhostname r1\n\
         router bgp 64999 vrf RED\n bgp router-id 9.9.9.9\n neighbor 10.9.9.9 remote-as 1\n !\n \
         address-family ipv4 unicast\n  network 192.0.2.0/24\n!\n\
         ip prefix-list L seq 5 permit 0.0.0.0/0\n",
    );
    assert_eq!(out.local_as, Some(64512));
    assert_eq!(out.router_id, None);
    assert_eq!(out.peers.len(), 1);
    assert!(out.networks.is_empty());
    assert_eq!(out.ignored_protocols, vec!["router ospf"]);
    assert_eq!(
        out.unmapped_global,
        vec!["hostname r1", "router bgp 64999 vrf RED"]
    );
    assert_eq!(out.prefix_lists.len(), 1);
}

/// The router id of another protocol is not that of the daemon.
#[test]
fn bird_other_protocols_keep_their_router_id() {
    let out = bird(
        "router id 10.0.0.1;\nprotocol ospf v2 o1 {\n  router id 9.9.9.9;\n  area 0 {\n  };\n}\n\
         protocol bgp p1 {\n  local as 64512;\n  neighbor 192.168.1.2 as 64513;\n  \
         hold time soon;\n}\n",
    );
    assert_eq!(out.router_id.as_deref(), Some("10.0.0.1"));
    assert_eq!(out.ignored_protocols, vec!["protocol ospf v2"]);
    assert_eq!(out.peers[0].hold_time, None);
    assert_eq!(out.peers[0].unmapped, vec!["hold time soon;"]);
}

#[test]
fn toml_strings_escape_quotes_and_backslashes() {
    assert_eq!(toml_str("a\"b\\c"), "\"a\\\"b\\\\c\"");
    assert_eq!(toml_str(""), "\"\"");
}

/// A peer that names a route-map there is not loses the policy, with a note.
#[test]
fn frr_missing_route_maps_are_noted() {
    let out = translate_frr(
        "router bgp 64512\n neighbor 10.0.0.2 remote-as 64513\n \
         neighbor 10.0.0.2 route-map GHOST in\n neighbor 10.0.0.2 route-map M out\n\
         route-map M permit 10\n",
    );
    assert_eq!(out.peers.len(), 1);
    assert_eq!(out.peers[0].import, None);
    assert_eq!(out.peers[0].export.as_deref(), Some("M"));
    assert_eq!(
        out.peers[0].unmapped,
        vec!["neighbor 10.0.0.2 route-map GHOST in (no such route-map; policy dropped)"]
    );
    assert!(render(&out).contains("# UNMAPPED: neighbor 10.0.0.2 route-map GHOST in"));
}

/// A neighbor line that says more than is converted is noted.
#[test]
fn frr_neighbor_lines_that_say_more_are_noted() {
    let out = translate_frr(
        "router bgp 64512\n neighbor 10.0.0.2 port 1179 remote-as 64513\n \
         neighbor 10.0.0.2 bfd profile fast\n neighbor 10.0.0.2 update-source lo\n \
         neighbor 10.0.0.2 password 0 two words\n",
    );
    assert_eq!(out.peers[0].peer_as, Some(64513));
    assert_eq!(out.peers[0].remote_port.as_deref(), Some("1179"));
    assert_eq!(out.peers[0].bfd, Some(true));
    assert_eq!(out.peers[0].md5_key.as_deref(), Some("two words"));
    assert_eq!(
        out.peers[0].unmapped,
        vec!["neighbor 10.0.0.2 bfd profile fast"]
    );
}

/// A policy value that the daemon does not take is noted in place of being
/// converted.
#[test]
fn frr_values_the_daemon_refuses_are_noted() {
    let out = translate_frr(
        "ip prefix-list X permit any\nip prefix-list X permit 10.0.0.0/33\n\
         ip prefix-list X permit 10.0.0/8\nip prefix-list X seq 5 permit 10.0.0.0/8 le 24\n\
         bgp community-list standard C permit 65000:1 internet\n\
         bgp community-list standard D permit 65000:1 no-export\n\
         route-map M permit 10\n set as-path prepend last-as 3\n \
         set ip next-hop peer-address\n set community 65000:70000 additive\n\
         route-map M permit 20\n set as-path prepend 65000 65000\n set ip next-hop 10.0.0.1\n \
         set community 65000:7 additive\n match community D\n",
    );
    assert_eq!(
        out.unmapped_global,
        vec![
            "ip prefix-list X permit any",
            "ip prefix-list X permit 10.0.0.0/33",
            "ip prefix-list X permit 10.0.0/8",
            "bgp community-list standard C permit 65000:1 internet",
        ]
    );
    assert_eq!(out.prefix_lists.len(), 1);
    assert_eq!(out.prefix_lists[0].prefix, "10.0.0.0/8");
    assert_eq!(out.prefix_lists[0].le, Some(24));
    assert_eq!(out.community_lists.len(), 1);
    assert_eq!(
        out.route_maps[0].unmapped,
        vec![
            "set as-path prepend last-as 3",
            "set ip next-hop peer-address",
            "set community 65000:70000 additive",
        ]
    );
    assert_eq!(out.route_maps[0].prepend, None);
    assert_eq!(out.route_maps[0].set_next_hop, None);
    assert_eq!(out.route_maps[0].add_community, None);
    assert!(out.route_maps[1].unmapped.is_empty());
    assert_eq!(out.route_maps[1].prepend.as_deref(), Some("65000 65000"));
    assert_eq!(out.route_maps[1].set_next_hop.as_deref(), Some("10.0.0.1"));
    assert_eq!(out.route_maps[1].add_community.as_deref(), Some("65000:7"));
}

/// The policy takes addresses and prefixes of both families.
#[test]
fn frr_policies_take_both_families() {
    let out = translate_frr(
        "ip prefix-list X seq 5 permit 2001:db8::/32 le 48\nip prefix-list X seq 6 permit ::/0\n\
         ip prefix-list X seq 7 permit 2001:db8::/129\nip prefix-list X seq 8 permit 10.0.0.0/+8\n\
         route-map M permit 10\n set ip next-hop 2001:db8::1\n",
    );
    assert_eq!(out.prefix_lists.len(), 3);
    assert_eq!(out.prefix_lists[0].prefix, "2001:db8::/32");
    assert_eq!(out.prefix_lists[1].prefix, "::/0");
    assert_eq!(
        out.unmapped_global,
        vec!["ip prefix-list X seq 7 permit 2001:db8::/129"]
    );
    assert_eq!(out.route_maps[0].set_next_hop.as_deref(), Some("2001:db8::1"));
    assert!(out.route_maps[0].unmapped.is_empty());
}

/// What is an address, and what is none.
#[test]
fn addresses_are_those_of_the_grammar() {
    let cases = [
        ("0.0.0.0", true),
        ("255.255.255.255", true),
        ("256.1.1.1", false),
        ("01.1.1.1", false),
        ("+1.1.1.1", false),
        ("1.1.1", false),
        ("1.1.1.1.1", false),
        ("::", true),
        ("::1", true),
        ("1::", true),
        ("1:2:3:4:5:6:7:8", true),
        ("1:2:3:4:5:6:7::", true),
        ("::2:3:4:5:6:7:8", true),
        ("1:2:3:4:5:6:7::8", false),
        ("1:2:3:4:5:6:7", false),
        ("1:2:3:4:5:6:7:8:9", false),
        ("1::2::3", false),
        (":::", false),
        (":1", false),
        ("1:", false),
        ("12345::", false),
        ("g::", false),
        ("ABCD:ef::", true),
        ("::1.2.3.4", true),
        ("1:2:3:4:5:6:1.2.3.4", true),
        ("1:2:3:4:5:6:7:1.2.3.4", false),
        ("1::2:3:4:5:6:1.2.3.4", false),
        ("1::3:4:5:6:1.2.3.4", true),
        ("1.2.3.4::", false),
        ("::1.2.3.4:5", false),
        ("", false),
        ("peer-address", false),
    ];
    for (text, good) in cases {
        assert_eq!(is_address(text), good, "{text}");
    }
    assert!(is_prefix("fe80::/10"));
    assert!(is_prefix("10.0.0.0/32"));
    assert!(!is_prefix("10.0.0.0/33"));
    assert!(!is_prefix("10.0.0.0"));
}

/// A number, an action or a tail that is not understood leaves a note.
#[test]
fn frr_parts_not_understood_are_noted() {
    let lines = [
        "ip prefix-list X seq five permit 10.0.0.0/8",
        "ip prefix-list X permit 10.0.0.0/8 ge x",
        "ip prefix-list X permit 10.0.0.0/8 le",
        "ip prefix-list X permit 10.0.0.0/8 eq 9",
        "route-map M permit ten",
        "route-map N maybe 10",
        "bgp as-path access-list A seq 5 permit _65000_",
        "router bgp 1.10",
        "network 10.0.0.0/8 route-map M",
    ];
    for line in lines {
        let out = translate_frr(line);
        assert_eq!(out.unmapped_global, vec![line], "{line}");
    }
    for line in [
        "ip prefix-list X seq 7 permit 10.0.0.0/8 ge 9 le 24",
        "route-map M deny 20",
        "bgp as-path access-list A deny _65000_",
        "router bgp 65000",
        "network 10.0.0.0/8",
    ] {
        assert!(translate_frr(line).unmapped_global.is_empty(), "{line}");
    }
    let out = translate_frr("route-map M permit 10\n match community C exact-match\n");
    assert_eq!(out.route_maps[0].unmapped[0], "match community C exact-match");
}

/// Entries of one sequence number keep their order, and none is lost.
#[test]
fn prefix_lists_keep_the_order_of_equal_numbers() {
    let toml = render(&translate_frr(
        "ip prefix-list X seq 20 permit 10.0.0.0/8\nip prefix-list X seq 5 permit 11.0.0.0/8\n\
         ip prefix-list X seq 20 permit 9.0.0.0/8\nip prefix-list X seq 5 permit 12.0.0.0/8\n",
    ));
    let found: Vec<String> = tables(&toml)
        .iter()
        .filter(|t| t.name.contains("prefix-list"))
        .filter_map(|t| t.text("prefix"))
        .collect();
    assert_eq!(
        found,
        vec!["11.0.0.0/8", "12.0.0.0/8", "10.0.0.0/8", "9.0.0.0/8"]
    );
}

/// What stands before an interface block is noted whatever follows.
#[test]
fn babel_statements_before_an_interface_are_noted() {
    let mut p = BabelProto::default();
    absorb_babel_line(&mut p, "protocol babel b1 {");
    assert!(p.iface_notes.is_empty());
    absorb_babel_line(&mut p, "randomize router id yes;");
    absorb_babel_line(&mut p, "interface \"eth0\" {");
    assert_eq!(p.iface.as_ref().and_then(|b| b.name.as_deref()), Some("eth0"));
    let note =
        "protocol-level babel statement `randomize` — lr carries it per [[babel.interface]]";
    let held = |p: &BabelProto| {
        p.iface_notes.iter().any(|n| n == note)
            || p.ifaces.iter().any(|i| i.notes.iter().any(|n| n == note))
    };
    assert!(held(&p));
    absorb_babel_line(&mut p, "};");
    absorb_babel_line(&mut p, "interface \"eth1\" {");
    absorb_babel_line(&mut p, "}");
    finish_babel_iface(&mut p);
    assert!(held(&p));
    let toml = render(&bird(
        "router id 1.1.1.1;\nprotocol babel b1 {\n\trandomize router id yes;\n\
         \tinterface \"eth0\" {\n\t};\n\tinterface \"eth1\" {\n\t};\n}\n",
    ));
    assert!(toml.contains(note));
}

/// A Babel parameter that is not understood is noted, and a block may stand on
/// one line.
#[test]
fn babel_parameters_not_understood_are_noted() {
    let mut p = BabelProto::default();
    absorb_babel_line(&mut p, "interface \"eth0\" {");
    for line in ["rxcost many;", "rtt decay 42;", "rtt min 5000 s;", "hello interval 1e1;", "port zero;"] {
        let before = p.iface_notes.len();
        absorb_babel_line(&mut p, line);
        assert_eq!(p.iface_notes.len(), before + 1, "{line}");
    }
    absorb_babel_line(&mut p, "rxcost 96;");
    assert_eq!(p.iface_notes.len(), 5);
    absorb_babel_line(&mut p, "rtt max 4000 s;");
    assert_eq!(p.iface_notes.len(), 5);
    assert_eq!(
        p.iface.as_ref().and_then(|b| b.rtt_max_us),
        Some(4_000_000_000)
    );

    let out = bird("protocol babel b1 {\n\tinterface \"eth0\" { rxcost 96; rtt cost 9; };\n}\n");
    assert_eq!(out.babel_ifaces.len(), 1);
    assert_eq!(out.babel_ifaces[0].spec.rxcost, Some(96));
}

/// A `define` that is none, and a ROA line that is none, are kept as comments.
#[test]
fn bird_lines_that_do_not_parse_are_noted() {
    let toml = render(&bird(
        "define NOTHING;\ndefine A-B = 5;\nroa table r {\n\troa 10.0.0.0/8 max 24;\n\
         \troa 10.0.0.0/8 max 24 as 64512;\n}\n",
    ));
    for note in ["define NOTHING;", "define A-B = 5;", "roa 10.0.0.0/8 max 24"] {
        assert!(toml.contains(&format!("# UNMAPPED: {note}")), "{note}\n{toml}");
    }
}
