//! A view says what its value holds, part by part.

use crate::babel;
use crate::bird;
use crate::bird_filter;
use crate::bird_scan;
use crate::bird_set;
use crate::bird_tokens;
use crate::capture;
use crate::commands;
use crate::conf;
use crate::ctl;
use crate::exchange;
use crate::exposition;
use crate::filters;
use crate::frr;
use crate::metrics;
use crate::mrt;
use crate::ospf3_daemon;
use crate::ospf_segment;
use crate::policy;
use crate::rib_diff;
use crate::rpki;
use crate::yang;
use crate::text::{fail_view, opt_view, views};
use vstd::prelude::*;

verus! {

/// The view of a list is the list of the views, and that of an option the option
/// of the view.
pub proof fn views_go_item_by_item<T: View>(v: Seq<T>, i: int, x: T)
    requires
        0 <= i < v.len(),
    ensures
        views(v).len() == v.len(),
        views(v)[i] == v[i]@,
        opt_view(Some(x)) == Some(x@),
        opt_view(None::<T>) == None::<T::V>,
{
}

/// The view of a Babel stanza has each part under its own name.
pub proof fn views_of_babel_keep_their_parts(babel_proto: babel::BabelProto)
    ensures
        babel_proto@.iface == opt_view(babel_proto.iface),
        babel_proto@.iface_notes == views(babel_proto.iface_notes@),
        babel_proto@.next_hop_v4 == opt_view(babel_proto.next_hop_v4),
        babel_proto@.next_hop_v6 == opt_view(babel_proto.next_hop_v6),
        babel_proto@.ifaces == views(babel_proto.ifaces@),
{
}

/// The view of a scan has each part under its own name.
pub proof fn views_of_bird_keep_their_parts(bird_state: bird::BirdState)
    ensures
        bird_state@.out == bird_state.out@,
        bird_state@.current == opt_view(bird_state.current),
        bird_state@.depth_in_peer == bird_state.depth_in_peer as nat,
        bird_state@.in_static == bird_state.in_static,
        bird_state@.static_depth == bird_state.static_depth as nat,
        bird_state@.other_depth == bird_state.other_depth as nat,
        bird_state@.capture == opt_view(bird_state.capture),
        bird_state@.src == bird_state.src@,
        bird_state@.pending == views(bird_state.pending@),
{
}

/// The view of a context has each part under its own name.
pub proof fn views_of_bird_filter_keep_their_parts(ctx: bird_filter::Ctx)
    ensures
        ctx@.defines == views(ctx.defines@),
        ctx@.roa_tables == ctx.roa_tables as nat,
{
}

/// The view of what is scanned has each part under its own name.
pub proof fn views_of_bird_scan_keep_their_parts(
    pending_filter: bird_scan::PendingFilter,
    capture_kind: bird_scan::CaptureKind,
    bird_capture: bird_scan::BirdCapture,
)
    ensures
        pending_filter@.peer == pending_filter.peer@,
        pending_filter@.import == pending_filter.import,
        pending_filter@.inline == pending_filter.inline,
        pending_filter@.text == pending_filter.text@,
        match capture_kind {
            bird_scan::CaptureKind::Filter(n) => capture_kind@ == bird_scan::CaptureKindModel::Filter(n@),
            bird_scan::CaptureKind::Function(n) => capture_kind@ == bird_scan::CaptureKindModel::Function(n@),
            bird_scan::CaptureKind::RoaTable => capture_kind@ == bird_scan::CaptureKindModel::RoaTable,
            bird_scan::CaptureKind::Babel(p) => capture_kind@ == bird_scan::CaptureKindModel::Babel(p@),
        },
        bird_capture@.kind == bird_capture.kind@,
        bird_capture@.text == bird_capture.text@,
        bird_capture@.opened == bird_capture.opened as nat,
        bird_capture@.closed == bird_capture.closed as nat,
        bird_capture@.seen_brace == bird_capture.seen_brace,
        bird_capture@.rows == views(bird_capture.rows@),
        bird_capture@.notes == views(bird_capture.notes@),
{
}

/// The view of the filters of a source has each part under its own name.
pub proof fn views_of_bird_set_keep_their_parts(
    bird_filter_source: bird_set::BirdFilterSource,
    function_draft: bird_set::FunctionDraft,
    filter_draft: bird_set::FilterDraft,
    translated_filters: bird_set::TranslatedFilters,
)
    ensures
        bird_filter_source@.defines == views(bird_filter_source.defines@),
        bird_filter_source@.functions == views(bird_filter_source.functions@),
        bird_filter_source@.filters == views(bird_filter_source.filters@),
        bird_filter_source@.roa_tables == views(bird_filter_source.roa_tables@),
        function_draft@.name == function_draft.name@,
        function_draft@.decl == opt_view(function_draft.decl),
        function_draft@.notes == views(function_draft.notes@),
        filter_draft@.name == filter_draft.name@,
        filter_draft@.draft == bird_filter::translated_view(filter_draft.draft),
        translated_filters@.ok == views(translated_filters.ok@),
        translated_filters@.failed == views(translated_filters.failed@),
{
}

/// The view of a token has each part under its own name.
pub proof fn views_of_bird_tokens_keep_their_parts(token: bird_tokens::Token)
    ensures
        token@.kind == token.kind,
        token@.start == token.start as int,
        token@.end == token.end as int,
{
}

/// The view of a capture has each part under its own name.
pub proof fn views_of_capture_keep_their_parts(capture_record: capture::CaptureRecord)
    ensures
        capture_record@.dir == capture_record.dir@,
        capture_record@.hex == capture_record.hex@,
{
}

/// The view of a command line has each part under its own name.
pub proof fn views_of_commands_keep_their_parts(
    refusal: commands::Refusal,
    replay_config: commands::ReplayConfig,
    replay_args: commands::ReplayArgs,
)
    ensures
        refusal@.message == refusal.message@,
        refusal@.code == refusal.code,
        replay_config@.capture == replay_config.capture@,
        replay_config@.direction == replay_config.direction@,
        replay_config@.local_as == replay_config.local_as,
        replay_config@.peer_as == replay_config.peer_as,
        replay_config@.router_id == replay_config.router_id@,
        replay_config@.output == replay_config.output@,
        match replay_args {
            commands::ReplayArgs::Run(c) => replay_args@ == commands::ReplayArgsModel::Run(c@),
            commands::ReplayArgs::Usage(m) => replay_args@ == commands::ReplayArgsModel::Usage(opt_view(m)),
            commands::ReplayArgs::Bad(m) => replay_args@ == commands::ReplayArgsModel::Bad(m@),
        },
{
}

/// The view of a converted configuration has each part under its own name.
pub proof fn views_of_conf_keep_their_parts(
    lr_directive: conf::LrDirective,
    peer_out: conf::PeerOut,
    prefix_list_row: conf::PrefixListRow,
    route_map_row: conf::RouteMapRow,
    as_path_list_row: conf::AsPathListRow,
    community_list_row: conf::CommunityListRow,
    named: conf::Named,
    named_lines: conf::NamedLines,
    roa_row: conf::RoaRow,
    roa_table: conf::RoaTable,
    babel_interface_spec: conf::BabelInterfaceSpec,
    babel_row: conf::BabelRow,
    config_out: conf::ConfigOut,
)
    ensures
        lr_directive@.key == lr_directive.key@,
        lr_directive@.value == opt_view(lr_directive.value),
        peer_out@.name == opt_view(peer_out.name),
        peer_out@.remote == opt_view(peer_out.remote),
        peer_out@.remote_port == opt_view(peer_out.remote_port),
        peer_out@.peer_as == peer_out.peer_as,
        peer_out@.local_address == opt_view(peer_out.local_address),
        peer_out@.md5_key == opt_view(peer_out.md5_key),
        peer_out@.hold_time == peer_out.hold_time,
        peer_out@.bfd == peer_out.bfd,
        peer_out@.default_ipv4_unicast == peer_out.default_ipv4_unicast,
        peer_out@.import == opt_view(peer_out.import),
        peer_out@.export == opt_view(peer_out.export),
        peer_out@.import_filter == opt_view(peer_out.import_filter),
        peer_out@.export_filter == opt_view(peer_out.export_filter),
        peer_out@.families == views(peer_out.families@),
        peer_out@.channel_v4 == peer_out.channel_v4,
        peer_out@.channel_v6 == peer_out.channel_v6,
        peer_out@.tcp_ao_keys == views(peer_out.tcp_ao_keys@),
        peer_out@.ext == views(peer_out.ext@),
        peer_out@.unmapped == views(peer_out.unmapped@),
        prefix_list_row@.name == prefix_list_row.name@,
        prefix_list_row@.seq == prefix_list_row.seq,
        prefix_list_row@.permit == prefix_list_row.permit,
        prefix_list_row@.prefix == prefix_list_row.prefix@,
        prefix_list_row@.ge == prefix_list_row.ge,
        prefix_list_row@.le == prefix_list_row.le,
        route_map_row@.name == route_map_row.name@,
        route_map_row@.entry == route_map_row.entry,
        route_map_row@.permit == route_map_row.permit,
        route_map_row@.match_prefix == opt_view(route_map_row.match_prefix),
        route_map_row@.match_as_path == opt_view(route_map_row.match_as_path),
        route_map_row@.match_community == opt_view(route_map_row.match_community),
        route_map_row@.set_local_pref == route_map_row.set_local_pref,
        route_map_row@.set_med == route_map_row.set_med,
        route_map_row@.set_next_hop == opt_view(route_map_row.set_next_hop),
        route_map_row@.prepend == opt_view(route_map_row.prepend),
        route_map_row@.add_community == opt_view(route_map_row.add_community),
        route_map_row@.unmapped == views(route_map_row.unmapped@),
        as_path_list_row@.name == as_path_list_row.name@,
        as_path_list_row@.pattern == as_path_list_row.pattern@,
        as_path_list_row@.permit == as_path_list_row.permit,
        community_list_row@.name == community_list_row.name@,
        community_list_row@.communities == views(community_list_row.communities@),
        community_list_row@.permit == community_list_row.permit,
        named@.name == named.name@,
        named@.text == named.text@,
        named_lines@.name == named_lines.name@,
        named_lines@.lines == views(named_lines.lines@),
        roa_row@.prefix == roa_row.prefix@,
        roa_row@.max_length == roa_row.max_length,
        roa_row@.asn == roa_row.asn,
        roa_table@ == views(roa_table.rows@),
        babel_interface_spec@.name == opt_view(babel_interface_spec.name),
        babel_interface_spec@.kind == opt_view(babel_interface_spec.kind),
        babel_interface_spec@.hello_interval_ms == babel_interface_spec.hello_interval_ms,
        babel_interface_spec@.update_interval_ms == babel_interface_spec.update_interval_ms,
        babel_interface_spec@.rxcost == babel_interface_spec.rxcost,
        babel_interface_spec@.rtt_cost == babel_interface_spec.rtt_cost,
        babel_interface_spec@.rtt_min_us == babel_interface_spec.rtt_min_us,
        babel_interface_spec@.rtt_max_us == babel_interface_spec.rtt_max_us,
        babel_interface_spec@.next_hop_ipv4 == opt_view(babel_interface_spec.next_hop_ipv4),
        babel_interface_spec@.next_hop_ipv6 == opt_view(babel_interface_spec.next_hop_ipv6),
        babel_interface_spec@.extended_next_hop == babel_interface_spec.extended_next_hop,
        babel_interface_spec@.check_link == babel_interface_spec.check_link,
        babel_interface_spec@.port == babel_interface_spec.port,
        babel_row@.spec == babel_row.spec@,
        babel_row@.notes == views(babel_row.notes@),
        config_out@.local_as == config_out.local_as,
        config_out@.router_id == opt_view(config_out.router_id),
        config_out@.networks == views(config_out.networks@),
        config_out@.peers == views(config_out.peers@),
        config_out@.prefix_lists == views(config_out.prefix_lists@),
        config_out@.as_path_lists == views(config_out.as_path_lists@),
        config_out@.community_lists == views(config_out.community_lists@),
        config_out@.route_maps == views(config_out.route_maps@),
        config_out@.filters == views(config_out.filters@),
        config_out@.roas == views(config_out.roas@),
        config_out@.failed_filters == views(config_out.failed_filters@),
        config_out@.babel_ifaces == views(config_out.babel_ifaces@),
        config_out@.unmapped_global == views(config_out.unmapped_global@),
        config_out@.ext_global == views(config_out.ext_global@),
        config_out@.ignored_protocols == views(config_out.ignored_protocols@),
        config_out@.enforce_first_as == config_out.enforce_first_as,
{
}

/// The view of a command has each part under its own name.
pub proof fn views_of_ctl_keep_their_parts(ctl_command: ctl::CtlCommand)
    ensures
        match ctl_command {
            ctl::CtlCommand::Version => ctl_command@ == ctl::CtlModel::Version,
            ctl::CtlCommand::Help => ctl_command@ == ctl::CtlModel::Help,
            ctl::CtlCommand::Proxy(c) => ctl_command@ == ctl::CtlModel::Proxy(c@),
            ctl::CtlCommand::Show(p) => ctl_command@ == ctl::CtlModel::Show(opt_view(p)),
            ctl::CtlCommand::Compile(b) => ctl_command@ == ctl::CtlModel::Compile(b@),
            ctl::CtlCommand::Stop { message, usage, code } => ctl_command@ == (ctl::CtlModel::Stop {
                message: message@,
                usage: usage,
                code: code,
            }),
        },
{
}

/// The view of a round trip has each part under its own name.
pub proof fn views_of_exchange_keep_their_parts(
    trip_event: exchange::TripEvent,
    trip_action: exchange::TripAction,
)
    ensures
        match trip_event {
            exchange::TripEvent::NoSockets => trip_event@ == exchange::TripEventModel::NoSockets,
            exchange::TripEvent::Connected => trip_event@ == exchange::TripEventModel::Connected,
            exchange::TripEvent::ConnectFailed(e) => trip_event@ == exchange::TripEventModel::ConnectFailed(e@),
            exchange::TripEvent::Written => trip_event@ == exchange::TripEventModel::Written,
            exchange::TripEvent::Sent => trip_event@ == exchange::TripEventModel::Sent,
            exchange::TripEvent::SendFailed { stage, error } => trip_event@ == (exchange::TripEventModel::SendFailed {
                stage: stage,
                error: error@,
            }),
            exchange::TripEvent::Bytes(b) => trip_event@ == exchange::TripEventModel::Bytes(b@),
            exchange::TripEvent::Quiet { late } => trip_event@ == (exchange::TripEventModel::Quiet { late: late }),
            exchange::TripEvent::Closed => trip_event@ == exchange::TripEventModel::Closed,
            exchange::TripEvent::ReadFailed(e) => trip_event@ == exchange::TripEventModel::ReadFailed(e@),
        },
        match trip_action {
            exchange::TripAction::Write(t) => trip_action@ == exchange::TripActionModel::Write(t@),
            exchange::TripAction::Send { newline } => trip_action@ == (exchange::TripActionModel::Send { newline: newline }),
            exchange::TripAction::Read => trip_action@ == exchange::TripActionModel::Read,
            exchange::TripAction::Wait => trip_action@ == exchange::TripActionModel::Wait,
            exchange::TripAction::Done => trip_action@ == exchange::TripActionModel::Done,
            exchange::TripAction::Fail(e) => trip_action@ == exchange::TripActionModel::Fail(e@),
        },
{
}

/// The view of the metrics has each part under its own name.
pub proof fn views_of_exposition_keep_their_parts(
    metrics_info: exposition::MetricsInfo,
    session_summary: exposition::SessionSummary,
    tally_row: exposition::TallyRow,
)
    ensures
        metrics_info@.version == metrics_info.version@,
        metrics_info@.local_as == metrics_info.local_as,
        metrics_info@.router_id == metrics_info.router_id@,
        session_summary@.handle == session_summary.handle,
        session_summary@.kind == session_summary.kind@,
        session_summary@.state == session_summary.state@,
        session_summary@.established == session_summary.established,
        session_summary@.adj_rib_in_len == session_summary.adj_rib_in_len,
        session_summary@.updates_received == session_summary.updates_received,
        session_summary@.updates_sent == session_summary.updates_sent,
        session_summary@.peer == session_summary.peer@,
        tally_row@.kind == tally_row.kind@,
        tally_row@.state == tally_row.state@,
        tally_row@.n == tally_row.n as nat,
{
}

/// The view of bindings and filters has each part under its own name.
pub proof fn views_of_filters_keep_their_parts(
    peer_policy: filters::PeerPolicy,
    binding: filters::Binding,
    filter_spec: filters::FilterSpec,
    roa_spec: filters::RoaSpec,
)
    ensures
        peer_policy@.label == peer_policy.label@,
        peer_policy@.import == opt_view(peer_policy.import),
        peer_policy@.export == opt_view(peer_policy.export),
        binding@.peer == binding.peer as int,
        binding@.import == binding.import,
        binding@.name == binding.name@,
        filter_spec@.name == opt_view(filter_spec.name),
        filter_spec@.body == opt_view(filter_spec.body),
        filter_spec@.fault == (match filter_spec.fault {
                Some(f) => Some((f.message@, f.snippet@)),
                None => None,
            }),
        roa_spec@.prefix == opt_view(roa_spec.prefix),
        roa_spec@.asn == roa_spec.asn,
        roa_spec@.fault == opt_view(roa_spec.fault),
{
}

/// The view of a scan has each part under its own name.
pub proof fn views_of_frr_keep_their_parts(frr_state: frr::FrrState)
    ensures
        frr_state@.out == frr_state.out@,
        frr_state@.af == opt_view(frr_state.af),
        frr_state@.skipping == frr_state.skipping,
{
}

/// The view of a histogram has each part under its own name.
pub proof fn views_of_metrics_keep_their_parts(
    duration_histogram: metrics::DurationHistogram,
    filter_series: metrics::FilterSeries,
    filter_metrics_registry: metrics::FilterMetricsRegistry,
)
    ensures
        duration_histogram@.counts == duration_histogram.counts@,
        duration_histogram@.sum_ns == duration_histogram.sum_ns,
        duration_histogram@.count == duration_histogram.count,
        filter_series@.direction == filter_series.direction,
        filter_series@.filter == filter_series.filter@,
        filter_series@.histogram == filter_series.histogram@,
        filter_metrics_registry@ == views(filter_metrics_registry.entries@),
{
}

/// The view of a dump has each part under its own name.
pub proof fn views_of_mrt_keep_their_parts(
    peer_entry: mrt::PeerEntry,
    peer_index_table: mrt::PeerIndexTable,
    rib_entry: mrt::RibEntry,
    rib_table: mrt::RibTable,
    mrt_record: mrt::MrtRecord,
    table_plan: mrt::TablePlan,
)
    ensures
        peer_entry@.bgp_id == peer_entry.bgp_id,
        peer_entry@.ip == peer_entry.ip@,
        peer_entry@.asn == peer_entry.asn@,
        peer_index_table@.collector_bgp_id == peer_index_table.collector_bgp_id,
        peer_index_table@.view_name == peer_index_table.view_name@,
        peer_index_table@.peers == views(peer_index_table.peers@),
        rib_entry@.peer_index == rib_entry.peer_index,
        rib_entry@.path_id == rib_entry.path_id,
        rib_entry@.as_path == rib_entry.as_path@,
        rib_entry@.next_hop == opt_view(rib_entry.next_hop),
        rib_table@.sequence == rib_table.sequence,
        rib_table@.prefix == rib_table.prefix@,
        rib_table@.add_path == rib_table.add_path,
        rib_table@.entries == views(rib_table.entries@),
        match mrt_record {
            mrt::MrtRecord::PeerIndexTable(t) => mrt_record@ == mrt::RecordModel::PeerIndexTable(t@),
            mrt::MrtRecord::Rib(t) => mrt_record@ == mrt::RecordModel::Rib(t@),
            mrt::MrtRecord::StateChange { peer_as, local_as, old_state, new_state } => mrt_record@ == (mrt::RecordModel::StateChange {
                peer_as: peer_as@,
                local_as: local_as@,
                old_state: old_state@,
                new_state: new_state@,
            }),
            mrt::MrtRecord::Message { peer_as, local_as, message } => mrt_record@ == (mrt::RecordModel::Message {
                peer_as: peer_as@,
                local_as: local_as@,
                message: message@,
            }),
            mrt::MrtRecord::Unknown { msg_type, subtype } => mrt_record@ == (mrt::RecordModel::Unknown {
                msg_type: msg_type,
                subtype: subtype,
            }),
        },
        table_plan@.sequence == table_plan.sequence,
        table_plan@.prefix == table_plan.prefix,
        table_plan@.add_path == table_plan.add_path,
        table_plan@.routes == table_plan.routes@.map_values(|i: usize| i as int),
{
}

/// The view of a request has each part under its own name.
pub proof fn views_of_ospf3_daemon_keep_their_parts(request: ospf3_daemon::Request)
    ensures
        request@.kind == request.kind,
        request@.prefixes == request.prefixes@,
        request@.routers == request.routers@,
        request@.prev == request.prev,
{
}

/// The view of a plan has each part under its own name.
pub proof fn views_of_ospf_segment_keep_their_parts(network_plan: ospf_segment::NetworkPlan)
    ensures
        match network_plan {
            ospf_segment::NetworkPlan::Keep => network_plan@ == ospf_segment::NetworkDecision::Keep,
            ospf_segment::NetworkPlan::Originate { mask, attached, prev } => network_plan@ == (ospf_segment::NetworkDecision::Originate {
                mask,
                attached: attached@,
                prev,
            }),
            ospf_segment::NetworkPlan::Flush { mask, held } => network_plan@ == (ospf_segment::NetworkDecision::Flush { mask, held }),
            ospf_segment::NetworkPlan::Forget => network_plan@ == ospf_segment::NetworkDecision::Forget,
        },
{
}

/// The view of policies has each part under its own name.
pub proof fn views_of_policy_keep_their_parts(
    prefix_list_spec: policy::PrefixListSpec,
    as_path_list_spec: policy::AsPathListSpec,
    community_list_spec: policy::CommunityListSpec,
    next_hop: policy::NextHop,
    route_map_spec: policy::RouteMapSpec,
    policy_tables: policy::PolicyTables,
    prefix_list_plan: policy::PrefixListPlan,
    as_path_plan: policy::AsPathPlan,
    community_plan: policy::CommunityPlan,
    m: policy::Match,
    set_action: policy::SetAction,
    entry_plan: policy::EntryPlan,
    policy_plan: policy::PolicyPlan,
)
    ensures
        prefix_list_spec@.name == prefix_list_spec.name@,
        prefix_list_spec@.prefix == prefix_list_spec.prefix@,
        prefix_list_spec@.ge == prefix_list_spec.ge,
        prefix_list_spec@.le == prefix_list_spec.le,
        prefix_list_spec@.permit == prefix_list_spec.permit,
        prefix_list_spec@.parsed == fail_view(prefix_list_spec.parsed),
        as_path_list_spec@.name == as_path_list_spec.name@,
        as_path_list_spec@.pattern == as_path_list_spec.pattern@,
        as_path_list_spec@.permit == as_path_list_spec.permit,
        community_list_spec@.name == community_list_spec.name@,
        community_list_spec@.communities == views(community_list_spec.communities@),
        community_list_spec@.permit == community_list_spec.permit,
        next_hop@.text == next_hop.text@,
        next_hop@.fault == opt_view(next_hop.fault),
        route_map_spec@.name == route_map_spec.name@,
        route_map_spec@.entry == route_map_spec.entry,
        route_map_spec@.match_prefix == opt_view(route_map_spec.match_prefix),
        route_map_spec@.match_as_path == opt_view(route_map_spec.match_as_path),
        route_map_spec@.match_community == opt_view(route_map_spec.match_community),
        route_map_spec@.set_local_pref == route_map_spec.set_local_pref,
        route_map_spec@.set_med == route_map_spec.set_med,
        route_map_spec@.set_metric == route_map_spec.set_metric,
        route_map_spec@.set_next_hop == opt_view(route_map_spec.set_next_hop),
        route_map_spec@.prepend == opt_view(route_map_spec.prepend),
        route_map_spec@.add_community == opt_view(route_map_spec.add_community),
        route_map_spec@.permit == route_map_spec.permit,
        policy_tables@.prefix_lists == views(policy_tables.prefix_lists@),
        policy_tables@.as_path_lists == views(policy_tables.as_path_lists@),
        policy_tables@.community_lists == views(policy_tables.community_lists@),
        policy_tables@.route_maps == views(policy_tables.route_maps@),
        prefix_list_plan@.name == prefix_list_plan.name@,
        prefix_list_plan@.prefix == prefix_list_plan.prefix@,
        prefix_list_plan@.ge == prefix_list_plan.ge,
        prefix_list_plan@.le == prefix_list_plan.le,
        prefix_list_plan@.permit == prefix_list_plan.permit,
        as_path_plan@.name == as_path_plan.name@,
        as_path_plan@.pattern == as_path_plan.pattern@,
        as_path_plan@.permit == as_path_plan.permit,
        community_plan@.name == community_plan.name@,
        community_plan@.communities == community_plan.communities@,
        community_plan@.permit == community_plan.permit,
        match m {
            policy::Match::Prefix(n) => m@ == policy::MatchModel::Prefix(n@),
            policy::Match::AsPath(n) => m@ == policy::MatchModel::AsPath(n@),
            policy::Match::Community(n) => m@ == policy::MatchModel::Community(n@),
        },
        match set_action {
            policy::SetAction::LocalPref(v) => set_action@ == policy::SetModel::LocalPref(v),
            policy::SetAction::Med(v) => set_action@ == policy::SetModel::Med(v),
            policy::SetAction::Metric(v) => set_action@ == policy::SetModel::Metric(v),
            policy::SetAction::NextHop(t) => set_action@ == policy::SetModel::NextHop(t@),
            policy::SetAction::PrependAs(v) => set_action@ == policy::SetModel::PrependAs(v),
            policy::SetAction::AddCommunity(v) => set_action@ == policy::SetModel::AddCommunity(v),
        },
        entry_plan@.name == entry_plan.name@,
        entry_plan@.matches == views(entry_plan.matches@),
        entry_plan@.sets == views(entry_plan.sets@),
        entry_plan@.verdict == entry_plan.verdict,
        policy_plan@.prefix_lists == views(policy_plan.prefix_lists@),
        policy_plan@.as_path_lists == views(policy_plan.as_path_lists@),
        policy_plan@.community_lists == views(policy_plan.community_lists@),
        policy_plan@.entries == views(policy_plan.entries@),
{
}

/// The view of a comparison has each part under its own name.
pub proof fn views_of_rib_diff_keep_their_parts(
    route_fingerprint: rib_diff::RouteFingerprint,
    entry_content: rib_diff::EntryContent,
    rib_content: rib_diff::RibContent,
    mismatch: rib_diff::Mismatch,
    diff_report: rib_diff::DiffReport,
)
    ensures
        route_fingerprint@.as_path == route_fingerprint.as_path@,
        route_fingerprint@.next_hop == route_fingerprint.next_hop@,
        route_fingerprint@.med == route_fingerprint.med,
        route_fingerprint@.communities == views(route_fingerprint.communities@),
        entry_content@.as_path == entry_content.as_path@,
        entry_content@.next_hop == opt_view(entry_content.next_hop),
        entry_content@.med == entry_content.med,
        entry_content@.communities == views(entry_content.communities@),
        rib_content@.prefix == rib_content.prefix,
        rib_content@.entries == views(rib_content.entries@),
        mismatch@.prefix == mismatch.prefix,
        mismatch@.in_a == views(mismatch.in_a@),
        mismatch@.in_b == views(mismatch.in_b@),
        diff_report@.only_in_a == diff_report.only_in_a@,
        diff_report@.only_in_b == diff_report.only_in_b@,
        diff_report@.mismatched == views(diff_report.mismatched@),
        diff_report@.identical == diff_report.identical as nat,
{
}

/// The view of a cache client has each part under its own name.
pub proof fn views_of_rpki_keep_their_parts(
    rpki_status: rpki::RpkiStatus,
    rpki_loop: rpki::RpkiLoop,
    rpki_action: rpki::RpkiAction,
)
    ensures
        rpki_status@.cache == rpki_status.cache@,
        rpki_status@.connected == rpki_status.connected,
        rpki_status@.version == rpki_status.version,
        rpki_status@.phase == rpki_status.phase@,
        rpki_status@.session_id == rpki_status.session_id,
        rpki_status@.serial == rpki_status.serial,
        rpki_status@.static_roas == rpki_status.static_roas,
        rpki_status@.rtr_roas == rpki_status.rtr_roas,
        rpki_status@.roas == rpki_status.roas,
        rpki_status@.refresh_interval == rpki_status.refresh_interval,
        rpki_status@.retry_interval == rpki_status.retry_interval,
        rpki_status@.expire_interval == rpki_status.expire_interval,
        rpki_status@.last_sync_age_s == rpki_status.last_sync_age_s,
        rpki_loop@.cache == rpki_loop.cache@,
        rpki_loop@.connected == rpki_loop.connected,
        rpki_loop@.buf == rpki_loop.buf@,
        rpki_loop@.last_sync == rpki_loop.last_sync,
        match rpki_action {
            rpki::RpkiAction::Print(t) => rpki_action@ == rpki::ActionModel::Print(t@),
            rpki::RpkiAction::ResetClient => rpki_action@ == rpki::ActionModel::ResetClient,
            rpki::RpkiAction::NewClient => rpki_action@ == rpki::ActionModel::NewClient,
            rpki::RpkiAction::SetIntervals { refresh, retry, expire } => rpki_action@ == (rpki::ActionModel::SetIntervals {
                refresh: refresh,
                retry: retry,
                expire: expire,
            }),
            rpki::RpkiAction::ApplyDeltas => rpki_action@ == rpki::ActionModel::ApplyDeltas,
            rpki::RpkiAction::ClearRtr => rpki_action@ == rpki::ActionModel::ClearRtr,
            rpki::RpkiAction::Synced => rpki_action@ == rpki::ActionModel::Synced,
            rpki::RpkiAction::Send => rpki_action@ == rpki::ActionModel::Send,
        },
{
}

/// The view of a document has each part under its own name.
pub proof fn views_of_yang_keep_their_parts(
    babel_key: yang::BabelKey,
    babel_config: yang::BabelConfig,
    yang_request: yang::YangRequest,
)
    ensures
        babel_key@.secret == opt_view(babel_key.secret),
        babel_key@.algorithm == opt_view(babel_key.algorithm),
        babel_config@.port == babel_config.port,
        babel_config@.group == opt_view(babel_config.group),
        babel_config@.group_is_address == babel_config.group_is_address,
        babel_config@.keys == views(babel_config.keys@),
        match yang_request {
            yang::YangRequest::Render { path, model } => yang_request@ == (yang::RequestModel::Render {
                path: path@,
                model: model,
            }),
            yang::YangRequest::Help => yang_request@ == yang::RequestModel::Help,
            yang::YangRequest::Refused { message, usage } => yang_request@ == (yang::RequestModel::Refused {
                message: message@,
                usage: usage,
            }),
        },
{
}

} // verus!
