//! Verified core of the `lr` routing command-line tools.

pub mod address;
pub mod babel;
pub mod babel_laws;
pub mod binding_laws;
pub mod bird;
pub mod bird_block_laws;
pub mod bird_config;
pub mod bird_filter;
pub mod bird_filter_laws;
pub mod bird_laws;
pub mod bird_notes;
pub mod bird_peer_laws;
pub mod bird_scan;
pub mod bird_set;
pub mod bird_tokens;
pub mod capture;
pub mod command_laws;
pub mod commands;
pub mod conf;
pub mod ctl;
pub mod directive_laws;
pub mod directives;
pub mod dump_laws;
pub mod exchange;
pub mod exposition;
pub mod filters;
pub mod flow_laws;
pub mod frr;
pub mod frr_compile;
pub mod frr_laws;
pub mod frr_line_laws;
pub mod frr_values;
pub mod grace;
pub mod grace_laws;
pub mod hex;
pub mod line_laws;
pub mod metric_laws;
pub mod metrics;
pub mod mrt;
pub mod ospf3;
pub mod ospf3_daemon;
pub mod ospf3_link_laws;
pub mod ospf3_plan;
pub mod ospf3_segment_laws;
pub mod ospf3_timers;
pub mod ospf;
pub mod ospf_daemon;
pub mod ospf_grace;
pub mod ospf_laws;
pub mod ospf_link_laws;
pub mod ospf_segment;
pub mod ospf_session_laws;
pub mod ospf_start;
pub mod ospf_state_laws;
pub mod ospf_timers;
pub mod policy;
pub mod policy_laws;
pub mod privdrop;
pub mod render;
pub mod render_laws;
pub mod render_part_laws;
pub mod render_value_laws;
pub mod rib_diff;
pub mod rpki;
pub mod signal;
pub mod srv6;
pub mod table;
pub mod text;
pub mod text_laws;
pub mod trace;
pub mod view_laws;
pub mod wire;
pub mod wire_laws;
pub mod yang;
