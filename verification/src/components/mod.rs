//! The UI components: each keeps its own state, reacts to keys and actions,
//! and exposes what the renderer draws.

pub mod alert_panel;
pub mod analytics_panel;
pub mod autocomplete;
pub mod detail_panel;
pub mod diff_view;
pub mod filter_panel;
pub mod health_dashboard;
pub mod help;
pub mod histogram;
pub mod incident_timeline;
pub mod input;
pub mod live_dashboard;
pub mod terminal_keys;
pub mod log_viewer;
pub mod nl_query;
pub mod query_bar;
pub mod regex_playground;
pub mod saved_views;
pub mod search_bar;
pub mod source_picker;
pub mod sparkline;
pub mod stats_panel;
pub mod status_bar;
pub mod tab_bar;
pub mod time_picker;
pub mod trace_waterfall;
