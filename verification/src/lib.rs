//! Dump installed desktop applications as `name,icon,exec` lines: the
//! verified core of the launcher list (filtering, field-code stripping,
//! dedupe and disambiguation, category filters and argument parsing).
pub mod args;
pub mod category_filter;
pub mod dedupe;
pub mod desktop_entry;
pub mod exec_cleanup;
pub mod field_code_regex;
pub mod text;
pub mod xdg;
