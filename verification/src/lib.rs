//! Language statistics for a set of source repositories: which repositories
//! count, how their per-language byte counts add up to one ranked
//! distribution, and how that distribution is drawn as a vector chart.

pub mod aggregate;
pub mod bar_layout;
pub mod compact_layout;
pub mod decimal;
pub mod draw_svg;
pub mod exclusion;
pub mod fetch_gh_api;
pub mod get_language_color;
pub mod proportion;
