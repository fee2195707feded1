//! Two-dimensional FDTD wave propagation: field storage, configuration
//! validation, and the per-step update schedule (which cells take which
//! update rule, the boundary precedence at corners, obstacle masking and
//! source stamping).

mod grid;
mod layout;
mod schedule;

pub use grid::{offset_of, Grid, GridError};
pub use layout::{
    covered, last_source_at, no_source_at, too_small, Boundary, ConfigError, Layout, Region, Site,
};
pub use schedule::{
    electric_rule_of, is_electric_order, lemma_mur_after_inward, lemma_obstacle_cells_zeroed, lemma_schedule_in_range,
    lemma_source_cells_stamped, listed, magnetic_rule_of, runs_before, stage_at, stage_of, stamp_fits, ElectricRule, MagneticRule,
    Schedule, Stamp,
};
