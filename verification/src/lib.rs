pub mod errors;
pub mod fetch;
pub mod filters;
pub mod present;
pub mod records;
pub mod region;
pub mod universe;

pub use errors::PickError;
pub use fetch::{FetchModel, FetchState, Page, PageModel, PageReservation, ReservationModel};
pub use filters::{
    build_filter_groups, parse_filter_clause, parse_filter_group, running_filter, split_string,
    FilterModel, FilterSpec,
};
pub use present::{present, render_line, Presentation};
pub use records::{InstanceRecord, RecordModel, Tag, TagModel};
pub use region::resolve_region;
pub use universe::{build_universe, Universe};
