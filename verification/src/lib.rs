//! Projects a per-material, per-week running inventory balance from stock
//! snapshots, planned production demand and incoming purchase orders, then
//! classifies each projected balance against the material's delivery lead
//! time.
//!
//! Calendar dates are carried as day numbers counted from a fixed epoch that
//! falls on the week-start weekday; quantities are carried as scaled signed
//! integers, so that all balance arithmetic is exact.

mod classify;
mod errors;
mod init_data;
mod laws;
mod orders_plan;
mod pipeline;
mod projection;
mod reports;
mod source_id;
mod text;

pub use classify::{CellCategory, classify_cells, find_now_index};
pub use errors::PlanError;
pub use laws::{
    lemma_classification_boundary, lemma_merge_order_independence, lemma_pipeline_deterministic,
    lemma_stocks_plan_merged, merged_from, sources_keys, sources_qsum,
};
pub use init_data::{
    DeliveryTime, InitialData, PurchaseOrder, PurchasePlanItem, Specification, SpecificationItem,
    read_delivery_time_items,
};
pub use orders_plan::{
    BalanceLedger, MaterialInfo, append_qty, calculate_need_for_materials, calculate_stocks_plan,
    ledger_upsert,
};
pub use pipeline::{AnnotatedMatrix, check_date, run_pipeline, validate_week_alignment};
pub use projection::{ProjectionMatrix, build_projection_matrix, collect_dates_and_materials};
pub use reports::{correct_stocks, read_sp_material_names};
pub use source_id::parse_source_identifier;
pub use text::{str_eq, str_lt};
