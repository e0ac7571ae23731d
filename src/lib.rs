//! Dynamic parameter binding and server-side rendering for a small database
//! admin UI: request parameters are typed by a schema cache read from the
//! database, turned into statement arguments with numbered placeholders, and
//! the result rows are filled into HTML templates.
use vstd::prelude::*;

pub mod error_mod;
pub mod html_templating_mod;
pub mod postgres_mod;
pub mod postgres_type_mod;
pub mod server_side_multi_row_mod;
pub mod server_side_single_row_mod;
pub mod text_mod;
pub mod web_params_mod;

pub use error_mod::{time_epoch, LibError};
pub use html_templating_mod::{
    render_list, template_path, template_replace_fields_from_single_row, Column, ColumnValue,
};
pub use postgres_mod::{
    get_for_cache_all_function_input_params, get_for_cache_all_view_fields,
    prepare_placeholders_for_sql_params, FieldName, FunctionName, ParamName, SchemaCache, ViewName,
};
pub use postgres_type_mod::{PostgresFieldType, PostgresInputType, PostgresValue};
pub use server_side_multi_row_mod::ServerSideMultiRow;
pub use server_side_single_row_mod::ServerSideSingleRow;
pub use web_params_mod::WebParams;

verus! {

} // verus!
