//! Geodetic registry support: a small in-memory store for a SQL dump of the
//! EPSG registry, the resolution of its coordinate reference systems into
//! projection recipes, and lookups on the compiled result.
//!
//! The floating-point projection kernels operate on what this crate resolves;
//! every decision about which rows, codes and parameters are used is made and
//! proved here.

mod compiler;
mod dispatch;
mod ops;
mod reader;
mod registry;
mod search;
mod table;
mod text;

pub use compiler::{
    compile, has_required_params, plan_entry, required_parameters, projection_method, read_crs, read_datums, read_ellipsoids, read_extents,
    read_members, read_names, read_ops, read_params, read_units, read_usages, resolve_datum, to_u32,
    CompileError, CrsEntry, CrsRecord, EllipsoidRecipe, EllipsoidShape, Extent, Method,
    ParamValue, Plan, ProjectionRecipe, RegistryTables, Row, Unit, GREENWICH, SEXAGESIMAL_DMS, WGS84,
};
pub use dispatch::{
    all_names, compile_registry, get_ellipsoid, get_ellipsoid_code, get_projection,
    get_reference_system_areas, get_reference_system_name, Registry,
};
pub use ops::{
    get_transformation, ConcatenatedCoordOp, CoordOperation, IdentityProjection,
    ProjectionUserVertical, PseudoSerialize, ZeroTransformation,
};
pub use reader::{
    accept_value, column_kind, new_table, parse_integer, parse_negated_integer, row_cells, ColumnSpec, ReadError,
    SqlType, SqlValue, Statement,
};
pub use registry::{gen_parameter_constructors, get_ellipsoids, read_table};
pub use table::{duplicate_cell, Column, ColumnData, ColumnKind, Decimal, Field, MemoryDb, Table};
pub use text::string_to_const_name;
