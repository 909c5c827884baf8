//! The rules of a data platform, stated as contracts and proved.
//!
//! What a table may look like, what it is called and where it lies; which changes of its shape
//! apply by themselves; and the decisions a server takes between a statement and its answer: what
//! a session statement means, what a name resolves to, what a caller may read, what is refused and
//! in which words. Reading, writing and waiting are done elsewhere; here is what they decide.

pub mod adopt;
pub mod aggregations;
pub mod audit;
pub mod backup;
pub mod clones;
pub mod cloning;
pub mod config;
pub mod cubes;
pub mod cuboids;
pub mod datedate;
pub mod doctor;
pub mod driver;
pub mod evolve;
pub mod execute;
pub mod feeds;
pub mod flight;
pub mod graphs;
pub mod lists;
pub mod mapping;
pub mod model;
pub mod naming;
pub mod numerals;
pub mod onboard;
pub mod policy;
pub mod scrape;
pub mod settings;
pub mod snapshots;
pub mod text;
pub mod textmap;
pub mod warehouse;
pub mod wire;
pub mod wiring;

pub use config::Configuration;
pub use datedate::{
    civil_from_days, is_reserved, AxisError, DateAxis, DateSource, Granularity, DATA_DATE_COLUMN, GRANULARITY_KEY,
    RESERVED_PREFIX, SOURCE_KEY,
};
pub use evolve::{apply_compatible, classify_change, widened_decimal, Compatibility, SchemaChange};
pub use mapping::{map_source_type, numeric_modifier, MappingError, TypeMapping};
pub use model::{Field, LogicalSchema, LogicalType, PhysicalColumn, PhysicalType, Precision, Scalar};
pub use naming::{
    segment_for, CollisionCheck, NameClass, NamingError, PathSegment, TableLocation, RESERVED_SEGMENTS,
};
pub use onboard::{
    inexact_columns, is_fully_exact, may_be_stored_out_of_line, onboard_relation, ColumnDescriptor, Onboarded,
    OnboardingError, OnboardingWarning, RelationDescriptor, ReplicaIdentity, WriteStrategy,
};
