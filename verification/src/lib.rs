//! A typed access layer over a column-oriented entity-component storage
//! engine.  Component types are declared once, registered against a world,
//! and thereafter read and written through statically typed handles instead
//! of raw byte buffers.  The storage engine itself is modelled here as a
//! verified in-memory structure: entity liveness, component metadata, and
//! per-(entity, component) byte cells, all with proved contracts.

pub mod builders;
pub mod component;
pub mod engine;
pub mod group;
pub mod world;

pub use builders::Filter;
pub use builders::FilterBuilder;
pub use builders::Query;
pub use builders::QueryBuilder;
pub use builders::SystemBuilder;
pub use component::Component;
pub use group::ComponentGroup;
pub use group::FilterGroup;
pub use engine::Engine;
pub use world::ComponentError;
pub use world::Entity;
pub use world::World;
