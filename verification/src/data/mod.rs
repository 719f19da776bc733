//! Named collections of values (constants, enumerations, bitmasks) and the
//! file formats they are loaded from and saved to.

pub mod bitmask_tables;
pub mod constants;
pub mod data_entry;
pub mod entries;
pub mod enum_tables;
pub mod enums;
pub mod formats;
pub mod h2bitmasks;
pub mod h2constants;
pub mod h2enums;
pub mod load_options;
pub mod lookup_tables;
pub mod store;
pub mod table;
pub mod traits;
