//! What an index of a configuration keeps: the modules, their methods, the objects with their
//! fields, and the variables that are seen everywhere.
pub mod dump;
pub mod layout;
pub mod lookup;
pub mod object_xml;
pub mod records;
pub mod round_trip;
pub mod schema;
pub mod source;
pub mod tables;
pub mod variables;
