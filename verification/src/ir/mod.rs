//! Names, modifications and instances of the instance tree.
pub mod id_map;
pub mod instance;
pub mod modification;
pub mod name;
pub mod name_laws;
pub mod name_map;
pub mod path_map;
