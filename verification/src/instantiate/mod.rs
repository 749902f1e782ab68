//! Instantiation of models.
pub mod annotation;
pub mod annotation_laws;
pub mod array;
pub mod attribute_laws;
pub mod attributes;
pub mod connection_laws;
pub mod connections;
pub mod context;
pub mod error;
pub mod evaluated;
pub mod laws;
pub mod model;
pub mod nested;
pub mod outer;
pub mod prefix_laws;
pub mod presence_laws;
pub mod record;
pub mod root_laws;
pub mod scopes;
pub mod sections;
pub mod structural;
pub mod tree;
pub mod type_laws;
pub mod value_laws;
pub mod walk;
