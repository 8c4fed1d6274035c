//! Scoped style compilation: template scanning, placeholder assembly,
//! content-derived class identifiers and scope-marker rewriting.

pub mod assemble;
pub mod error;
pub mod ident;
pub mod literal;
pub mod normalize;
pub mod pipeline;
pub mod scope;
pub mod template;
pub mod text;

pub use error::CompileError;
pub use ident::generate_class_name;
pub use literal::parse_literal_to_string;
pub use normalize::process_css_with_lightning;
pub use pipeline::style;
