//! Turns an OpenAPI v3 document into model trees and route descriptors,
//! translated into the types of a target language that a declarative
//! language specification describes.
//!
//! The pipeline: resolve the schemas of the document and of the files it
//! refers to (`resolve`), build a model tree per top-level schema
//! (`model`), link object nodes to the top-level models (`normalize`),
//! expand and group the operations (`resource`), and translate everything
//! with a language specification (`lang`).
pub mod cases;
pub mod config;
pub mod generate;
pub mod lang;
pub mod laws;
pub mod model;
pub mod param;
pub mod resolve;
pub mod resource;
pub mod schema;
pub mod template;
pub mod text;
pub mod util;

pub use config::Config;
pub use generate::{create_state, generate_models_v3, generate_resources_v3, State};
pub use lang::{AddFile, Lang};
pub use model::{Model, ModelType};
pub use param::Param;
pub use resource::{GroupingStrategy, Resource, ResourceGroup};
