//! The parts of an OpenAPI v3 document that model and route generation read.
//! Maps of the document are kept as sequences of pairs, in document order.
use vstd::prelude::*;

verus! {

/// An inline object or a `$ref` to one.
pub enum ObjectOrReference<T> {
    Object(T),
    Ref { ref_path: String },
}

/// A schema object.
pub struct Schema {
    /// `type`; absent means an object.
    pub schema_type: Option<String>,
    pub format: Option<String>,
    pub description: Option<String>,
    pub nullable: Option<bool>,
    pub read_only: Option<bool>,
    /// `$ref`
    pub ref_path: Option<String>,
    /// `properties`, in document order; empty when absent.
    pub properties: Vec<(String, Schema)>,
    pub items: Option<Box<Schema>>,
    /// `additionalProperties` given as a schema; a boolean flag is held as `None`.
    pub additional_properties: Option<ObjectOrReference<Box<Schema>>>,
    /// Vendor extensions (`x-...`), each value as JSON text.
    pub extensions: Vec<(String, String)>,
}

/// A parameter object.
pub struct Parameter {
    pub name: String,
    /// `in`: "path", "query", "header" or "cookie".
    pub location: String,
    pub required: Option<bool>,
    pub schema: Option<Schema>,
}

pub struct MediaType {
    pub schema: Option<ObjectOrReference<Schema>>,
}

pub struct RequestBody {
    /// Media type name to body, in document order.
    pub content: Vec<(String, MediaType)>,
}

pub struct Response {
    /// Media type name to body, in document order; empty when absent.
    pub content: Vec<(String, MediaType)>,
}

/// An operation of a path item.
pub struct Operation {
    /// Empty when absent.
    pub tags: Vec<String>,
    pub summary: Option<String>,
    pub description: Option<String>,
    pub operation_id: Option<String>,
    pub parameters: Vec<ObjectOrReference<Parameter>>,
    pub request_body: Option<ObjectOrReference<RequestBody>>,
    /// Status code to response, in document order.
    pub responses: Vec<(String, Response)>,
}

/// A path item: up to one operation per HTTP method, and the parameters
/// that all of them share.
pub struct PathItem {
    pub get: Option<Operation>,
    pub put: Option<Operation>,
    pub post: Option<Operation>,
    pub delete: Option<Operation>,
    pub options: Option<Operation>,
    pub head: Option<Operation>,
    pub patch: Option<Operation>,
    pub trace: Option<Operation>,
    pub parameters: Vec<ObjectOrReference<Parameter>>,
}

/// An OpenAPI v3 document.
pub struct Spec {
    /// `components.schemas`, in document order.
    pub component_schemas: Vec<(String, ObjectOrReference<Schema>)>,
    /// `components.parameters`, in document order.
    pub component_parameters: Vec<(String, ObjectOrReference<Parameter>)>,
    /// `paths`, in document order.
    pub paths: Vec<(String, PathItem)>,
}

} // verus!
