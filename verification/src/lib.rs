//! Static checks for 1C:Enterprise source text.
//!
//! The library holds the decisions: how a query text is split and parsed, which
//! names of a module are known, which findings follow from what the parser of the
//! language, the platform help and a configuration index report.
pub mod check;
pub mod config_objects;
pub mod context_names;
pub mod declarations;
pub mod directives;
pub mod distance;
pub mod expression;
pub mod facts;
pub mod findings;
pub mod fuzzy;
pub mod lite_index;
pub mod module;
pub mod paths;
pub mod platform;
pub mod query_rules;
pub mod scope;
pub mod sdbl;
pub mod server;
pub mod symbols;
pub mod text;

pub use check::{validate_enum, validate_method_call, EnumValidation, MethodCallValidation};
pub use context_names::FORM_TYPE;
pub use findings::{Confidence, ExprError, ExprErrorKind, SimilarValue};
pub use module::{
    validate_expression, validate_expression_at_level, validate_expression_with_profile,
    validate_module, validate_module_at_level, validate_module_with_profile,
    validate_module_with_symbols, ExpressionValidation, Profile,
};
pub use paths::is_form_module;
pub use scope::{extract_scope_map, extract_type_annotations, Scope, ScopeMap};
pub use symbols::{ObjectField, ObjectSchema, SymbolSource};
