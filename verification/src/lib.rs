//! Runtime validation of decoded JSON/CBOR data against a resolved
//! [`IrModule`].
//!
//! # Known limitation: tagged prelude types
//!
//! The "tagged" names of CDDL's prelude (`tdate`, `time`, `uri`, `b64url`,
//! `biguint`, `bigint`, `encoded-cbor`, `regexp`, `mime-message`, `cbor-any`, ...)
//! reach a schema as `Primitive::Any`: the name itself doesn't survive into it, only
//! the fact that *some* value is expected. Fields declared with these prelude names
//! therefore validate permissively (any value passes) rather than being checked
//! against their JSON mapping (e.g. `tdate` should be a date and time). Explicit tags
//! written directly in a schema (e.g. `mydate = #6.0(tstr)`) are unaffected: they are
//! kept and checked normally.

use vstd::prelude::*;

pub mod base64url;
pub mod cbor;
pub mod checks;
pub mod composition;
pub mod conformance;
pub mod double;
pub mod engine;
pub mod error;
pub mod ir;
pub mod json;
pub mod laws;
pub mod meaning;
pub mod not_a_number;
pub mod pattern;
pub mod representation;
pub mod rules;
pub mod text;
pub mod value;

pub use double::Double;
pub use error::ValidationError;
pub use ir::IrModule;
pub use value::Value;

use conformance::document_conforms;
use error::errors_view;
use rules::document_errors;

verus! {

/// The rule that a document is checked against: the named one, or the schema's
/// declared root type.
pub open spec fn chosen_name(module: IrModule, name: Option<&str>) -> Seq<char> {
    match name {
        Some(name) => name@,
        None => module.root@,
    }
}

/// Validate a decoded [`Value`] against the named type in `module`.
///
/// Pass `name = None` to validate against the schema's declared root
/// type ([`IrModule::root`]).
pub fn validate(module: &IrModule, name: Option<&str>, value: &Value) -> (result: Result<
    (),
    Vec<ValidationError>,
>)
    ensures
        result is Ok <==> document_conforms(*module, chosen_name(*module, name), value@),
        document_errors(*module, chosen_name(*module, name), value@) == (match result {
            Ok(()) => seq![],
            Err(errors) => errors_view(errors@),
        }),
{
    let root = match name {
        Some(name) => name,
        None => module.root.as_str(),
    };
    engine::validate_named(module, root, value)
}

} // verus!
