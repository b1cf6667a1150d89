//! Which file types can be read as which table types.

use crate::error::{Error, ErrorKind};
use crate::schema::PrimitiveType;
use crate::text::{join, joined, texts};
use vstd::prelude::*;
use vstd::string::StringExecFns;

verus! {

/// Whether a column of the type `file` can be read as the type `projected`.
pub open spec fn promotable(file: PrimitiveType, projected: PrimitiveType) -> bool {
    ||| file == projected
    ||| file is Int && projected is Long
    ||| file is Float && projected is Double
    ||| file is Decimal && projected is Decimal && file->precision <= projected->precision
        && file->scale == projected->scale
    ||| file == PrimitiveType::Fixed(16) && projected is Uuid
}

/// Whether a column of `file_type` can be read as `projected_type`, where `None` stands for a
/// type that is not primitive: such a type is never read as another, nor as itself.
pub fn type_promotion_is_valid(
    file_type: Option<&PrimitiveType>,
    projected_type: Option<&PrimitiveType>,
) -> (valid: bool)
    ensures
        valid == (file_type is Some && projected_type is Some && promotable(
            *file_type->0,
            *projected_type->0,
        )),
{
    match (file_type, projected_type) {
        (Some(file), Some(projected)) => {
            if *file == *projected {
                return true;
            }
            match (file, projected) {
                (PrimitiveType::Int, PrimitiveType::Long) => true,
                (PrimitiveType::Float, PrimitiveType::Double) => true,
                (
                    PrimitiveType::Decimal { precision: file_precision, scale: file_scale },
                    PrimitiveType::Decimal {
                        precision: requested_precision,
                        scale: requested_scale,
                    },
                ) => *requested_precision >= *file_precision && *file_scale == *requested_scale,
                // A file keeps a uuid in sixteen bytes and says no more of it.
                (PrimitiveType::Fixed(size), PrimitiveType::Uuid) => *size == 16,
                _ => false,
            }
        },
        _ => false,
    }
}

/// How the error over unreadable columns reads.
pub open spec fn unpromotable_text(mismatches: Seq<Seq<char>>) -> Seq<char> {
    "Parquet file column types cannot be promoted to the projected schema types: "@ + joined(
        mismatches,
        "; "@,
    )
}

/// The error for columns that the file holds at types that cannot be read as projected. It says
/// that the feature is unsupported, not that the data is invalid: some of the pairs are legal.
pub fn unpromotable_column_types_error(type_mismatches: &[String]) -> (error: Error)
    ensures
        error.kind is FeatureUnsupported,
        error.message@ == unpromotable_text(texts(type_mismatches@)),
        error.source is None,
{
    let mut message = String::new();
    message.append("Parquet file column types cannot be promoted to the projected schema types: ");
    message.append(join(type_mismatches, "; ").as_str());
    assert(message@ =~= unpromotable_text(texts(type_mismatches@)));
    Error::new(ErrorKind::FeatureUnsupported, message)
}

/// Promotion is a partial order: every type reads as itself, promotions compose, and no two
/// types read as each other.
pub proof fn promotion_is_a_partial_order(a: PrimitiveType, b: PrimitiveType, c: PrimitiveType)
    ensures
        promotable(a, a),
        promotable(a, b) && promotable(b, c) ==> promotable(a, c),
        promotable(a, b) && promotable(b, a) ==> a == b,
{
}

} // verus!
