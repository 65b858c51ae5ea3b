//! The fields of a structure.
//!
//! A structure is its fields in the order of their declaration, with nothing
//! between them. The first field that fails ends the work, and the failure
//! says which field it was.

use crate::d_stream::DStream;
use crate::decode::Decode;
use crate::encode::Encode;
use crate::error::{FieldDecodeError, FieldEncodeError, GenericDecodeError, GenericEncodeError};
use crate::o_stream::OStream;
use vstd::prelude::*;
use vstd::std_specs::convert::FromSpec;

verus! {

/// What writing a field returns: nothing, or the field's failure, told without
/// its own places and wrapped with the name of the field.
pub open spec fn field_written<T: Encode>(field: &'static str, value: &T) -> Result<
    (),
    FieldEncodeError<GenericEncodeError>,
> where GenericEncodeError: From<T::Error> {
    match value.failure() {
        None => Ok(()),
        Some(e) => Err(
            FieldEncodeError {
                field,
                error: <GenericEncodeError as FromSpec<T::Error>>::from_spec(e),
            },
        ),
    }
}

/// Writes the field called `field` of a structure.
pub fn encode_field<T: Encode>(field: &'static str, value: &T, stream: &mut OStream) -> (r: Result<
    (),
    FieldEncodeError<GenericEncodeError>,
>) where GenericEncodeError: From<T::Error>
    requires
        value.wire().len() <= old(stream).free(),
    ensures
        final(stream).extends(old(stream), value.wire()),
        final(final(stream).target())@ == final(old(stream).target())@,
        r is Ok <==> value.failure() is None,
        r matches Err(e) ==> e.field == field,
        <GenericEncodeError as FromSpec<T::Error>>::obeys_from_spec() ==> r == field_written(
            field,
            value,
        ),
{
    match value.encode(stream) {
        Ok(()) => Ok(()),
        Err(e) => Err(FieldEncodeError { field, error: GenericEncodeError::from(e) }),
    }
}

/// What reading a field makes of `bytes`: the value, or the field's failure,
/// told without its own places and wrapped with the name of the field.
pub open spec fn field_read<T: Decode>(field: &'static str, bytes: Seq<u8>) -> Result<
    T::Model,
    FieldDecodeError<GenericDecodeError>,
> where GenericDecodeError: From<T::Error> {
    match T::parse(bytes).outcome {
        Ok(value) => Ok(value),
        Err(e) => Err(
            FieldDecodeError {
                field,
                error: <GenericDecodeError as FromSpec<T::Error>>::from_spec(e),
            },
        ),
    }
}

/// Reads the field called `field` of a structure.
pub fn decode_field<T: Decode>(field: &'static str, stream: &mut DStream) -> (r: Result<
    T,
    FieldDecodeError<GenericDecodeError>,
>) where GenericDecodeError: From<T::Error>
    ensures
        T::parse(old(stream)@).used <= old(stream)@.len(),
        final(stream)@ == old(stream)@.skip(T::parse(old(stream)@).used as int),
        match r {
            Ok(value) => T::parse(old(stream)@).outcome == Ok::<T::Model, T::Error>(value.model()),
            Err(e) => T::parse(old(stream)@).outcome is Err && e.field == field && (
            <GenericDecodeError as FromSpec<T::Error>>::obeys_from_spec() ==> field_read::<T>(
                field,
                old(stream)@,
            ) == Err::<T::Model, FieldDecodeError<GenericDecodeError>>(e)),
        },
{
    match T::decode(stream) {
        Ok(value) => Ok(value),
        Err(e) => Err(FieldDecodeError { field, error: GenericDecodeError::from(e) }),
    }
}

} // verus!
