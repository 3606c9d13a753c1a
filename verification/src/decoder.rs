//! From a decoded value to a native number.

use dbus_serialize::decoder::DBusDecoder;
use dbus_serialize::types::BasicValue as Wire;
use dbus_serialize::types::Path as WirePath;
use dbus_serialize::types::Signature as WireSignature;
use dbus_serialize::types::Value as WireValue;
use vstd::prelude::*;
use crate::types::{BasicModel, BasicValue};

verus! {

/// The number that an unsigned basic value holds.
pub open spec fn spec_unsigned(value: BasicModel) -> Option<int> {
    match value {
        BasicModel::Byte(x) => Some(x as int),
        BasicModel::Uint16(x) => Some(x as int),
        BasicModel::Uint32(x) => Some(x as int),
        BasicModel::Uint64(x) => Some(x as int),
        _ => None,
    }
}

/// The value as a `u32`: the number of an unsigned value of any width, as
/// long as it fits.
pub open spec fn spec_decode_u32(value: BasicModel) -> Option<u32> {
    match spec_unsigned(value) {
        Some(x) => if x <= u32::MAX {
            Some(x as u32)
        } else {
            None
        },
        None => None,
    }
}

/// `DBusDecoder::decode::<u32>` of `dbus_serialize` on a basic value: the
/// number of an unsigned value of any width that fits 32 bits, and a failure,
/// given here as `None`, for every other value.
#[verifier::external_body]
fn decode_wire_u32(value: BasicValue) -> (r: Option<u32>)
    ensures
        r == spec_decode_u32(value@),
{
    DBusDecoder::decode::<u32>(WireValue::BasicValue(match value {
        BasicValue::Byte(x) => Wire::Byte(x),
        BasicValue::Boolean(x) => Wire::Boolean(x),
        BasicValue::Int16(x) => Wire::Int16(x),
        BasicValue::Uint16(x) => Wire::Uint16(x),
        BasicValue::Int32(x) => Wire::Int32(x),
        BasicValue::Uint32(x) => Wire::Uint32(x),
        BasicValue::Int64(x) => Wire::Int64(x),
        BasicValue::Uint64(x) => Wire::Uint64(x),
        BasicValue::String(x) => Wire::String(x),
        BasicValue::ObjectPath(x) => Wire::ObjectPath(WirePath(x.0)),
        BasicValue::Signature(x) => Wire::Signature(WireSignature(x.0)),
    })).ok()
}

/// Decodes a basic value as a `u32`.
pub fn decode_u32(value: &BasicValue) -> (r: Option<u32>)
    ensures
        r == spec_decode_u32(value@),
{
    decode_wire_u32(value.duplicate())
}

} // verus!
