//! Plain value types of the update API: operations, their outcomes
//! and the client-side error.  The network client itself lives
//! outside the verified core.

use vstd::prelude::*;
use crate::v_api::common_type::ResultCode;

verus! {

/// Marker value addressing every module of the platform.
pub const ALL_MODULES: i64 = 0;

/// An error answered by a platform service.
#[derive(Debug)]
pub struct ApiError {
    pub result: ResultCode,
    pub info: String,
}

impl ApiError {
    /// An error with a result code and a note.
    pub fn new(result: ResultCode, info: &str) -> (r: ApiError)
        ensures
            r.result == result,
            r.info@ == info@,
    {
        ApiError { result, info: info.to_owned() }
    }
}

impl Default for ApiError {
    /// The empty error.
    fn default() -> (r: ApiError)
        ensures
            r.result == ResultCode::Zero,
            r.info@ == Seq::<char>::empty(),
    {
        ApiError { result: ResultCode::Zero, info: String::new() }
    }
}

/// The operations of the update API.
#[derive(PartialEq, Eq, Structural, Debug, Clone)]
pub enum IndvOp {
    /// Store the object whole.
    Put,
    /// Set the named values.
    SetIn,
    /// Add the named values.
    AddTo,
    /// Take the named values out.
    RemoveFrom,
    /// Take the object out.
    Remove,
    NoneOp,
}

/// The operation a numeric code names; unknown codes read as `None`.
pub open spec fn spec_indv_op_from(value: int) -> IndvOp {
    if value == 1 {
        IndvOp::Put
    } else if value == 51 {
        IndvOp::Remove
    } else if value == 47 {
        IndvOp::AddTo
    } else if value == 45 {
        IndvOp::SetIn
    } else if value == 48 {
        IndvOp::RemoveFrom
    } else {
        IndvOp::NoneOp
    }
}

/// The numeric code of an operation.
pub open spec fn spec_indv_op_value(op: IndvOp) -> int {
    match op {
        IndvOp::Put => 1,
        IndvOp::SetIn => 45,
        IndvOp::AddTo => 47,
        IndvOp::RemoveFrom => 48,
        IndvOp::Remove => 51,
        IndvOp::NoneOp => 52,
    }
}

/// The wire name of an operation.
pub open spec fn spec_indv_op_name(op: IndvOp) -> Seq<char> {
    match op {
        IndvOp::Put => "put"@,
        IndvOp::Remove => "remove"@,
        IndvOp::AddTo => "add_to"@,
        IndvOp::SetIn => "set_in"@,
        IndvOp::RemoveFrom => "remove_from"@,
        IndvOp::NoneOp => "none"@,
    }
}

impl IndvOp {
    /// Reads an operation from its numeric code.
    pub fn from_i64(value: i64) -> (r: IndvOp)
        ensures
            r == spec_indv_op_from(value as int),
    {
        match value {
            1 => IndvOp::Put,
            51 => IndvOp::Remove,
            47 => IndvOp::AddTo,
            45 => IndvOp::SetIn,
            48 => IndvOp::RemoveFrom,
            _ => IndvOp::NoneOp,
        }
    }

    /// The numeric code of this operation.
    pub fn to_i64(&self) -> (r: i64)
        ensures
            r == spec_indv_op_value(*self),
    {
        match self {
            IndvOp::Put => 1,
            IndvOp::Remove => 51,
            IndvOp::AddTo => 47,
            IndvOp::SetIn => 45,
            IndvOp::RemoveFrom => 48,
            IndvOp::NoneOp => 52,
        }
    }

    /// The wire name of this operation.
    pub fn as_string(&self) -> (r: String)
        ensures
            r@ == spec_indv_op_name(*self),
    {
        let s = match self {
            IndvOp::Put => "put",
            IndvOp::Remove => "remove",
            IndvOp::AddTo => "add_to",
            IndvOp::SetIn => "set_in",
            IndvOp::RemoveFrom => "remove_from",
            IndvOp::NoneOp => "none",
        };
        s.to_owned()
    }
}

/// What one update answered: a result code and the operation id.
#[derive(Debug)]
pub struct OpResult {
    pub result: ResultCode,
    pub op_id: i64,
}

impl OpResult {
    /// An outcome with a result code and no operation id.
    pub fn res(r: ResultCode) -> (out: OpResult)
        ensures
            out.result == r,
            out.op_id == -1i64,
    {
        OpResult { result: r, op_id: -1 }
    }
}

} // verus!
