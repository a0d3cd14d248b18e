use vstd::prelude::*;

verus! {

/// Request body of the arithmetic endpoints.
#[derive(Debug)]
pub struct QueryParams {
    pub a: i32,
    pub b: i32,
}

/// Endpoint returning the sum of the two operands.
pub fn sum(_token: String, params: QueryParams) -> (r: i32)
    requires
        i32::MIN <= params.a + params.b <= i32::MAX,
    ensures
        r == params.a + params.b,
{
    params.a + params.b
}

/// Endpoint returning the difference of the two operands.
pub fn sub(_token: String, params: QueryParams) -> (r: i32)
    requires
        i32::MIN <= params.a - params.b <= i32::MAX,
    ensures
        r == params.a - params.b,
{
    params.a - params.b
}

} // verus!
