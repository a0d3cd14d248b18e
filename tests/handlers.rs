use backend::api::{sub, sum, QueryParams};
use backend::jwt::{claims_for, TOKEN_EXPIRATION};

#[test]
fn sum_adds() {
    assert_eq!(sum(String::from("t"), QueryParams { a: 2, b: 3 }), 5);
    assert_eq!(sum(String::new(), QueryParams { a: -7, b: 3 }), -4);
}

#[test]
fn sub_subtracts() {
    assert_eq!(sub(String::from("t"), QueryParams { a: 2, b: 3 }), -1);
    assert_eq!(sub(String::new(), QueryParams { a: i32::MAX, b: 0 }), i32::MAX);
}

#[test]
fn claims_carry_user_and_expiry() {
    let c = claims_for(String::from("alice"));
    assert_eq!(c.sub, "alice");
    assert_eq!(c.exp, TOKEN_EXPIRATION);
    assert_eq!(c.exp, 10000000000);
}
