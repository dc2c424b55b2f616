use goober_bot::text::{i64_to_decimal, mention_user, u64_to_decimal, usize_to_decimal};

#[test]
fn decimal_of_small_and_large_numbers() {
    assert_eq!(u64_to_decimal(0), "0");
    assert_eq!(u64_to_decimal(7), "7");
    assert_eq!(u64_to_decimal(10), "10");
    assert_eq!(u64_to_decimal(1432623930450903150), "1432623930450903150");
    assert_eq!(u64_to_decimal(u64::MAX), u64::MAX.to_string());
    assert_eq!(usize_to_decimal(305), "305");
}

#[test]
fn decimal_of_signed_numbers() {
    assert_eq!(i64_to_decimal(0), "0");
    assert_eq!(i64_to_decimal(1700000000), "1700000000");
    assert_eq!(i64_to_decimal(-1), "-1");
    assert_eq!(i64_to_decimal(-86400), "-86400");
    assert_eq!(i64_to_decimal(i64::MIN), i64::MIN.to_string());
    assert_eq!(i64_to_decimal(i64::MAX), i64::MAX.to_string());
}

#[test]
fn mention_of_a_user() {
    assert_eq!(mention_user(123456789012345678), "<@123456789012345678>");
    assert_eq!(mention_user(0), "<@0>");
}
