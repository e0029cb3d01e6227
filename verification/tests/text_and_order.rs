use ballista_map_partition::error::{ErrorKind, PlanError};
use ballista_map_partition::order::{compare_bytes, compare_sizes, Order};
use ballista_map_partition::text::{decimal_text, signed_decimal_text, text_of};

#[test]
fn numbers_are_written_in_decimal() {
    assert_eq!(decimal_text(0), "0");
    assert_eq!(decimal_text(9), "9");
    assert_eq!(decimal_text(10), "10");
    assert_eq!(decimal_text(1_234_567_890), "1234567890");
    assert_eq!(decimal_text(u64::MAX), "18446744073709551615");
    assert_eq!(signed_decimal_text(0), "0");
    assert_eq!(signed_decimal_text(-1), "-1");
    assert_eq!(signed_decimal_text(i32::MIN), "-2147483648");
    assert_eq!(signed_decimal_text(i32::MAX), "2147483647");
}

#[test]
fn texts_are_joined() {
    assert_eq!(text_of("", ""), "");
    assert_eq!(text_of("head", "tail"), "headtail");
}

#[test]
fn errors_say_what_and_why() {
    let error = PlanError::internal("take: ", "no rows");
    assert_eq!(error.kind, ErrorKind::Internal);
    assert_eq!(error.message, "take: no rows");
    let error = PlanError::new(ErrorKind::Plan, "no input");
    assert_eq!(error.kind, ErrorKind::Plan);
    assert_eq!(error.message, "no input");
}

#[test]
fn bytes_are_ordered_by_the_first_difference() {
    assert_eq!(compare_bytes(&vec![], &vec![]), Order::Equal);
    assert_eq!(compare_bytes(&vec![1, 2], &vec![1, 2]), Order::Equal);
    assert_eq!(compare_bytes(&vec![1, 2], &vec![1, 2, 0]), Order::Less);
    assert_eq!(compare_bytes(&vec![1, 3], &vec![1, 2, 9]), Order::Greater);
    assert_eq!(compare_bytes(&vec![255], &vec![0, 255]), Order::Greater);
    assert_eq!(compare_sizes(1, 2), Order::Less);
    assert_eq!(compare_sizes(2, 2), Order::Equal);
    assert_eq!(compare_sizes(3, 2), Order::Greater);
}
