use invoke_registry::decimal::{u128_to_decimal, u64_to_decimal};
use invoke_registry::invoke_list::InvocationList;

#[test]
fn new_list_starts_counting_at_one() {
    let mut list = InvocationList::new("CONFIG");
    assert_eq!(list.next_index(), 1);
    assert_eq!(list.next_index(), 2);
    assert_eq!(list.next_index(), 3);
}

#[test]
fn marker_struct_name_carries_the_id() {
    let list = InvocationList::new("CONFIG");
    assert_eq!(list.marker_struct(), "__evscode_invokelist_CONFIG");
}

#[test]
fn base_definitions_emit_the_anchor() {
    let list = InvocationList::new("CONFIG");
    let expected = "struct __evscode_invokelist_CONFIG<T>(std::marker::PhantomData<T>);\nimpl<T> evscode::internal::macros::InvocChain<T> for crate::__evscode_invokelist_CONFIG<[(); 0]> {\n    type Payload = Vec<String>;\n    fn payload() -> Self::Payload {\n        unreachable!()\n    }\n    default fn is_last() -> bool {\n        true\n    }\n    default type Next = Self;\n}\n";
    assert_eq!(list.base_definitions("Vec<String>"), expected);
}

#[test]
fn invoke_links_each_node_to_the_one_before() {
    let mut list = InvocationList::new("CONFIG");
    let first = list.invoke("make_one()");
    let expected_first = "impl<T> evscode::internal::macros::InvocChain<T> for crate::__evscode_invokelist_CONFIG<[(); 1]> {\n    type Payload = <crate::__evscode_invokelist_CONFIG<[(); 0]> as evscode::internal::macros::InvocChain<()>>::Payload;\n    fn payload() -> Self::Payload {\n        make_one()\n    }\n    default fn is_last() -> bool {\n        true\n    }\n    default type Next = Self;\n}\nimpl evscode::internal::macros::InvocChain<()> for crate::__evscode_invokelist_CONFIG<[(); 0]> {\n    fn is_last() -> bool {\n        false\n    }\n    type Next = crate::__evscode_invokelist_CONFIG<[(); 1]>;\n}\n";
    assert_eq!(first, expected_first);
    let second = list.invoke("make_two()");
    assert!(second.contains("crate::__evscode_invokelist_CONFIG<[(); 2]> {"));
    assert!(second.contains(
        "impl evscode::internal::macros::InvocChain<()> for crate::__evscode_invokelist_CONFIG<[(); 1]> {"
    ));
    assert!(second.contains("        make_two()\n"));
}

#[test]
fn payloads_emit_the_collection_call() {
    let list = InvocationList::new("CONFIG");
    assert_eq!(
        list.payloads(),
        "evscode::internal::macros::collect_payloads::<crate::__evscode_invokelist_CONFIG<[(); 0]>>()"
    );
}

#[test]
fn decimal_renders_exact_numerals() {
    assert_eq!(u64_to_decimal(0), "0");
    assert_eq!(u64_to_decimal(7), "7");
    assert_eq!(u64_to_decimal(10), "10");
    assert_eq!(u64_to_decimal(1234567890), "1234567890");
    assert_eq!(u64_to_decimal(u64::MAX), "18446744073709551615");
    assert_eq!(u128_to_decimal(340282366920938463463374607431768211455), "340282366920938463463374607431768211455");
}
