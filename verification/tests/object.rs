use alloy::object::{as_bool, as_int, create, AlloyBool, AlloyInt, AlloyObj, AlloyObject, AlloyType};

#[test]
fn test_alloy_int_as_i64() {
    let int_ptr = create::<AlloyInt, i64>(12);
    assert_eq!(as_int(&int_ptr), 12);
}

#[test]
fn test_alloy_bool_as_i64() {
    let bool_ptr = create::<AlloyBool, bool>(true);
    assert_eq!(as_int(&bool_ptr), 1);

    let bool_ptr = create::<AlloyBool, bool>(false);
    assert_eq!(as_int(&bool_ptr), 0);
}

#[test]
fn test_alloy_int_as_bool() {
    let int_ptr = create::<AlloyInt, i64>(12);
    assert!(as_bool(&int_ptr));
    let int_ptr = create::<AlloyInt, i64>(0);
    assert!(!as_bool(&int_ptr));
}

#[test]
fn test_alloy_bool_as_bool() {
    let bool_ptr = create::<AlloyBool, bool>(true);
    assert!(as_bool(&bool_ptr));

    let bool_ptr = create::<AlloyBool, bool>(false);
    assert!(!as_bool(&bool_ptr));
}

#[test]
fn tagged_values_hold_what_they_were_given() {
    let mut number = AlloyInt::new();
    assert_eq!(number.get(), 0);
    number.set(-7);
    assert_eq!(number.get(), -7);
    assert_eq!(AlloyInt::default().get(), 0);
    assert_eq!(AlloyInt::get_type(), AlloyType::Int);
    let mut flag = AlloyBool::from(true);
    assert!(flag.get());
    assert_eq!(flag.to_string(), "AlloyTrue");
    flag.set(false);
    assert!(!flag.get());
    assert_eq!(flag.to_string(), "AlloyFalse");
    assert_eq!(AlloyBool::get_type(), AlloyType::Bool);
    assert_eq!(AlloyObject::from(AlloyInt::from(3)).get_type(), AlloyType::Int);
    assert_eq!(AlloyObject::from(flag).get_type(), AlloyType::Bool);
    assert_eq!(as_int(&AlloyObject::Int(number)), -7);
}
