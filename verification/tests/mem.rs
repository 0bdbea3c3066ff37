use carpool::mem::get_size_of_string;

#[test]
fn test_get_size_of_string() {
    assert_eq!(get_size_of_string(&String::from("hello")), 5usize);
    assert_eq!(get_size_of_string(&String::from("❤️")), 6usize);
}

#[test]
fn size_of_empty_string_is_zero() {
    assert_eq!(get_size_of_string(&String::new()), 0usize);
}
