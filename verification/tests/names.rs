use vtree::name::{is_valid_item_name, split_nth_item};

#[test]
fn test_is_valid() {
    assert!(is_valid_item_name(&"foo".to_string()));
    assert!(is_valid_item_name(&"123.txt".to_string()));
    assert!(!is_valid_item_name(&"2/3".to_string()));
    assert!(!is_valid_item_name(&"3#.json".to_string()));
}

#[test]
fn test_split_nth() {
    assert_eq!(split_nth_item(&"foo.txt#0".to_string()), ("foo.txt".to_string(), 0));
    assert_eq!(split_nth_item(&"foo.txt#4412".to_string()), ("foo.txt".to_string(), 4412));
    assert_eq!(split_nth_item(&"2#4#2".to_string()), ("2#4".to_string(), 2));
}

#[test]
fn every_reserved_character_makes_a_name_invalid() {
    for c in ['\\', '/', '#', '|', '"', '*', '?', '<', '>', ':'] {
        let name = format!("a{}b", c);
        assert!(!is_valid_item_name(&name), "{}", name);
    }
    assert!(is_valid_item_name(&"".to_string()));
    assert!(is_valid_item_name(&"a b.c-d_e".to_string()));
}

#[test]
fn split_nth_without_a_number_keeps_the_name() {
    assert_eq!(split_nth_item(&"foo".to_string()), ("foo".to_string(), -1));
    assert_eq!(split_nth_item(&"foo#bar".to_string()), ("foo#bar".to_string(), -1));
    assert_eq!(split_nth_item(&"foo#".to_string()), ("foo#".to_string(), -1));
    assert_eq!(split_nth_item(&"foo#1x".to_string()), ("foo#1x".to_string(), -1));
    assert_eq!(split_nth_item(&"".to_string()), ("".to_string(), -1));
}

#[test]
fn split_nth_of_a_name_of_digits_is_no_suffix() {
    assert_eq!(split_nth_item(&"123".to_string()), ("123".to_string(), -1));
}

#[test]
fn split_nth_reads_signs_and_leading_zeros() {
    assert_eq!(split_nth_item(&"foo#+7".to_string()), ("foo".to_string(), 7));
    assert_eq!(split_nth_item(&"foo#-3".to_string()), ("foo".to_string(), -3));
    assert_eq!(split_nth_item(&"foo#007".to_string()), ("foo".to_string(), 7));
    assert_eq!(split_nth_item(&"foo#+".to_string()), ("foo#+".to_string(), -1));
    assert_eq!(split_nth_item(&"#5".to_string()), ("".to_string(), 5));
}

#[test]
fn split_nth_stops_at_the_range_of_32_bits() {
    assert_eq!(
        split_nth_item(&"foo#2147483647".to_string()),
        ("foo".to_string(), 2147483647)
    );
    assert_eq!(
        split_nth_item(&"foo#2147483648".to_string()),
        ("foo#2147483648".to_string(), -1)
    );
    assert_eq!(
        split_nth_item(&"foo#-2147483648".to_string()),
        ("foo".to_string(), -2147483648)
    );
    assert_eq!(
        split_nth_item(&"foo#-2147483649".to_string()),
        ("foo#-2147483649".to_string(), -1)
    );
    assert_eq!(
        split_nth_item(&"foo#99999999999999999999999".to_string()),
        ("foo#99999999999999999999999".to_string(), -1)
    );
}
