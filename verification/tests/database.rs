use wordle::database::{split_line, DatabaseEntry};
use wordle::text::{owned, parse_usize, InvalidNumber};

fn parse_i32(s: &str) -> Result<i32, std::num::ParseIntError> {
    s.parse::<i32>()
}

#[test]
fn line_is_split_at_the_first_delimiter() {
    assert_eq!(
        split_line("String Test: data"),
        Some((String::from("String Test"), String::from("data")))
    );
    assert_eq!(split_line("a: b: c"), Some((String::from("a"), String::from("b: c"))));
    assert_eq!(split_line(": "), Some((String::new(), String::new())));
    assert_eq!(split_line("a:: b"), Some((String::from("a:"), String::from("b"))));
    assert_eq!(split_line("no delimiter"), None);
    assert_eq!(split_line("a:b"), None);
    assert_eq!(split_line("a :b"), None);
    assert_eq!(split_line("a:"), None);
    assert_eq!(split_line(""), None);
}

#[test]
fn entry_is_made_of_name_and_value() {
    let entry = DatabaseEntry::new(String::from("Name"), "value");
    assert_eq!(entry.name, "Name");
    assert_eq!(entry.value, "value");
}

#[test]
fn entry_is_read_from_a_line() {
    let str_entry = DatabaseEntry::from_line("String Test: data", owned);
    assert_eq!(
        str_entry.unwrap(),
        DatabaseEntry::new(String::from("String Test"), String::from("data"))
    );
    let length_entry = DatabaseEntry::from_line("Length: four", |s: &str| s.len());
    assert_eq!(length_entry.unwrap(), DatabaseEntry::new(String::from("Length"), 4));
    assert_eq!(DatabaseEntry::from_line("String Test data", owned), None);
}

#[test]
fn entry_with_a_parsed_value_is_read_from_a_line() {
    let int_entry = DatabaseEntry::try_from_line("Int Test: 3", parse_i32).unwrap();
    assert_eq!(int_entry.unwrap(), DatabaseEntry::new(String::from("Int Test"), 3));
    assert_eq!(DatabaseEntry::try_from_line("Int Test 3", parse_i32), Ok(None));
    assert!(DatabaseEntry::try_from_line("Int Test: three", parse_i32).is_err());
    assert_eq!(DatabaseEntry::try_from_line("Count: x", parse_usize), Err(InvalidNumber));
}

#[test]
fn entry_with_a_list_is_read_from_a_line() {
    let str_vec_entry = DatabaseEntry::from_collection("String Test: data1,data2", owned);
    assert_eq!(
        str_vec_entry.unwrap(),
        DatabaseEntry::new(
            String::from("String Test"),
            vec![String::from("data1"), String::from("data2")]
        )
    );
    let empty = DatabaseEntry::from_collection("String Test: ", owned);
    assert_eq!(
        empty.unwrap(),
        DatabaseEntry::new(String::from("String Test"), vec![String::new()])
    );
    assert_eq!(DatabaseEntry::from_collection("String Test", owned), None);
}

#[test]
fn entry_with_a_parsed_list_is_read_from_a_line() {
    let int_vec_entry = DatabaseEntry::try_from_collection("Int Test: 4,3,4,5", parse_i32).unwrap();
    assert_eq!(
        int_vec_entry.unwrap(),
        DatabaseEntry::new(String::from("Int Test"), vec![4, 3, 4, 5])
    );
    assert_eq!(DatabaseEntry::try_from_collection("Int Test 4,3", parse_i32), Ok(None));
    assert!(DatabaseEntry::try_from_collection("Int Test: 4,x,5", parse_i32).is_err());
    assert!(DatabaseEntry::try_from_collection("Int Test: ", parse_i32).is_err());
}

#[test]
fn the_first_item_that_fails_gives_the_error() {
    let seen = std::cell::RefCell::new(Vec::new());
    let result = DatabaseEntry::try_from_collection("List: 1,b,3,d", |s: &str| {
        seen.borrow_mut().push(s.to_owned());
        s.parse::<u8>().map_err(|_| s.to_owned())
    });
    assert_eq!(result, Err(String::from("b")));
    assert_eq!(*seen.borrow(), vec!["1", "b"]);
}
