use wordle::registry::{comes_before, UsernameRegistry};

fn chars(s: &str) -> Vec<char> {
    s.chars().collect()
}

#[test]
fn order_of_texts_is_that_of_strings() {
    let texts = ["", "a", "ab", "abc", "b", "B", "ba", "\u{e9}", "z", "zz", "a\u{e9}", "A"];
    for a in texts {
        for b in texts {
            assert_eq!(comes_before(&chars(a), &chars(b)), a < b, "{:?} {:?}", a, b);
        }
    }
}

#[test]
fn new_registry_is_empty() {
    let registry = UsernameRegistry::new();
    assert_eq!(registry.len(), 0);
    assert!(!registry.contains("alice"));
    assert_eq!(registry.to_text(), "");
}

#[test]
fn names_are_kept_in_ascending_order() {
    let mut registry = UsernameRegistry::new();
    assert!(registry.insert(String::from("carol")));
    assert!(registry.insert(String::from("alice")));
    assert!(registry.insert(String::from("bob")));
    assert!(!registry.insert(String::from("alice")));
    assert!(registry.insert(String::from("al")));
    assert_eq!(registry.len(), 4);
    assert_eq!(registry.names(), &vec!["al", "alice", "bob", "carol"]);
    assert_eq!(registry.to_text(), "al\nalice\nbob\ncarol\n");
    assert!(registry.contains("bob"));
    assert!(!registry.contains("dave"));
}

#[test]
fn names_are_removed() {
    let mut registry = UsernameRegistry::from_text("alice\nbob\ncarol\n");
    assert!(registry.remove("bob"));
    assert!(!registry.remove("bob"));
    assert!(!registry.remove("dave"));
    assert_eq!(registry.to_text(), "alice\ncarol\n");
    assert!(registry.remove("alice"));
    assert!(registry.remove("carol"));
    assert_eq!(registry.len(), 0);
}

#[test]
fn registry_is_read_from_lines() {
    let registry = UsernameRegistry::from_text("zed\nalice\nbob\nalice\n\nbob");
    assert_eq!(registry.names(), &vec!["", "alice", "bob", "zed"]);
    assert_eq!(UsernameRegistry::from_text("").len(), 0);
}

#[test]
fn written_registry_is_read_back() {
    let mut registry = UsernameRegistry::new();
    registry.insert(String::from("x"));
    registry.insert(String::from("some one"));
    registry.insert(String::from("a"));
    let again = UsernameRegistry::from_text(&registry.to_text());
    assert_eq!(again.names(), registry.names());
}
