use studiobridge::order::{insert_sorted_unique, sorted_names_with, str_lt, without_name};

fn strings(items: &[&str]) -> Vec<String> {
    items.iter().map(|item| item.to_string()).collect()
}

#[test]
fn strings_order_like_std() {
    for (a, b) in [("a", "b"), ("Game", "Steam"), ("ab", "abc"), ("", "a"), ("Z", "a"), ("é", "z")] {
        assert_eq!(str_lt(a, b), a < b, "{a} < {b}");
        assert_eq!(str_lt(b, a), b < a, "{b} < {a}");
    }
    assert!(!str_lt("same", "same"));
}

#[test]
fn sorted_names_are_distinct_and_include_the_new_name() {
    let list = strings(&["Steam", "Game", "Steam", "Discord"]);
    assert_eq!(sorted_names_with(&list, "Browser"), strings(&["Browser", "Discord", "Game", "Steam"]));
    assert_eq!(sorted_names_with(&list, "Game"), strings(&["Discord", "Game", "Steam"]));
    assert_eq!(sorted_names_with(&Vec::new(), "Only"), strings(&["Only"]));
}

#[test]
fn inserting_keeps_the_list_sorted() {
    let mut list = strings(&["b", "d"]);
    insert_sorted_unique(&mut list, "c");
    insert_sorted_unique(&mut list, "a");
    insert_sorted_unique(&mut list, "d");
    insert_sorted_unique(&mut list, "e");
    assert_eq!(list, strings(&["a", "b", "c", "d", "e"]));
}

#[test]
fn removing_a_name_keeps_the_rest_in_order() {
    let list = strings(&["Steam", "Game", "Steam", "Discord"]);
    assert_eq!(without_name(&list, "Steam"), strings(&["Game", "Discord"]));
    assert_eq!(without_name(&list, "Nope"), list);
}
