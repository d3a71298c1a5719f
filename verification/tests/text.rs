use jotihunt::text::insert_sorted;

#[test]
fn a_sorted_list_takes_each_text_once_at_its_place() {
    let mut list: Vec<String> = Vec::new();
    for text in ["10:00", "09:30", "11:15", "10:00", "", "09:30", "9:00", "10:0"] {
        insert_sorted(&mut list, text);
    }
    assert_eq!(list, vec!["", "09:30", "10:0", "10:00", "11:15", "9:00"]);
}

#[test]
fn sorted_insertion_agrees_with_sorting() {
    let texts = ["b", "a", "é", "z", "ab", "a", "B", "", "zz", "é", "😀", "~"];
    let mut list: Vec<String> = Vec::new();
    for text in texts {
        insert_sorted(&mut list, text);
    }
    let mut expected: Vec<String> = texts.iter().map(|t| t.to_string()).collect();
    expected.sort();
    expected.dedup();
    assert_eq!(list, expected);
}
