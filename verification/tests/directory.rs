use finance_as_code::directory::sort_naturally;

fn strings(names: &[&str]) -> Vec<String> {
    names.iter().map(|n| n.to_string()).collect()
}

#[test]
fn files_are_read_in_natural_order() {
    let names = strings(&["file11.txt", "file3.txt", "file1.txt", "file2.txt"]);
    assert_eq!(sort_naturally(names), strings(&["file1.txt", "file2.txt", "file3.txt", "file11.txt"]));
}

#[test]
fn natural_order_reads_digit_runs_as_numbers() {
    let names = strings(&["10.csv", "2.csv", "1.csv", "100.csv", "20.csv"]);
    assert_eq!(sort_naturally(names), strings(&["1.csv", "2.csv", "10.csv", "20.csv", "100.csv"]));
}

#[test]
fn natural_order_of_no_names_is_empty() {
    assert_eq!(sort_naturally(Vec::new()), Vec::<String>::new());
}

#[test]
fn natural_order_keeps_every_name() {
    let names = strings(&["b", "a", "b", "c1", "c01"]);
    let mut sorted = sort_naturally(names.clone());
    assert_eq!(sorted.len(), names.len());
    sorted.sort();
    let mut expected = names;
    expected.sort();
    assert_eq!(sorted, expected);
}

#[test]
fn natural_order_is_case_sensitive() {
    let names = strings(&["b.csv", "B.csv", "a.csv"]);
    assert_eq!(sort_naturally(names), strings(&["B.csv", "a.csv", "b.csv"]));
}
