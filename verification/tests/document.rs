use msegen::document::{Data, DataFile};

fn flat(text: &str) -> Data {
    Data::Flat(text.to_string())
}

fn keys(file: &DataFile) -> Vec<String> {
    file.items.iter().map(|item| item.0.clone()).collect()
}

fn text_at(file: &DataFile, index: usize) -> String {
    match &file.items[index].1 {
        Data::Flat(text) => text.clone(),
        Data::Subfile(_) => panic!("entry {} is a nested file", index),
    }
}

fn sample(names: &[&str], images: &[&[u8]]) -> DataFile {
    let mut file = DataFile::empty();
    for name in names {
        file.push(name, flat(name));
    }
    for image in images {
        file.images.push(image.to_vec());
    }
    file
}

#[test]
fn empty_file_holds_nothing() {
    let file = DataFile::empty();
    assert!(file.items.is_empty());
    assert!(file.images.is_empty());
    let file = DataFile::default();
    assert!(file.items.is_empty());
    assert!(file.images.is_empty());
}

#[test]
fn push_appends_in_order_and_keeps_duplicates() {
    let mut file = DataFile::empty();
    file.push("card", flat("first"));
    file.push("name", flat("x"));
    file.push("card", flat("second"));
    assert_eq!(keys(&file), vec!["card", "name", "card"]);
    assert_eq!(text_at(&file, 0), "first");
    assert_eq!(text_at(&file, 1), "x");
    assert_eq!(text_at(&file, 2), "second");
}

#[test]
fn push_takes_a_nested_file() {
    let mut inner = DataFile::empty();
    inner.push("name", flat("x"));
    let mut file = DataFile::empty();
    file.push("card", Data::Subfile(inner));
    match &file.items[0].1 {
        Data::Subfile(inner) => assert_eq!(keys(inner), vec!["name"]),
        Data::Flat(_) => panic!("the entry is flat"),
    }
}

#[test]
fn merge_puts_the_right_behind_the_left() {
    let mut left = sample(&["a", "b"], &[&[1], &[2]]);
    let right = sample(&["c", "a"], &[&[3]]);
    left.merge(right);
    assert_eq!(keys(&left), vec!["a", "b", "c", "a"]);
    assert_eq!(left.images, vec![vec![1], vec![2], vec![3]]);
}

#[test]
fn merge_is_associative_on_three_files() {
    let mut one = sample(&["a"], &[&[1]]);
    let mut two = sample(&["b", "c"], &[]);
    one.merge(two);
    one.merge(sample(&["d"], &[&[2, 3]]));
    let mut other = sample(&["a"], &[&[1]]);
    two = sample(&["b", "c"], &[]);
    two.merge(sample(&["d"], &[&[2, 3]]));
    other.merge(two);
    assert_eq!(keys(&one), keys(&other));
    assert_eq!(keys(&one), vec!["a", "b", "c", "d"]);
    assert_eq!(one.images, other.images);
    assert_eq!(one.images, vec![vec![1], vec![2, 3]]);
}

#[test]
fn merge_with_an_empty_file_changes_nothing() {
    let mut left = DataFile::empty();
    left.merge(sample(&["a", "b"], &[&[9]]));
    assert_eq!(keys(&left), vec!["a", "b"]);
    assert_eq!(left.images, vec![vec![9]]);
    left.merge(DataFile::empty());
    assert_eq!(keys(&left), vec!["a", "b"]);
    assert_eq!(left.images, vec![vec![9]]);
}

#[test]
fn from_iter_keeps_the_items_and_has_no_images() {
    let file = DataFile::from_iter(vec![
        ("title".to_string(), flat("t")),
        ("game".to_string(), flat("magic")),
    ]);
    assert_eq!(keys(&file), vec!["title", "game"]);
    assert!(file.images.is_empty());
    match Data::from_iter(vec![("title".to_string(), flat("t"))]) {
        Data::Subfile(inner) => assert_eq!(keys(&inner), vec!["title"]),
        Data::Flat(_) => panic!("the value is flat"),
    }
}

#[test]
fn data_from_text_and_from_file() {
    match Data::from("text".to_string()) {
        Data::Flat(text) => assert_eq!(text, "text"),
        Data::Subfile(_) => panic!("the value is a nested file"),
    }
    match Data::from(sample(&["a"], &[])) {
        Data::Subfile(inner) => assert_eq!(keys(&inner), vec!["a"]),
        Data::Flat(_) => panic!("the value is flat"),
    }
}
