use makevcf::keys::{info_keys, rank, KeySet, Rank};

fn texts(items: &[&str]) -> Vec<String> {
    items.iter().map(|item| item.to_string()).collect()
}

#[test]
fn keys_are_listed_once_and_in_order() {
    let infos = texts(&["DP=10;AF=0.5", "AF=0.1;DB", "DP=3"]);
    assert_eq!(info_keys(&infos), vec!["AF", "DB", "DP"]);
}

#[test]
fn no_annotation_gives_no_key() {
    assert_eq!(info_keys(&[]), Vec::<String>::new());
}

#[test]
fn key_ends_at_the_first_equals_sign() {
    assert_eq!(info_keys(&texts(&["A=b=c;=x;B"])), vec!["", "A", "B"]);
}

#[test]
fn empty_tokens_give_the_empty_key() {
    assert_eq!(info_keys(&texts(&[""])), vec![""]);
    assert_eq!(info_keys(&texts(&["A=1;"])), vec!["", "A"]);
    assert_eq!(info_keys(&texts(&["."])), vec!["."]);
}

#[test]
fn order_of_annotations_does_not_matter() {
    let one = texts(&["DP=10;AF=0.5", "ZZ;AA=1", "MQ=60"]);
    let two = texts(&["MQ=60", "DP=10;AF=0.5", "ZZ;AA=1"]);
    let three = texts(&["ZZ;AA=1", "MQ=60", "DP=10;AF=0.5"]);
    let expected = vec!["AA", "AF", "DP", "MQ", "ZZ"];
    assert_eq!(info_keys(&one), expected);
    assert_eq!(info_keys(&two), expected);
    assert_eq!(info_keys(&three), expected);
}

#[test]
fn repeated_annotations_do_not_matter() {
    let once = texts(&["DP=10", "AF=1"]);
    let twice = texts(&["DP=10", "AF=1", "DP=10", "AF=1"]);
    assert_eq!(info_keys(&once), info_keys(&twice));
}

#[test]
fn order_is_that_of_std() {
    let infos = texts(&["b;a;B;A;ab;aB;a0;Z;z;é;e;染;10;9;_"]);
    let mut expected: Vec<&str> = infos[0].split(';').collect();
    expected.sort();
    expected.dedup();
    assert_eq!(info_keys(&infos), expected);
}

#[test]
fn rank_follows_code_points() {
    assert_eq!(rank("", ""), Rank::Same);
    assert_eq!(rank("", "a"), Rank::Before);
    assert_eq!(rank("a", ""), Rank::After);
    assert_eq!(rank("AF", "AF"), Rank::Same);
    assert_eq!(rank("AF", "DP"), Rank::Before);
    assert_eq!(rank("DP", "AF"), Rank::After);
    assert_eq!(rank("A", "AF"), Rank::Before);
    assert_eq!(rank("AF", "A"), Rank::After);
    assert_eq!(rank("Z", "a"), Rank::Before);
    assert_eq!(rank("z", "é"), Rank::Before);
    assert_eq!(rank("10", "9"), Rank::Before);
}

#[test]
fn rank_agrees_with_std() {
    let words = ["", "a", "A", "ab", "aB", "b", "é", "e", "染", "z", "Z", "0", "10", "9"];
    for a in words {
        for b in words {
            let expected = match a.cmp(b) {
                std::cmp::Ordering::Less => Rank::Before,
                std::cmp::Ordering::Equal => Rank::Same,
                std::cmp::Ordering::Greater => Rank::After,
            };
            assert_eq!(rank(a, b), expected);
        }
    }
}

#[test]
fn new_set_is_empty() {
    assert_eq!(KeySet::new().into_keys(), Vec::<String>::new());
}

#[test]
fn insert_keeps_the_keys_sorted() {
    let mut set = KeySet::new();
    for key in ["DP", "AF", "ZZ", "DB", "DP", "AF", ""] {
        set.insert(String::from(key));
    }
    assert_eq!(set.into_keys(), vec!["", "AF", "DB", "DP", "ZZ"]);
}

#[test]
fn insert_of_a_held_key_changes_nothing() {
    let mut set = KeySet::new();
    set.insert(String::from("DP"));
    set.insert(String::from("DP"));
    assert_eq!(set.into_keys(), vec!["DP"]);
}

#[test]
fn keys_of_one_annotation_are_added() {
    let mut set = KeySet::new();
    set.insert(String::from("AF"));
    set.insert(String::from("DP"));
    set.add_info("MQ=60;AF=0.2;DB");
    assert_eq!(set.into_keys(), vec!["AF", "DB", "DP", "MQ"]);
}
