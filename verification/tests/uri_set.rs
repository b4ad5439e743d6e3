use mc_crawler::uri_set::UriSet;

#[test]
fn a_set_holds_each_address_once() {
    let mut set = UriSet::new();
    assert!(set.is_empty());
    assert!(set.insert(String::from("mc://a.com:1")));
    assert!(set.insert(String::from("mc://b.com:2")));
    assert!(!set.insert(String::from("mc://a.com:1")));
    assert_eq!(set.len(), 2);
    assert!(set.contains(&String::from("mc://a.com:1")));
    assert!(!set.contains(&String::from("mc://c.com:3")));
    assert_eq!(set.to_vec(), vec![String::from("mc://a.com:1"), String::from("mc://b.com:2")]);
}

#[test]
fn remove_takes_an_address_out() {
    let mut set = UriSet::new();
    set.insert(String::from("x"));
    set.insert(String::from("y"));
    set.insert(String::from("z"));
    assert!(set.remove(&String::from("y")));
    assert!(!set.remove(&String::from("y")));
    assert_eq!(set.to_vec(), vec![String::from("x"), String::from("z")]);
    assert_eq!(set.clone().to_vec(), set.to_vec());
    assert!(set.remove(&String::from("x")));
    assert!(set.remove(&String::from("z")));
    assert!(set.is_empty());
    assert_eq!(set.len(), 0);
}
