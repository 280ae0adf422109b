use radicle_context_cob::{ObjectId, SortedSet};

fn strings(set: &SortedSet<String>) -> Vec<String> {
    set.items().to_vec()
}

#[test]
fn strings_come_out_in_byte_order() {
    let mut s = SortedSet::new();
    assert!(s.insert("b".to_string()));
    assert!(s.insert("a".to_string()));
    assert!(s.insert("ab".to_string()));
    assert!(s.insert("B".to_string()));
    assert!(s.insert("é".to_string()));
    assert!(s.insert("z".to_string()));
    assert_eq!(strings(&s), vec!["B", "a", "ab", "b", "z", "é"]);
    assert_eq!(s.len(), 6);
}

#[test]
fn inserting_twice_keeps_one() {
    let mut s = SortedSet::new();
    assert!(s.insert("abc".to_string()));
    assert!(!s.insert("abc".to_string()));
    assert_eq!(s.len(), 1);
    assert!(s.contains(&"abc".to_string()));
}

#[test]
fn removing_answers_whether_present() {
    let mut s = SortedSet::from_vec(vec!["x".to_string(), "y".to_string()]);
    assert!(s.remove(&"x".to_string()));
    assert!(!s.remove(&"x".to_string()));
    assert!(!s.contains(&"x".to_string()));
    assert_eq!(strings(&s), vec!["y"]);
    assert!(s.remove(&"y".to_string()));
    assert!(s.is_empty());
}

#[test]
fn from_vec_drops_duplicates() {
    let s = SortedSet::from_vec(vec![
        "c".to_string(),
        "a".to_string(),
        "c".to_string(),
        "b".to_string(),
    ]);
    assert_eq!(strings(&s), vec!["a", "b", "c"]);
}

#[test]
fn ids_come_out_in_byte_order() {
    let mut hi = [0u8; 20];
    hi[0] = 0xff;
    let mut mid = [0u8; 20];
    mid[19] = 1;
    let lo = [0u8; 20];
    let mut s = SortedSet::new();
    s.insert(ObjectId::from_bytes(hi));
    s.insert(ObjectId::from_bytes(lo));
    s.insert(ObjectId::from_bytes(mid));
    s.insert(ObjectId::from_bytes(lo));
    let got: Vec<[u8; 20]> = s.items().iter().map(|id| id.to_bytes()).collect();
    assert_eq!(got, vec![lo, mid, hi]);
}

#[test]
fn clone_has_the_same_elements() {
    let s = SortedSet::from_vec(vec!["q".to_string(), "p".to_string()]);
    let t = s.clone();
    assert_eq!(strings(&t), vec!["p", "q"]);
}
