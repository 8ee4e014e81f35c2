use sprite_compiler::names::{find_name, upsert_entry};

fn named(names: &[&str]) -> Vec<(String, u32)> {
    names.iter().enumerate().map(|(i, n)| (n.to_string(), i as u32)).collect()
}

#[test]
fn find_name_gives_the_place_of_a_name() {
    let entries = named(&["a", "b", "c"]);
    assert_eq!(find_name(&entries, &"a".to_string()), Some(0));
    assert_eq!(find_name(&entries, &"c".to_string()), Some(2));
    assert_eq!(find_name(&entries, &"d".to_string()), None);
    assert_eq!(find_name(&entries, &"A".to_string()), None);
    assert_eq!(find_name(&Vec::<(String, u32)>::new(), &"a".to_string()), None);
}

#[test]
fn upsert_entry_appends_a_new_name() {
    let mut entries = named(&["a", "b"]);
    upsert_entry(&mut entries, "c".to_string(), 9);
    assert_eq!(
        entries,
        vec![("a".to_string(), 0), ("b".to_string(), 1), ("c".to_string(), 9)]
    );
}

#[test]
fn upsert_entry_replaces_in_place() {
    let mut entries = named(&["a", "b", "c"]);
    upsert_entry(&mut entries, "b".to_string(), 9);
    assert_eq!(
        entries,
        vec![("a".to_string(), 0), ("b".to_string(), 9), ("c".to_string(), 2)]
    );
    upsert_entry(&mut entries, "a".to_string(), 7);
    upsert_entry(&mut entries, "b".to_string(), 8);
    assert_eq!(
        entries,
        vec![("a".to_string(), 7), ("b".to_string(), 8), ("c".to_string(), 2)]
    );
}
