use redis_cleanup::order::sort_keys;

fn owned(keys: &[&str]) -> Vec<String> {
    keys.iter().map(|key| key.to_string()).collect()
}

#[test]
fn keys_are_put_in_ascending_order() {
    let mut keys = owned(&["b", "a", "c"]);
    sort_keys(&mut keys);
    assert_eq!(keys, owned(&["a", "b", "c"]));
}

#[test]
fn a_key_comes_before_those_it_starts() {
    let mut keys = owned(&["bull:abc", "bull", "bull:", "bul", "", "bull:ab"]);
    sort_keys(&mut keys);
    assert_eq!(keys, owned(&["", "bul", "bull", "bull:", "bull:ab", "bull:abc"]));
}

#[test]
fn capitals_and_digits_come_before_small_letters() {
    let mut keys = owned(&["bull:abc", "a", "B", "A", "10", "9", "_", "b"]);
    sort_keys(&mut keys);
    assert_eq!(keys, owned(&["10", "9", "A", "B", "_", "a", "b", "bull:abc"]));
}

#[test]
fn characters_are_ordered_by_their_code() {
    let mut keys = owned(&["\u{1f5d1}", "\u{00e9}", "z", "\u{ffff}", "\u{0800}", "e"]);
    sort_keys(&mut keys);
    assert_eq!(keys, owned(&["e", "z", "\u{00e9}", "\u{0800}", "\u{ffff}", "\u{1f5d1}"]));
}

#[test]
fn equal_keys_are_all_kept() {
    let mut keys = owned(&["k", "a", "k", "a", "k"]);
    sort_keys(&mut keys);
    assert_eq!(keys, owned(&["a", "a", "k", "k", "k"]));
}

#[test]
fn no_keys_and_one_key_stay_as_they_are() {
    let mut none: Vec<String> = Vec::new();
    sort_keys(&mut none);
    assert!(none.is_empty());
    let mut one = owned(&["only"]);
    sort_keys(&mut one);
    assert_eq!(one, owned(&["only"]));
}
