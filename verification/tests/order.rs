use llamadeck::order::sorted;

fn names(list: &[&str]) -> Vec<String> {
    list.iter().map(|s| s.to_string()).collect()
}

#[test]
fn texts_are_sorted_by_their_characters() {
    assert_eq!(sorted(names(&["b", "a", "Б", "A", "aa", "", "b"])), names(&["", "A", "a", "aa", "b", "b", "Б"]));
    assert_eq!(sorted(names(&[])), names(&[]));
    assert_eq!(sorted(names(&["x"])), names(&["x"]));
}

#[test]
fn sorting_agrees_with_the_standard_order() {
    let mut list: Vec<String> = Vec::new();
    let mut seed: u32 = 12345;
    for _ in 0..500 {
        seed = seed.wrapping_mul(1664525).wrapping_add(1013904223);
        let code = 0x20 + (seed >> 8) % 0x2fff;
        let first = char::from_u32(code).unwrap_or('x');
        list.push(format!("{}{}", first, (seed >> 4) % 17));
    }
    let mut expected = list.clone();
    expected.sort();
    assert_eq!(sorted(list), expected);
}
