use manga_reader::order::{is_before, page_order};

fn keys(names: &[&str]) -> Vec<Vec<u8>> {
    names.iter().map(|name| name.as_bytes().to_vec()).collect()
}

#[test]
fn names_are_ordered_byte_by_byte() {
    assert_eq!(page_order(&keys(&["b.png", "a.png", "c.png"])), vec![1, 0, 2]);
}

#[test]
fn numbers_in_names_are_not_read_as_numbers() {
    let names = keys(&["page2", "page10", "page1"]);
    assert_eq!(page_order(&names), vec![2, 1, 0]);
    assert!(is_before(b"page10", b"page2"));
    assert!(!is_before(b"page2", b"page10"));
}

#[test]
fn equal_names_keep_their_listing_order() {
    let names = keys(&["x", "a", "x", "a", "x"]);
    assert_eq!(page_order(&names), vec![1, 3, 0, 2, 4]);
}

#[test]
fn a_prefix_comes_first() {
    assert!(is_before(b"", b"a"));
    assert!(is_before(b"ab", b"abc"));
    assert!(!is_before(b"abc", b"ab"));
    assert!(!is_before(b"abc", b"abc"));
    assert!(!is_before(b"", b""));
    assert_eq!(page_order(&keys(&["abc", "ab", "", "a"])), vec![2, 3, 1, 0]);
}

#[test]
fn bytes_compare_as_unsigned() {
    assert!(is_before(&[0x7f], &[0x80]));
    assert!(is_before(b"Z", b"a"));
    assert!(is_before("z".as_bytes(), "é".as_bytes()));
    assert_eq!(page_order(&vec![vec![0xff], vec![0x00], vec![0x80]]), vec![1, 2, 0]);
}

#[test]
fn no_names_give_an_empty_order() {
    assert_eq!(page_order(&Vec::new()), Vec::<usize>::new());
    assert_eq!(page_order(&keys(&["only"])), vec![0]);
}

#[test]
fn page_order_agrees_with_an_independent_sort() {
    let mut names = Vec::new();
    let mut seed: u32 = 12345;
    for _ in 0..200 {
        let mut name = Vec::new();
        seed = seed.wrapping_mul(1664525).wrapping_add(1013904223);
        let len = (seed >> 24) % 5;
        for _ in 0..len {
            seed = seed.wrapping_mul(1664525).wrapping_add(1013904223);
            name.push(b'a' + ((seed >> 24) % 3) as u8);
        }
        names.push(name);
    }
    let order = page_order(&names);
    let mut expected: Vec<usize> = (0..names.len()).collect();
    expected.sort_by(|x, y| names[*x].cmp(&names[*y]));
    assert_eq!(order, expected);
}

#[test]
fn sorted_and_reversed_listings_give_the_same_pages() {
    let up = keys(&["01", "02", "03", "04"]);
    let down = keys(&["04", "03", "02", "01"]);
    assert_eq!(page_order(&up), vec![0, 1, 2, 3]);
    assert_eq!(page_order(&down), vec![3, 2, 1, 0]);
}
