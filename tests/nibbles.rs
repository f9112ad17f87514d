use std::str::FromStr;

use eth_trie_utils::nibbles::Nibbles;
use eth_trie_utils::u256::U256;
use eth_trie_utils::utils::nibbles;

fn trie_key(k: u64) -> U256 {
    U256::from(k)
}

fn assert_pop_nibbles(
    orig: &Nibbles,
    n: usize,
    expected_orig_after_pop: Nibbles,
    expected_resulting_nibbles: Nibbles,
) {
    let mut nib = *orig;
    let res = nib.pop_next_nibbles(n);

    assert_eq!(nib, expected_orig_after_pop);
    assert_eq!(res, expected_resulting_nibbles);
}

fn to_hex_prefix_encoding(k: u64, is_leaf: bool) -> u64 {
    let mut bytes_padded = [0; 8];
    let bytes = nibbles(k).to_hex_prefix_encoding(is_leaf);
    bytes_padded[8 - bytes.len()..8].clone_from_slice(&bytes);

    u64::from_be_bytes(bytes_padded)
}

/// No nibble at or above `count` is set.
fn packing_holds(n: &Nibbles) -> bool {
    n.count <= 64 && (n.count..64).all(|p| n.packed.nibble(p) == 0)
}

#[test]
fn get_nibble_works() {
    let n = nibbles(0x1234);

    assert_eq!(n.get_nibble(0), 0x1);
    assert_eq!(n.get_nibble(3), 0x4);
}

#[test]
fn pop_next_nibbles_works() {
    let nib = nibbles(0x1234);

    assert_pop_nibbles(&nib, 0, nibbles(0x1234), nibbles(0x0));
    assert_pop_nibbles(&nib, 1, nibbles(0x234), nibbles(0x1));
    assert_pop_nibbles(&nib, 3, nibbles(0x4), nibbles(0x123));
    assert_pop_nibbles(&nib, 4, nibbles(0x0), nibbles(0x1234));
}

#[test]
fn get_nibble_range_works() {
    let n = nibbles(0x1234);

    assert_eq!(n.get_nibble_range(0..0), nibbles(0x0));
    assert_eq!(n.get_nibble_range(0..1), nibbles(0x1));
    assert_eq!(n.get_nibble_range(0..2), nibbles(0x12));
    assert_eq!(n.get_nibble_range(0..4), nibbles(0x1234));
}

#[test]
fn truncate_nibble_works() {
    let n = nibbles(0x1234);

    assert_eq!(n.truncate_n_nibbles(0), n);
    assert_eq!(n.truncate_n_nibbles(1), nibbles(0x234));
    assert_eq!(n.truncate_n_nibbles(2), nibbles(0x34));
    assert_eq!(n.truncate_n_nibbles(4), nibbles(0x0));
}

#[test]
fn split_at_idx_works() {
    let n = nibbles(0x1234);

    assert_eq!(n.split_at_idx(0), (nibbles(0x0), nibbles(0x1234)));
    assert_eq!(n.split_at_idx(1), (nibbles(0x1), nibbles(0x234)));
    assert_eq!(n.split_at_idx(2), (nibbles(0x12), nibbles(0x34)));
    assert_eq!(n.split_at_idx(3), (nibbles(0x123), nibbles(0x4)));
}

#[test]
fn split_at_idx_prefix_works() {
    let n = nibbles(0x1234);

    assert_eq!(n.split_at_idx_prefix(0), nibbles(0x0));
    assert_eq!(n.split_at_idx_prefix(1), nibbles(0x1));
    assert_eq!(n.split_at_idx_prefix(3), nibbles(0x123));
}

#[test]
fn split_at_idx_postfix_works() {
    let n = nibbles(0x1234);

    assert_eq!(n.split_at_idx_postfix(0), nibbles(0x1234));
    assert_eq!(n.split_at_idx_postfix(1), nibbles(0x234));
    assert_eq!(n.split_at_idx_postfix(3), nibbles(0x4));
}

#[test]
fn get_nibble_of_trie_key_works() {
    let a = trie_key(0x1234);

    assert_eq!(Nibbles::get_nibble_of_key(&a, 0), 0x1);
    assert_eq!(Nibbles::get_nibble_of_key(&a, 1), 0x2);
    assert_eq!(Nibbles::get_nibble_of_key(&a, 3), 0x4);
}

#[test]
fn merge_works() {
    assert_eq!(nibbles(0x12).merge(&nibbles(0x34)), nibbles(0x1234));
    assert_eq!(nibbles(0x12).merge(&nibbles(0x0)), nibbles(0x12));
    assert_eq!(nibbles(0x0).merge(&nibbles(0x34)), nibbles(0x34));
    assert_eq!(nibbles(0x0).merge(&nibbles(0x0)), nibbles(0x0));
}

#[test]
fn find_nibble_idx_that_differs_between_nibbles_works() {
    assert_eq!(
        Nibbles::find_nibble_idx_that_differs_between_nibbles(&nibbles(0x1234), &nibbles(0x2567)),
        0
    );
    assert_eq!(
        Nibbles::find_nibble_idx_that_differs_between_nibbles(&nibbles(0x1234), &nibbles(0x1256)),
        2
    );
    assert_eq!(
        Nibbles::find_nibble_idx_that_differs_between_nibbles(&nibbles(0x1234), &nibbles(0x1235)),
        3
    );
    assert_eq!(
        Nibbles::find_nibble_idx_that_differs_between_nibbles(&nibbles(0x1234), &nibbles(0x1234)),
        4
    );
}

#[test]
fn nibbles_are_identical_up_to_smallest_count_works() {
    let n = nibbles(0x1234);

    assert!(n.nibbles_are_identical_up_to_smallest_count(&nibbles(0x1234)));
    assert!(n.nibbles_are_identical_up_to_smallest_count(&nibbles(0x1)));
    assert!(n.nibbles_are_identical_up_to_smallest_count(&nibbles(0x12)));

    assert!(!n.nibbles_are_identical_up_to_smallest_count(&nibbles(0x23)));
    assert!(!n.nibbles_are_identical_up_to_smallest_count(&nibbles(0x4)));
    assert!(!n.nibbles_are_identical_up_to_smallest_count(&nibbles(0x5)));
    assert!(!n.nibbles_are_identical_up_to_smallest_count(&nibbles(0x13)));
}

#[test]
fn trie_key_to_nibbles_works() {
    let k = U256::from(0x12);
    let nib = Nibbles::from(k);

    assert_eq!(nib.count, 64);
    assert_eq!(nib.packed, U256::from(0x12));
}

#[test]
fn nibbles_to_hex_prefix_encoding_works() {
    assert_eq!(to_hex_prefix_encoding(0x1234, false), 0x1234);
    assert_eq!(to_hex_prefix_encoding(0x1234, true), 0x201234);
    assert_eq!(to_hex_prefix_encoding(0x12345, false), 0x112345);
    assert_eq!(to_hex_prefix_encoding(0x12345, true), 0x312345);
}

#[test]
fn hex_prefix_encoding_of_empty_path() {
    assert_eq!(&nibbles(0x0).to_hex_prefix_encoding(false)[..], &[0x00][..]);
    assert_eq!(&nibbles(0x0).to_hex_prefix_encoding(true)[..], &[0x20][..]);
    assert_eq!(&nibbles(0x5).to_hex_prefix_encoding(true)[..], &[0x35][..]);
}

#[test]
fn hex_prefix_encoding_of_full_key() {
    let n = Nibbles::from(trie_key(0xab));
    let enc = n.to_hex_prefix_encoding(false);
    assert_eq!(enc.len(), 33);
    assert_eq!(enc[0], 0x00);
    assert_eq!(enc[32], 0xab);
    assert!(enc[1..32].iter().all(|b| *b == 0));
}

#[test]
fn split_then_merge_restores_the_sequence() {
    let n = nibbles(0x12345);
    for idx in 0..=n.count {
        let (pre, post) = n.split_at_idx(idx);
        assert_eq!(pre.merge(&post), n);
    }
}

#[test]
fn pop_then_merge_restores_the_sequence() {
    let orig = nibbles(0xabcdef);
    for k in 0..=orig.count {
        let mut n = orig;
        let r = n.pop_next_nibbles(k);
        assert_eq!(r.merge(&n), orig);
    }
}

#[test]
fn pop_next_nibble_takes_the_first() {
    let mut n = nibbles(0x9a7);
    assert_eq!(n.pop_next_nibble(), 0x9);
    assert_eq!(n, nibbles(0xa7));
    assert_eq!(n.pop_next_nibble(), 0xa);
    assert_eq!(n.pop_next_nibble(), 0x7);
    assert!(n.is_empty());
}

#[test]
fn get_next_nibbles_takes_a_prefix() {
    let n = nibbles(0x1234);
    assert_eq!(n.get_next_nibbles(3), nibbles(0x123));
    assert_eq!(n.get_next_nibbles(0), nibbles(0x0));
}

#[test]
fn differing_index_is_symmetric() {
    let pairs = [(0x1234, 0x2567), (0x1234, 0x1256), (0x1234, 0x1235), (0x1234, 0x1234)];
    for (a, b) in pairs {
        let (a, b) = (nibbles(a), nibbles(b));
        let r1 = Nibbles::find_nibble_idx_that_differs_between_nibbles(&a, &b);
        let r2 = Nibbles::find_nibble_idx_that_differs_between_nibbles(&b, &a);
        assert_eq!(r1, r2);
        assert_eq!(r1 == a.count, a == b);
    }
}

#[test]
fn indexing_examples() {
    let n = nibbles(0x1234);
    assert_eq!(n.count, 4);
    assert_eq!(n.get_nibble(0), 0x1);
    assert_eq!(n.get_nibble(3), 0x4);
    let r = n.get_nibble_range(0..2);
    assert_eq!(r.count, 2);
    assert_eq!(r, nibbles(0x12));
    assert_eq!(n.truncate_n_nibbles(2), nibbles(0x34));
    let (pre, post) = n.split_at_idx(1);
    assert_eq!((pre.count, post.count), (1, 3));
    assert_eq!((pre, post), (nibbles(0x1), nibbles(0x234)));
}

#[test]
fn identical_prefix_examples() {
    assert!(nibbles(0x1234).nibbles_are_identical_up_to_smallest_count(&nibbles(0x12)));
    assert!(!nibbles(0x1234).nibbles_are_identical_up_to_smallest_count(&nibbles(0x13)));
    assert!(nibbles(0x0).nibbles_are_identical_up_to_smallest_count(&nibbles(0x13)));
}

#[test]
fn packing_holds_after_every_operation() {
    let n = nibbles(0xfedcba98);
    assert!(packing_holds(&n));
    for i in 0..=n.count {
        assert!(packing_holds(&n.truncate_n_nibbles(i)));
        assert!(packing_holds(&n.split_at_idx_prefix(i)));
        assert!(packing_holds(&n.split_at_idx_postfix(i)));
        let (pre, post) = n.split_at_idx(i);
        assert!(packing_holds(&pre) && packing_holds(&post));
        assert!(packing_holds(&pre.merge(&post)));
        let mut m = n;
        let r = m.pop_next_nibbles(i);
        assert!(packing_holds(&m) && packing_holds(&r));
        for j in i..=n.count {
            assert!(packing_holds(&n.get_nibble_range(i..j)));
        }
    }
    let mut m = n;
    m.truncate_n_nibbles_mut(3);
    assert!(packing_holds(&m));
    assert_eq!(m, nibbles(0xcba98));
    let full = Nibbles::from(U256::from(u64::MAX));
    assert!(packing_holds(&full.truncate_n_nibbles(50)));
    assert_eq!(full.truncate_n_nibbles(50).count, 14);
}

#[test]
fn num_nibbles_in_key() {
    assert_eq!(Nibbles::get_num_nibbles_in_key(&U256::from(0)), 0);
    assert_eq!(Nibbles::get_num_nibbles_in_key(&U256::from(0x1)), 1);
    assert_eq!(Nibbles::get_num_nibbles_in_key(&U256::from(0x10)), 2);
    assert_eq!(Nibbles::get_num_nibbles_in_key(&U256::from(0x12345)), 5);
    assert_eq!(Nibbles::get_num_nibbles_in_key(&U256::from(u64::MAX)), 16);
}

#[test]
fn min_bytes_and_bytes() {
    assert_eq!(nibbles(0x1234).min_bytes(), 2);
    assert_eq!(nibbles(0x123).min_bytes(), 2);
    assert_eq!(nibbles(0x0).min_bytes(), 0);
    assert_eq!(nibbles(0x1234).bytes(), vec![0x12, 0x34]);
    assert_eq!(nibbles(0x123).bytes(), vec![0x01, 0x23]);
    assert_eq!(nibbles(0x0).bytes(), Vec::<u8>::new());
}

#[test]
fn as_hex_str_renders_each_nibble() {
    assert_eq!(nibbles(0x1234).as_hex_str(), "0x1234");
    assert_eq!(nibbles(0x123).as_hex_str(), "0x123");
    assert_eq!(nibbles(0xabc).as_hex_str(), "0xabc");
    assert_eq!(nibbles(0x0).as_hex_str(), "0x0");
    let n = Nibbles { count: 4, packed: U256::from(0x12) };
    assert_eq!(n.as_hex_str(), "0x0012");
}

#[test]
fn from_str_infers_the_count() {
    let n = Nibbles::from_str("0x1234").unwrap();
    assert_eq!(n, nibbles(0x1234));
    let n = Nibbles::from_str("00ABC").unwrap();
    assert_eq!(n, nibbles(0xabc));
    assert_eq!(n.count, 3);
    let z = Nibbles::from_str("0x0").unwrap();
    assert_eq!(z.count, 0);
}

#[test]
fn from_str_rejects_bad_hex() {
    assert!(Nibbles::from_str("0xzz").is_err());
    assert!(Nibbles::from_str("hello").is_err());
    let too_long = format!("0x{}", "1".repeat(65));
    assert!(Nibbles::from_str(&too_long).is_err());
    let longest = format!("0x{}", "f".repeat(64));
    assert_eq!(Nibbles::from_str(&longest).unwrap().count, 64);
}

#[test]
fn u256_conversions() {
    let n = nibbles(0x77);
    let k: U256 = n.into();
    assert_eq!(k, U256::from(0x77));
    assert_eq!(k.byte(0), 0x77);
    assert_eq!(k.nibble(1), 0x7);
    assert!(U256::zero().is_zero());
    assert!(!k.is_zero());
}
