use voxel_compare::bytes::{node_words, nodes_as_bytes, words_as_bytes};
use voxel_compare::svo::SvoNode;

fn native(words: &[u32]) -> Vec<u8> {
    words.iter().flat_map(|w| w.to_ne_bytes()).collect()
}

#[test]
fn words_become_native_bytes() {
    let words = vec![0x0102_0304u32, 0xA0B0_C0D0, 7];
    let bytes = words_as_bytes(&words);
    assert_eq!(bytes.len(), 12);
    assert_eq!(bytes, native(&words));
    let le = vec![4u8, 3, 2, 1, 0xD0, 0xC0, 0xB0, 0xA0, 7, 0, 0, 0];
    let be = vec![1u8, 2, 3, 4, 0xA0, 0xB0, 0xC0, 0xD0, 0, 0, 0, 7];
    assert!(bytes == le || bytes == be);
}

#[test]
fn empty_words_have_no_bytes() {
    assert!(words_as_bytes(&Vec::new()).is_empty());
}

#[test]
fn node_words_in_order() {
    let nodes = vec![
        SvoNode { children: [0, 1, 2, 3, 4, 5, 6, 7] },
        SvoNode { children: [10, 11, 12, 13, 14, 15, 16, 17] },
    ];
    let words = node_words(&nodes);
    assert_eq!(words, vec![0, 1, 2, 3, 4, 5, 6, 7, 10, 11, 12, 13, 14, 15, 16, 17]);
    let bytes = nodes_as_bytes(&nodes);
    assert_eq!(bytes.len(), 64);
    assert_eq!(bytes, native(&words));
}
