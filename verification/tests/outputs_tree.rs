use machine_operator::outputs_merkle::{create_proofs, TooManyLeaves};

const HELLO: &str = "1c8aff950685c2ed4bc3174f3472287b56d9517b9c948127319a09a7a36deac8";
const WORLD: &str = "8452c9b9140222b08593a26daa782707297be9f7b3e8281d7b4974769f19afd0";
const EMPTY: &str = "c5d2460186f7233c927e7db2dcc703c0e500b653ca82273b7bfad8045d85a470";

fn digest(text: &str) -> [u8; 32] {
    hex::decode(text).unwrap().try_into().unwrap()
}

fn keccak_of_pair(left: &[u8; 32], right: &[u8; 32]) -> [u8; 32] {
    let mut hasher = alloy_primitives::utils::Keccak256::new();
    hasher.update(left);
    hasher.update(right);
    hasher.finalize().0
}

fn folded(leaf: [u8; 32], index: usize, siblings: &[[u8; 32]]) -> [u8; 32] {
    let mut at = index;
    let mut current = leaf;
    for sibling in siblings {
        current = if at % 2 == 0 {
            keccak_of_pair(&current, sibling)
        } else {
            keccak_of_pair(sibling, &current)
        };
        at /= 2;
    }
    current
}

#[test]
fn no_leaves_give_the_pristine_root() {
    let (root, proofs) = create_proofs(vec![], 63).unwrap();
    assert_eq!(hex::encode(root), "0a162946e56158bac0673e6dd3bdfdc1e4a0e7744a120fdb640050c8d7abe1c6");
    assert!(proofs.is_empty());
}

#[test]
fn three_leaves_of_a_full_height() {
    let leaves = vec![digest(HELLO), digest(WORLD), digest(EMPTY)];
    let (root, proofs) = create_proofs(leaves.clone(), 63).unwrap();
    assert_eq!(hex::encode(root), "00bd680979a7a42d2e9bea1be93b2d4dd24f3ad3a01084ded0c9aa7b6e098a9c");
    assert_eq!(proofs.len(), 3);
    for (index, siblings) in proofs.iter().enumerate() {
        assert_eq!(siblings.len(), 63);
        assert_eq!(folded(leaves[index], index, siblings), root);
    }
}

#[test]
fn siblings_of_a_small_tree() {
    let (root, proofs) = create_proofs(vec![digest(HELLO), digest(WORLD), digest(EMPTY)], 2).unwrap();
    assert_eq!(hex::encode(root), "e69f468718a2926e9ba58f0ae11e0e53b7a6e3851c4a0c25583a1818d9ce312d");
    let left = digest("817f9cf412e48771da9077a54e99b92c920c5a08b06477d97fcc2b64ad9eea8f");
    let right = digest("68170bf1a62470defe6e818dab6c626693c096d25179020019d7a7b20114d233");
    assert_eq!(proofs[0], vec![digest(WORLD), right]);
    assert_eq!(proofs[1], vec![digest(HELLO), right]);
    assert_eq!(proofs[2], vec![[0u8; 32], left]);
}

#[test]
fn zero_leaves_count_as_missing_ones() {
    let (root, _) = create_proofs(vec![digest(HELLO)], 5).unwrap();
    let (padded, _) = create_proofs(vec![digest(HELLO), [0u8; 32]], 5).unwrap();
    assert_eq!(root, padded);
}

#[test]
fn a_tree_of_height_zero_is_its_leaf() {
    let (root, proofs) = create_proofs(vec![digest(HELLO)], 0).unwrap();
    assert_eq!(root, digest(HELLO));
    assert_eq!(proofs, vec![Vec::<[u8; 32]>::new()]);
}

#[test]
fn more_leaves_than_fit() {
    assert!(create_proofs(vec![[1u8; 32]; 4], 2).is_ok());
    assert!(matches!(create_proofs(vec![[1u8; 32]; 5], 2), Err(TooManyLeaves)));
    assert!(matches!(create_proofs(vec![[1u8; 32]; 2], 0), Err(TooManyLeaves)));
}
