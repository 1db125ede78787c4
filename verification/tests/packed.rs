use blake2::digest::{Update, VariableOutput};
use blake2::VarBlake2b;
use mrklt::error::TreeError;
use mrklt::inclusion::ProofElem;
use mrklt::merge::Merge;
use mrklt::packed::{
    compute_root, construct, create_proof, split32, to_fixed, verify_proof, Blake2b256Spr,
};

const LEAF_OF_ZEROS: [u8; 32] = [
    137, 235, 13, 106, 138, 105, 29, 174, 44, 209, 94, 208, 54, 153, 49, 206, 10, 148, 158, 202,
    250, 92, 63, 147, 248, 18, 24, 51, 100, 110, 21, 195,
];

const MERGE_OF_ONES_AND_TWOS: [u8; 32] = [
    48, 182, 0, 251, 31, 12, 192, 179, 240, 252, 40, 205, 203, 115, 137, 64, 90, 102, 89, 190,
    129, 199, 213, 197, 144, 87, 37, 170, 58, 81, 25, 206,
];

const ROOT_OF_ONES_TWOS: [u8; 32] = [
    180, 31, 7, 124, 161, 36, 245, 239, 83, 83, 112, 218, 244, 28, 116, 162, 188, 72, 186, 126,
    184, 104, 231, 51, 124, 193, 247, 244, 171, 255, 28, 174,
];

const ROOT_OF_ONES_TWOS_THREES: [u8; 32] = [
    43, 115, 32, 112, 131, 138, 143, 157, 237, 227, 246, 111, 56, 148, 40, 249, 140, 134, 69,
    221, 53, 193, 205, 236, 179, 102, 34, 84, 213, 17, 93, 26,
];

fn pack(values: &[u8]) -> Vec<u8> {
    values.iter().flat_map(|v| [*v; 32]).collect()
}

fn blake2b(parts: &[&[u8]]) -> [u8; 32] {
    let mut hasher = VarBlake2b::new(32).unwrap();
    for p in parts {
        hasher.update(p);
    }
    let mut out = [0u8; 32];
    hasher.finalize_variable(|d| out.copy_from_slice(d));
    out
}

#[test]
fn leaf_is_the_blake2b_digest_of_the_leaf() {
    assert_eq!(Blake2b256Spr::leaf(&[0u8; 32]), LEAF_OF_ZEROS);
    assert_ne!(Blake2b256Spr::leaf(&[0u8; 32]), [0u8; 32]);
    assert_eq!(Blake2b256Spr::leaf(&[7u8; 32]), blake2b(&[&[7u8; 32]]));
}

#[test]
fn merge_is_the_blake2b_digest_of_left_then_right() {
    assert_eq!(
        Blake2b256Spr::merge(&[1u8; 32], &[2u8; 32]),
        MERGE_OF_ONES_AND_TWOS
    );
    assert_eq!(
        Blake2b256Spr::merge(&[1u8; 32], &[2u8; 32]),
        blake2b(&[&[1u8; 32], &[2u8; 32]])
    );
    assert_ne!(
        Blake2b256Spr::merge(&[2u8; 32], &[1u8; 32]),
        MERGE_OF_ONES_AND_TWOS
    );
}

#[test]
fn to_fixed_copies_the_bytes() {
    let bytes: Vec<u8> = (0..32).collect();
    let fixed = to_fixed(&bytes);
    assert_eq!(&fixed[..], &bytes[..]);
}

#[test]
fn split32_cuts_every_32_bytes() {
    assert_eq!(split32(&[]), Vec::<[u8; 32]>::new());
    assert_eq!(split32(&pack(&[9])), vec![[9u8; 32]]);
    assert_eq!(split32(&pack(&[1, 2, 3])), vec![[1u8; 32], [2u8; 32], [3u8; 32]]);
    let bytes: Vec<u8> = (0..64).collect();
    let leaves = split32(&bytes);
    assert_eq!(leaves.len(), 2);
    assert_eq!(leaves[0][0], 0);
    assert_eq!(leaves[0][31], 31);
    assert_eq!(leaves[1][0], 32);
    assert_eq!(leaves[1][31], 63);
}

#[test]
fn packed_roots_are_these() {
    assert_eq!(compute_root(&pack(&[0])), Ok(LEAF_OF_ZEROS));
    assert_eq!(compute_root(&pack(&[1, 2])), Ok(ROOT_OF_ONES_TWOS));
    assert_eq!(compute_root(&pack(&[1, 2, 3])), Ok(ROOT_OF_ONES_TWOS_THREES));
    assert_eq!(compute_root(&[]), Err(TreeError::EmptyInput));
}

#[test]
fn packed_proof_for_three_leaves() {
    let leaves = pack(&[1, 2, 3]);
    let proof = create_proof(0, &leaves).ok().unwrap();
    assert_eq!(
        proof.to_vec(),
        vec![
            ProofElem::Right(blake2b(&[&[2u8; 32]])),
            ProofElem::Right(blake2b(&[&[3u8; 32]])),
        ]
    );
    assert_eq!(verify_proof(&[1u8; 32], &proof), ROOT_OF_ONES_TWOS_THREES);

    let proof = create_proof(2, &leaves).ok().unwrap();
    assert_eq!(proof.to_vec(), vec![ProofElem::Left(ROOT_OF_ONES_TWOS)]);
    assert_eq!(verify_proof(&[3u8; 32], &proof), ROOT_OF_ONES_TWOS_THREES);

    assert_eq!(create_proof(3, &leaves), Err(TreeError::IndexOutOfRange));
    assert_eq!(create_proof(0, &[]), Err(TreeError::EmptyInput));
}

#[test]
fn construct_gives_the_root_and_a_proof_for_every_leaf() {
    for n in 1..=33u8 {
        let values: Vec<u8> = (0..n).collect();
        let leaves = pack(&values);
        let (root, proofs) = construct(&leaves).ok().unwrap();
        assert_eq!(Ok(root), compute_root(&leaves));
        assert_eq!(proofs.len(), n as usize);
        for (i, proof) in proofs.iter().enumerate() {
            assert_eq!(Ok(proof), create_proof(i, &leaves).as_ref());
            assert_eq!(verify_proof(&leaves[32 * i..32 * i + 32], proof), root);
        }
    }
    assert_eq!(construct(&[]).err(), Some(TreeError::EmptyInput));
}
