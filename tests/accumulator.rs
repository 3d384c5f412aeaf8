use optics_base::merkle::{hash_concat, verify, Accumulator, AccumulatorError, Digest, Leaf};
use sha3::{Digest as _, Keccak256};

fn leaf_digest(k: u8) -> Digest {
    let mut d = [0u8; 32];
    d[0] = k;
    d[31] = k.wrapping_mul(7);
    d
}

fn fed(n: u32) -> Accumulator {
    let mut acc = Accumulator::new();
    for i in 0..n {
        acc.ingest(Leaf { index: i, digest: leaf_digest(i as u8) }).unwrap();
    }
    acc
}

fn keccak_pair(a: &Digest, b: &Digest) -> Digest {
    let mut h = Keccak256::new();
    h.update(a);
    h.update(b);
    h.finalize().into()
}

fn zero_nodes() -> Vec<Digest> {
    let mut z = vec![[0u8; 32]];
    for h in 0..32 {
        let below = z[h];
        z.push(keccak_pair(&below, &below));
    }
    z
}

fn naive_root(leaves: &[Digest]) -> Digest {
    let zeros = zero_nodes();
    let mut layer: Vec<Digest> = leaves.to_vec();
    for h in 0..32 {
        let mut next = Vec::new();
        let mut j = 0;
        while j < layer.len() {
            let right = if j + 1 < layer.len() { layer[j + 1] } else { zeros[h] };
            next.push(keccak_pair(&layer[j], &right));
            j += 2;
        }
        layer = next;
    }
    if layer.is_empty() { zeros[32] } else { layer[0] }
}

fn from_hex32(s: &str) -> Digest {
    let v = hex::decode(s).unwrap();
    let mut d = [0u8; 32];
    d.copy_from_slice(&v);
    d
}

#[test]
fn empty_root_is_known_constant() {
    let acc = Accumulator::new();
    assert_eq!(acc.count(), 0);
    assert_eq!(
        acc.root(),
        from_hex32("27ae5ba08d7291c96c8cbddcc148bf48a6d68c7974b94356f53754ef6171d757")
    );
}

#[test]
fn hash_concat_is_keccak_of_both() {
    let a = leaf_digest(1);
    let b = leaf_digest(2);
    assert_eq!(hash_concat(&a, &b), keccak_pair(&a, &b));
    assert_ne!(hash_concat(&a, &b), hash_concat(&b, &a));
}

#[test]
fn root_matches_full_tree_for_small_counts() {
    for n in 0..20u32 {
        let acc = fed(n);
        let leaves: Vec<Digest> = (0..n).map(|i| leaf_digest(i as u8)).collect();
        assert_eq!(acc.count(), n as u64);
        assert_eq!(acc.root(), naive_root(&leaves), "count {}", n);
    }
}

#[test]
fn every_leaf_proves_against_the_root() {
    for n in 1..18u32 {
        let acc = fed(n);
        let root = acc.root();
        for i in 0..n {
            let proof = acc.prove(i as u64).unwrap();
            assert_eq!(proof.index, i as u64);
            assert_eq!(proof.path.len(), 32);
            assert!(verify(&root, &proof, &leaf_digest(i as u8)), "count {} leaf {}", n, i);
        }
    }
}

#[test]
fn proof_rejects_other_leaf_or_root() {
    let acc = fed(5);
    let root = acc.root();
    let proof = acc.prove(2).unwrap();
    assert!(!verify(&root, &proof, &leaf_digest(3)));
    assert!(!verify(&leaf_digest(9), &proof, &leaf_digest(2)));
    let mut short = proof.clone();
    short.path.pop();
    assert!(!verify(&root, &short, &leaf_digest(2)));
    let mut moved = proof.clone();
    moved.index = 3;
    assert!(!verify(&root, &moved, &leaf_digest(2)));
}

#[test]
fn prove_out_of_range_fails() {
    let acc = fed(4);
    assert!(matches!(
        acc.prove(4),
        Err(AccumulatorError::IndexOutOfRange { index: 4, count: 4 })
    ));
    assert!(matches!(
        Accumulator::new().prove(0),
        Err(AccumulatorError::IndexOutOfRange { index: 0, count: 0 })
    ));
}

#[test]
fn ingest_out_of_order_is_refused() {
    let mut acc = fed(3);
    let before = acc.root();
    let r = acc.ingest(Leaf { index: 5, digest: leaf_digest(5) });
    assert_eq!(r, Err(AccumulatorError::OutOfOrder { expected: 3, got: 5 }));
    let r = acc.ingest(Leaf { index: 2, digest: leaf_digest(2) });
    assert_eq!(r, Err(AccumulatorError::OutOfOrder { expected: 3, got: 2 }));
    assert_eq!(acc.count(), 3);
    assert_eq!(acc.root(), before);
}

#[test]
fn same_leaves_same_order_same_root() {
    let a = fed(7);
    let b = fed(7);
    assert_eq!(a.root(), b.root());
}

#[test]
fn different_order_gives_different_root() {
    let mut a = Accumulator::new();
    let mut b = Accumulator::new();
    a.ingest(Leaf { index: 0, digest: leaf_digest(1) }).unwrap();
    a.ingest(Leaf { index: 1, digest: leaf_digest(2) }).unwrap();
    b.ingest(Leaf { index: 0, digest: leaf_digest(2) }).unwrap();
    b.ingest(Leaf { index: 1, digest: leaf_digest(1) }).unwrap();
    assert_ne!(a.root(), b.root());
}

#[test]
fn readers_are_idempotent() {
    let acc = fed(6);
    let r1 = acc.root();
    let c1 = acc.count();
    let r2 = acc.root();
    let c2 = acc.count();
    assert_eq!(r1, r2);
    assert_eq!(c1, c2);
    assert_eq!(c1, 6);
}
