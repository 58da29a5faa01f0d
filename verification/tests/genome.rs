use kitties::genome::breed_dna;
use kitties::genome::random_value;
use kitties::genome::EntropyContext;

#[test]
fn crossover_multiplexes_bits_exactly() {
    let selector = [0xF0u8; 16];
    let dna1 = [0xAAu8; 16];
    let dna2 = [0x55u8; 16];
    let child = breed_dna(&selector, &dna1, &dna2);
    // high nibble from the first parent, low nibble from the second
    assert_eq!(child, [0xA5u8; 16]);
}

#[test]
fn crossover_edge_selectors() {
    let dna1 = [0x12u8; 16];
    let dna2 = [0x9Cu8; 16];
    assert_eq!(breed_dna(&[0xFFu8; 16], &dna1, &dna2), dna1);
    assert_eq!(breed_dna(&[0x00u8; 16], &dna1, &dna2), dna2);
}

#[test]
fn crossover_varies_per_byte() {
    let mut selector = [0u8; 16];
    selector[0] = 0xFF;
    selector[5] = 0x0F;
    let dna1 = [0xABu8; 16];
    let dna2 = [0xC4u8; 16];
    let child = breed_dna(&selector, &dna1, &dna2);
    assert_eq!(child[0], 0xAB);
    // low nibble from the first parent, high nibble from the second
    assert_eq!(child[5], 0xCB);
    assert_eq!(child[1], 0xC4);
}

#[test]
fn derivation_is_deterministic() {
    let c = EntropyContext { seed: [9u8; 16], block_number: 11, extrinsic_index: 2 };
    assert_eq!(random_value(&c, 42), random_value(&c, 42));
}

#[test]
fn derivation_depends_on_every_input() {
    let c = EntropyContext { seed: [9u8; 16], block_number: 11, extrinsic_index: 2 };
    let base = random_value(&c, 42);
    assert_ne!(base, random_value(&c, 43));
    let other_seed = EntropyContext { seed: [8u8; 16], ..c };
    assert_ne!(base, random_value(&other_seed, 42));
    let other_block = EntropyContext { block_number: 12, ..c };
    assert_ne!(base, random_value(&other_block, 42));
    let other_index = EntropyContext { extrinsic_index: 3, ..c };
    assert_ne!(base, random_value(&other_index, 42));
}

#[test]
fn derivation_is_a_digest_not_the_payload() {
    // the digest has a fixed 16-byte width and echoes none of its inputs
    let c = EntropyContext { seed: [0u8; 16], block_number: 0, extrinsic_index: 0 };
    let out = random_value(&c, 0);
    assert_ne!(out, [0u8; 16]);
}
