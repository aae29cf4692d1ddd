use rawhip::blocks::{
    iq3s_blocks, q4k_blocks, q51_counting, q8_matrix, q8_single, ramp_expected, sevens, Pattern,
};
use rawhip::checks::{EPS_5, EPS_6};
use rawhip::compare::{
    count_different_values, count_non_finite, count_same_bits, find_large, first_difference,
    value_eq, value_exceeds,
};
use rawhip::half::{half_bits, half_f32};
use rawhip::hash::{content_key, fnv_hash, fnv_hash_bytes};
use rawhip::q8::{pack_row, pack_rows, unpack_row, Q8Block};
use rawhip::synth::{
    affine_numbers, causal_mask, select_positions, sparse_mask, unit_sum, unit_vector, Lcg,
};
use rawhip::xq_words;

fn bits(x: f32) -> u32 {
    x.to_bits()
}

#[test]
fn tolerances_are_the_decimal_numbers() {
    assert_eq!(EPS_6, bits(1e-6));
    assert_eq!(EPS_5, bits(1e-5));
}

#[test]
fn halves_are_cut_not_rounded() {
    assert_eq!(half_bits(bits(1.0)), 0x3C00);
    assert_eq!(half_bits(bits(-2.0)), 0xC000);
    assert_eq!(half_bits(bits(0.5)), 0x3800);
    assert_eq!(half_bits(bits(65504.0)), 0x7BFF);
    assert_eq!(half_bits(bits(65519.0)), 0x7BFF);
    assert_eq!(half_bits(bits(1.0e6)), 0x7C00);
    assert_eq!(half_bits(bits(1.0e-8)), 0);
    assert_eq!(half_bits(bits(-1.0e-8)), 0x8000);
    assert_eq!(half_bits(bits(1.0 + 1.0 / 1024.0 + 1.0 / 2048.0)), 0x3C01);
}

#[test]
fn halves_widen_exactly() {
    assert_eq!(half_f32(0x3C00), bits(1.0));
    assert_eq!(half_f32(0xC000), bits(-2.0));
    assert_eq!(half_f32(0x0001), bits(1.0 / 16777216.0));
    assert_eq!(half_f32(0x03FF), bits(1023.0 / 16777216.0));
    assert_eq!(half_f32(0), 0);
}

#[test]
fn normal_halves_survive_the_round_trip() {
    let mut h: u32 = 0x0400;
    while h < 0x7C00 {
        assert_eq!(half_bits(half_f32(h as u16)), h as u16);
        h += 1;
    }
}

#[test]
fn hash_of_bytes_is_fnv_1a() {
    assert_eq!(fnv_hash_bytes(b""), 0xcbf29ce484222325);
    assert_eq!(fnv_hash_bytes(b"a"), 0xaf63dc4c8601ec8c);
    assert_eq!(fnv_hash_bytes(b"foobar"), 0x85944171f73967e8);
}

#[test]
fn hash_of_words_steps_once_per_word() {
    let mut h: u64 = 0xcbf29ce484222325;
    for w in [bits(1.5), bits(-3.0)] {
        h ^= w as u64;
        h = h.wrapping_mul(0x100000001b3);
    }
    assert_eq!(fnv_hash(&[bits(1.5), bits(-3.0)]), h);
}

#[test]
fn one_changed_word_or_byte_changes_the_hash() {
    let words = [bits(1.5), 0, bits(-3.0)];
    let text = *b"foobar";
    for i in 0..3usize {
        for bit in 0..32u32 {
            let mut other = words;
            other[i] ^= 1 << bit;
            assert_ne!(fnv_hash(&other), fnv_hash(&words));
        }
    }
    for i in 0..6usize {
        let mut other = text;
        other[i] ^= 0x80;
        assert_ne!(fnv_hash_bytes(&other), fnv_hash_bytes(&text));
    }
}

#[test]
fn content_key_hashes_the_bytes_in_memory() {
    let words: Vec<u32> = vec![bits(1.5), bits(-3.0), 0x01020304];
    let mut bytes: Vec<u8> = Vec::new();
    for w in &words {
        bytes.extend_from_slice(&w.to_ne_bytes());
    }
    assert_eq!(content_key(&words), fnv_hash_bytes(&bytes));
    assert_ne!(content_key(&words), fnv_hash(&words));
    assert_eq!(content_key(&[]), 0xcbf29ce484222325);
}

#[test]
fn packed_rows_hold_values_scales_and_half_sums() {
    let mut qs = [0i8; 32];
    for (i, q) in qs.iter_mut().enumerate() {
        *q = i as i8 - 20;
    }
    let block = Q8Block { qs, d: bits(0.25) };
    let row = pack_row(&vec![block], true);
    assert_eq!(row.len(), xq_words(32));
    assert_eq!(row[0], u32::from_le_bytes([(-20i8) as u8, (-19i8) as u8, (-18i8) as u8, (-17i8) as u8]));
    assert_eq!(row[7], u32::from_le_bytes([8, 9, 10, 11]));
    assert_eq!(row[8], bits(0.25));
    let low: i32 = (0..16).map(|i| i - 20).sum();
    let high: i32 = (16..32).map(|i| i - 20).sum();
    assert_eq!(row[9] as i32, low);
    assert_eq!(row[10] as i32, high);
    assert_eq!(pack_row(&vec![block], false).len(), 9);
    assert_eq!(pack_rows(&vec![vec![block], vec![block]], false).len(), 18);
}

#[test]
fn packed_rows_read_back() {
    let mut blocks: Vec<Q8Block> = Vec::new();
    for b in 0..3usize {
        let mut qs = [0i8; 32];
        for (i, q) in qs.iter_mut().enumerate() {
            *q = (((b * 77 + i * 31) % 255) as i32 - 127) as i8;
        }
        blocks.push(Q8Block { qs, d: bits(b as f32 + 0.5) });
    }
    let back = unpack_row(&pack_row(&blocks, true), 96);
    assert_eq!(back.len(), 96);
    for (i, s) in back.iter().enumerate() {
        assert_eq!(s.q, blocks[i / 32].qs[i % 32]);
        assert_eq!(s.d, blocks[i / 32].d);
    }
}

#[test]
fn values_behind_the_last_block_read_as_zero() {
    let mut words = vec![0xfc03_0201u32; 10];
    words.push(bits(2.0));
    let back = unpack_row(&words, 40);
    assert_eq!(back.len(), 40);
    assert_eq!((back[0].q, back[3].q, back[31].q), (1, -4, -4));
    assert!(back[..32].iter().all(|s| s.d == bits(2.0)));
    assert!(back[32..].iter().all(|s| s.q == 0 && s.d == 0));
}

#[test]
fn values_compare_as_numbers() {
    assert!(value_eq(bits(0.0), bits(-0.0)));
    assert!(!value_eq(bits(f32::NAN), bits(f32::NAN)));
    assert!(value_eq(bits(1.5), bits(1.5)));
    assert!(value_exceeds(bits(-2.5), bits(2.0)));
    assert!(!value_exceeds(bits(2.0), bits(2.0)));
    assert!(!value_exceeds(bits(f32::NAN), bits(2.0)));
}

#[test]
fn differences_are_counted_and_found() {
    let a = [bits(1.0), bits(0.0), bits(3.0), bits(f32::INFINITY)];
    let b = [bits(1.0), bits(-0.0), bits(4.0), bits(f32::INFINITY)];
    assert_eq!(count_same_bits(&a, &b), 2);
    assert_eq!(count_different_values(&a, &b), 1);
    assert_eq!(first_difference(&a, &b), Some(1));
    assert_eq!(first_difference(&a, &a), None);
    assert_eq!(count_same_bits(&a, &a), 4);
    assert_eq!(find_large(&a, bits(2.0)), vec![2, 3]);
    assert_eq!(count_non_finite(&[bits(1.0), bits(f32::NAN), bits(f32::NEG_INFINITY)]), 2);
}

#[test]
fn draws_continue_where_they_stopped() {
    let mut one = Lcg::new(7);
    let mut two = Lcg::new(7);
    let all = one.draws(10);
    let mut parts = two.draws(4);
    parts.extend(two.draws(6));
    assert_eq!(all, parts);
    let s = 7u64.wrapping_mul(6364136223846793005).wrapping_add(1442695040888963407);
    assert_eq!(all[0], (s >> 33) as u32);
}

#[test]
fn synthetic_vectors() {
    assert_eq!(affine_numbers(5, 7, 3, 10), vec![3, 0, 7, 4, 1]);
    assert_eq!(unit_vector(3, 1), vec![0, bits(1.0), 0]);
    assert_eq!(unit_sum(4, &vec![3, 0, 3]), vec![bits(1.0), 0, 0, bits(1.0)]);
}

#[test]
fn masks_and_lists_agree() {
    let mask = sparse_mask(2, 10);
    for tok in 0..2usize {
        let now = 8 + tok;
        for p in 0..10usize {
            let sees = p <= now && p / 4 + 2 > now / 4;
            assert_eq!(mask[tok * 10 + p], sees as u32);
        }
    }
    let sel = select_positions(&mask, 2, 10);
    assert_eq!(sel.off[0], 0);
    assert_eq!(sel.off.len(), 3);
    for tok in 0..2usize {
        let list = &sel.idx[sel.off[tok] as usize..sel.off[tok + 1] as usize];
        let want: Vec<u32> = (0..10u32).filter(|&p| mask[tok * 10 + p as usize] == 1).collect();
        assert_eq!(list, want.as_slice());
    }
    assert_eq!(causal_mask(3, 4, 2), vec![1, 0, 0, 0, 1, 1, 0, 0, 1, 1, 0, 0]);
}

#[test]
fn ramp_scales_are_sixteenths() {
    let m = q8_matrix(Pattern::Ramp, 1, 16);
    assert_eq!(m.len(), 16 * 34);
    for s in 0..16usize {
        let scale = u16::from_le_bytes([m[s * 34], m[s * 34 + 1]]);
        assert_eq!(scale, half_bits(bits((s as f32 + 1.0) / 16.0)));
        assert_eq!(m[s * 34 + 2] as i8, -16);
        assert_eq!(m[s * 34 + 33] as i8, 15);
    }
}

#[test]
fn ramp_rows_sum_to_the_expected_value() {
    let n_sub = 20usize;
    let mut sum = 0i64;
    for s in 0..n_sub {
        for l in 0..32i64 {
            sum += ((s % 16) as i64 + 1) * (l - 16);
        }
    }
    assert_eq!(ramp_expected(Pattern::Ramp, n_sub), sum / 16);
    assert_eq!(ramp_expected(Pattern::RampFirst { nb: 3 }, n_sub), -3);
}

#[test]
fn single_and_identity_blocks() {
    let one = q8_single(5);
    assert_eq!(one.len(), 34);
    assert_eq!(one[2 + 5], 1);
    assert_eq!(one.iter().skip(2).filter(|&&b| b != 0).count(), 1);
    let id = q8_matrix(Pattern::Identity { b: 1 }, 64, 2);
    for o in 0..64usize {
        for l in 0..32usize {
            let want = (o == 32 + l) as u8;
            assert_eq!(id[(o * 2 + 1) * 34 + 2 + l], want);
            assert_eq!(id[o * 2 * 34 + 2 + l], 0);
        }
    }
}

#[test]
fn synthetic_weight_blocks() {
    let q4 = q4k_blocks(2);
    assert_eq!(q4.len(), 288);
    assert_eq!(&q4[..6], &[0, 0x38, 0, 0x30, 0, 13]);
    assert_eq!(q4[144 + 16], 31);
    let q3 = iq3s_blocks(3);
    assert_eq!(&q3[..2], &[0x38, 0x53]);
    assert_eq!(sevens(3), vec![0, 7, 14]);
    let b = q51_counting();
    assert_eq!(b.bytes.len(), 24);
}
