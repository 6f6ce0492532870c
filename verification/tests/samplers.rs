use rusty_llama::logit::{count_at_least, kth_largest_of, lt, stable_order, total_key_of, NEG_INFINITY_BITS};
use rusty_llama::samplers::{argmax, Greedy, TopK};

fn bits(v: &[f32]) -> Vec<u32> {
    v.iter().map(|x| x.to_bits()).collect()
}

fn floats(v: &[u32]) -> Vec<f32> {
    v.iter().map(|b| f32::from_bits(*b)).collect()
}

#[test]
fn neg_infinity_bits() {
    assert_eq!(NEG_INFINITY_BITS, f32::NEG_INFINITY.to_bits());
}

#[test]
fn lt_matches_ieee() {
    let vals = [
        f32::NEG_INFINITY,
        -3.5,
        -0.0,
        0.0,
        1e-40,
        2.0,
        f32::INFINITY,
        f32::NAN,
        -f32::NAN,
    ];
    for a in vals {
        for b in vals {
            assert_eq!(lt(a.to_bits(), b.to_bits()), a < b, "{a} < {b}");
        }
    }
}

#[test]
fn total_key_matches_total_cmp() {
    let vals = [f32::NEG_INFINITY, -3.5, -0.0, 0.0, 2.0, f32::INFINITY, f32::NAN, -f32::NAN];
    for a in vals {
        for b in vals {
            let ours = total_key_of(a.to_bits()).cmp(&total_key_of(b.to_bits()));
            assert_eq!(ours, a.total_cmp(&b));
        }
    }
}

#[test]
fn top_k_masks_below_kth() {
    let mut l = bits(&[1.0, 2.0, 0.5, 3.0]);
    TopK::new(2).apply_mut(&mut l);
    assert_eq!(floats(&l), vec![f32::NEG_INFINITY, 2.0, f32::NEG_INFINITY, 3.0]);
}

#[test]
fn top_k_keeps_ties() {
    let mut l = bits(&[1.0, 2.0, 2.0, 0.0, 2.0]);
    TopK::new(2).apply_mut(&mut l);
    assert_eq!(floats(&l), vec![f32::NEG_INFINITY, 2.0, 2.0, f32::NEG_INFINITY, 2.0]);
}

#[test]
fn top_k_non_positive_is_noop() {
    let orig = bits(&[1.0, 2.0, 0.5]);
    let mut l = orig.clone();
    TopK::new(0).apply_mut(&mut l);
    assert_eq!(l, orig);
    TopK::new(-3).apply_mut(&mut l);
    assert_eq!(l, orig);
}

#[test]
fn top_k_at_least_len_is_noop() {
    let orig = bits(&[1.0, 2.0, 0.5]);
    let mut l = orig.clone();
    TopK::new(3).apply_mut(&mut l);
    assert_eq!(l, orig);
    TopK::new(100).apply_mut(&mut l);
    assert_eq!(l, orig);
}

#[test]
fn top_k_one_keeps_max() {
    let mut l = bits(&[-1.0, 5.0, 4.5, -7.0]);
    TopK::new(1).apply_mut(&mut l);
    assert_eq!(floats(&l), vec![f32::NEG_INFINITY, 5.0, f32::NEG_INFINITY, f32::NEG_INFINITY]);
}

#[test]
fn kth_largest_values() {
    let l = bits(&[1.0, 3.0, 2.0, 3.0, -1.0]);
    assert_eq!(f32::from_bits(kth_largest_of(&l, 1)), 3.0);
    assert_eq!(f32::from_bits(kth_largest_of(&l, 2)), 3.0);
    assert_eq!(f32::from_bits(kth_largest_of(&l, 3)), 2.0);
    assert_eq!(f32::from_bits(kth_largest_of(&l, 5)), -1.0);
    assert_eq!(count_at_least(&l, 2.0f32.to_bits()), 3);
}

#[test]
fn argmax_picks_last_of_ties() {
    assert_eq!(argmax(&bits(&[1.0, 3.0, 2.0, 3.0, 0.0])), 3);
    assert_eq!(argmax(&bits(&[5.0])), 0);
    assert_eq!(argmax(&bits(&[0.0, -0.0])), 1);
    assert_eq!(argmax(&bits(&[f32::NEG_INFINITY, -1.0])), 1);
}

#[test]
fn greedy_selects_argmax() {
    let g = Greedy::new();
    let mut l = bits(&[0.1, 0.7, 0.2]);
    let before = l.clone();
    g.apply_mut(&mut l);
    assert_eq!(l, before);
    assert_eq!(g.sample(&l), 1);
}

#[test]
fn stable_order_descending_and_ascending() {
    let l = bits(&[1.0, 3.0, 2.0, 3.0, 0.0]);
    assert_eq!(stable_order(&l, true), vec![1, 3, 2, 0, 4]);
    assert_eq!(stable_order(&l, false), vec![4, 0, 2, 1, 3]);
    let l2 = bits(&[0.5, 0.1, 0.9, 0.3]);
    let mut idx: Vec<usize> = (0..4).collect();
    let f = floats(&l2);
    idx.sort_by(|&a, &b| f[b].total_cmp(&f[a]));
    assert_eq!(stable_order(&l2, true), idx);
    assert!(stable_order(&[], true).is_empty());
}

fn vocabulary_logits(n: usize) -> Vec<f32> {
    let mut x: u64 = 0x9e37_79b9_7f4a_7c15;
    (0..n)
        .map(|i| {
            x ^= x << 13;
            x ^= x >> 7;
            x ^= x << 17;
            if i % 97 == 0 {
                -0.0
            } else if i % 89 == 0 {
                f32::NEG_INFINITY
            } else {
                ((x % 2001) as f32 - 1000.0) / 37.0
            }
        })
        .collect()
}

#[test]
fn stable_order_matches_std_sort_on_a_vocabulary() {
    let f = vocabulary_logits(150_000);
    let l = bits(&f);
    let mut desc: Vec<usize> = (0..f.len()).collect();
    desc.sort_by(|&a, &b| f[b].total_cmp(&f[a]));
    assert_eq!(stable_order(&l, true), desc);
    let mut asc: Vec<usize> = (0..f.len()).collect();
    asc.sort_by(|&a, &b| f[a].total_cmp(&f[b]));
    assert_eq!(stable_order(&l, false), asc);
}

#[test]
fn kth_largest_matches_selection_on_a_vocabulary() {
    let f = vocabulary_logits(150_000);
    let l = bits(&f);
    for k in [1usize, 2, 40, 1_000, 75_000, 149_999, 150_000] {
        let mut v = f.clone();
        v.select_nth_unstable_by(k - 1, |a, b| b.total_cmp(a));
        assert_eq!(kth_largest_of(&l, k), v[k - 1].to_bits());
    }
}
