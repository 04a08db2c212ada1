use recall::rank::{meaningful, semantic_search, similarity_key, LEAST_SIMILARITY_BITS};

fn scored(list: &[(i64, f32)]) -> Vec<(i64, u32)> {
    list.iter().map(|(id, f)| (*id, f.to_bits())).collect()
}

#[test]
fn the_least_similarity_is_fifteen_hundredths() {
    assert_eq!(LEAST_SIMILARITY_BITS, 0.15_f32.to_bits());
    assert!(!meaningful(0.15_f32.to_bits()));
    assert!(meaningful(0.150001_f32.to_bits()));
    assert!(!meaningful((-0.9_f32).to_bits()));
    assert!(!meaningful(f32::NAN.to_bits()));
    assert!(!meaningful((-f32::NAN).to_bits()));
    assert!(meaningful(f32::INFINITY.to_bits()));
}

#[test]
fn keys_are_ordered_as_floats_are() {
    let floats = [
        f32::NEG_INFINITY, f32::MIN, -1.0, -0.5, -f32::MIN_POSITIVE, -1e-40, -0.0, 0.0, 1e-40, 0.15, 0.5, 1.0,
        f32::MAX, f32::INFINITY,
    ];
    for a in floats {
        for b in floats {
            assert_eq!(similarity_key(a.to_bits()).partial_cmp(&similarity_key(b.to_bits())), a.partial_cmp(&b));
        }
    }
}

#[test]
fn the_most_similar_come_first() {
    let list = scored(&[(1, 0.2), (2, 0.9), (3, 0.1), (4, 0.5), (5, -0.9), (6, 0.15)]);
    assert_eq!(semantic_search(&list, 10), vec![2, 4, 1]);
    assert_eq!(semantic_search(&list, 2), vec![2, 4]);
    assert_eq!(semantic_search(&list, 0), Vec::<i64>::new());
}

#[test]
fn equally_similar_sessions_keep_their_order() {
    let list = scored(&[(9, 0.5), (3, 0.7), (8, 0.5), (1, 0.7), (7, 0.5)]);
    assert_eq!(semantic_search(&list, 10), vec![3, 1, 9, 8, 7]);
}

#[test]
fn nothing_and_no_number_give_nothing() {
    assert_eq!(semantic_search(&vec![], 5), Vec::<i64>::new());
    assert_eq!(semantic_search(&scored(&[(1, f32::NAN)]), 5), Vec::<i64>::new());
}

#[test]
fn ranking_agrees_with_a_stable_sort() {
    let mut list: Vec<(i64, f32)> = Vec::new();
    let mut x: u32 = 12345;
    for id in 0..500 {
        x = x.wrapping_mul(1664525).wrapping_add(1013904223);
        list.push((id, ((x >> 24) as f32 - 128.0) / 128.0));
    }
    let mut sorted = list.clone();
    sorted.sort_by(|a, b| b.1.partial_cmp(&a.1).unwrap());
    let expected: Vec<i64> =
        sorted.into_iter().filter(|(_, s)| *s > 0.15).take(100).map(|(id, _)| id).collect();
    assert_eq!(semantic_search(&scored(&list), 100), expected);
}

#[test]
fn a_higher_limit_extends_the_result() {
    let list = scored(&[(1, 0.3), (2, 0.4), (3, 0.6)]);
    let short = semantic_search(&list, 1);
    let long = semantic_search(&list, 3);
    assert_eq!(short[..], long[..1]);
}
