use sting::ranking::top_k;
use sting::single::{argmax, gt, nan, NEG_INFINITY};

fn bits(v: &[f32]) -> Vec<u32> {
    v.iter().map(|x| x.to_bits()).collect()
}

#[test]
fn patterns_compare_like_their_numbers() {
    let numbers = [
        f32::NEG_INFINITY,
        f32::MIN,
        -1.5,
        -1.0,
        -f32::MIN_POSITIVE,
        -1e-45,
        -0.0,
        0.0,
        1e-45,
        f32::MIN_POSITIVE,
        1.0,
        1.5,
        f32::MAX,
        f32::INFINITY,
        f32::NAN,
        -f32::NAN,
    ];
    for a in numbers {
        assert_eq!(nan(a.to_bits()), a.is_nan());
        for b in numbers {
            assert_eq!(gt(a.to_bits(), b.to_bits()), a > b, "{a} > {b}");
        }
    }
    assert_eq!(NEG_INFINITY, f32::NEG_INFINITY.to_bits());
}

#[test]
fn argmax_takes_the_first_of_the_greatest() {
    assert_eq!(argmax(&bits(&[1.0, 3.0, 3.0, 2.0])), 1);
    assert_eq!(argmax(&bits(&[f32::NAN, -2.0, f32::NAN])), 1);
    assert_eq!(argmax(&bits(&[f32::NEG_INFINITY, f32::NEG_INFINITY])), 0);
    assert_eq!(argmax(&bits(&[f32::NEG_INFINITY, f32::MIN])), 1);
    assert_eq!(argmax(&Vec::new()), 0);
}

#[test]
fn top_k_keeps_the_best_in_order() {
    let scores = bits(&[0.1, 0.9, 0.5, 0.9, -0.2]);
    assert_eq!(top_k(&scores, 0), Vec::<usize>::new());
    assert_eq!(top_k(&scores, 1), vec![1]);
    assert_eq!(top_k(&scores, 2), vec![1, 3]);
    assert_eq!(top_k(&scores, 3), vec![1, 2, 3]);
    assert_eq!(top_k(&scores, 4), vec![0, 1, 2, 3]);
    assert_eq!(top_k(&scores, 9), vec![0, 1, 2, 3, 4]);
}

#[test]
fn top_k_takes_equals_from_the_front() {
    let scores = bits(&[0.0, -0.0, 0.0, -0.0]);
    assert_eq!(top_k(&scores, 2), vec![0, 1]);
    let scores = bits(&[-1.0, 2.0, 2.0, 2.0]);
    assert_eq!(top_k(&scores, 2), vec![1, 2]);
}

#[test]
fn top_k_without_numbers_still_fills_the_list() {
    let scores = bits(&[f32::NAN, 1.0, f32::NAN]);
    assert_eq!(top_k(&scores, 2).len(), 2);
}
