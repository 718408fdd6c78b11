use pi_flex_layout::calc::RelNodeInfo;
use pi_flex_layout::grow_shrink::{Data, GrowShrinkContext};
use pi_flex_layout::number::Number;
use pi_flex_layout::px::Px;

fn data(grow: f32, shrink: f32, min: Option<f32>, max: Option<f32>, basis: f32) -> Data<f32> {
    Data { grow, shrink, min, max, basis: Some(basis), ..Default::default() }
}

fn run(array: &mut Vec<Data<f32>>, main: f32, length: f32) -> GrowShrinkContext<f32> {
    let mut c: GrowShrinkContext<f32> = GrowShrinkContext::default();
    c.length = length;
    c.statistics_array(array.as_slice());
    c.calculate(array.as_mut_slice(), main);
    c
}

#[test]
fn basis_within_bounds() {
    let mut d: Data<f32> = Data { min: Some(10.0), max: Some(20.0), length: 5.0, ..Default::default() };
    assert_eq!(d.get_real_basis(), 10.0);
    d.length = 25.0;
    assert_eq!(d.get_real_basis(), 20.0);
    d.basis = Some(15.0);
    assert_eq!(d.get_real_basis(), 15.0);
    assert_eq!(d.get_min_basis(3.0), 10.0);
    assert_eq!(d.get_max_basis(30.0), 20.0);
    assert_eq!(d.get_max_basis(3.0), 3.0);
}

#[test]
fn statistics_sum_the_items() {
    let array = vec![
        data(1.0, 0.0, None, Some(50.0), 10.0),
        data(0.0, 2.0, Some(5.0), None, 20.0),
        data(2.0, 0.0, None, None, 30.0),
    ];
    let mut c: GrowShrinkContext<f32> = GrowShrinkContext::default();
    c.statistics_array(&array);
    assert_eq!(c.basis, 60.0);
    assert_eq!(c.grow_weight, 3.0);
    assert_eq!(c.grow_basis, 40.0);
    assert_eq!(c.max_grow_amount, 50.0);
    assert_eq!(c.only_grow_count, 1);
    assert_eq!(c.no_grow_basis, 20.0);
    assert_eq!(c.shrink_weight, 40.0);
    assert_eq!(c.shrink_basis, 20.0);
    assert_eq!(c.min_shrink_amount, 5.0);
    assert_eq!(c.no_shrink_basis, 40.0);
}

#[test]
fn statistics_of_a_flex_item() {
    let mut el: RelNodeInfo<usize, f32> = RelNodeInfo::default();
    el.main = 40.0;
    el.grow = 1.0;
    el.shrink = 1.0;
    el.max_main = Number::Defined(30.0);
    el.min_main = Number::Defined(10.0);
    let mut c: GrowShrinkContext<f32> = GrowShrinkContext::default();
    c.statistics(el);
    assert_eq!(c.basis, 30.0);
    assert_eq!(c.grow_weight, 1.0);
    assert_eq!(c.max_grow_amount, 30.0);
    assert_eq!(c.only_grow_count, 0);
    assert_eq!(c.shrink_weight, 30.0);
    assert_eq!(c.min_shrink_amount, 10.0);
}

#[test]
fn exact_fit_takes_the_bases() {
    let mut a = vec![data(1.0, 1.0, None, None, 10.0), data(0.0, 0.0, None, None, 20.0)];
    let c = run(&mut a, 30.0, 30.0);
    assert_eq!((a[0].result, a[1].result, c.amount), (10.0, 20.0, 30.0));
    let mut b = vec![data(0.0, 0.0, None, None, 10.0), data(0.0, 0.0, None, None, 20.0)];
    let c = run(&mut b, 25.0, 25.0);
    assert_eq!((b[0].result, b[1].result, c.amount), (10.0, 20.0, 30.0));
}

#[test]
fn overflowing_minima() {
    let mut a = vec![data(0.0, 1.0, Some(8.0), None, 10.0), data(0.0, 0.0, None, None, 20.0)];
    let c = run(&mut a, 25.0, 25.0);
    assert_eq!((a[0].result, a[1].result, c.amount), (8.0, 20.0, 28.0));
}

#[test]
fn proportional_shrinking() {
    let mut a = vec![data(0.0, 1.0, None, None, 10.0), data(0.0, 1.0, None, None, 30.0)];
    let c = run(&mut a, 20.0, 20.0);
    assert_eq!((a[0].result, a[1].result), (5.0, 15.0));
    assert_eq!((c.weight, c.weight_basis, c.amount), (40.0, -20.0, 20.0));
}

#[test]
fn bounded_shrinking_holds_at_the_minimum() {
    let mut a = vec![data(0.0, 1.0, Some(8.0), None, 10.0), data(0.0, 1.0, None, None, 30.0)];
    let c = run(&mut a, 20.0, 20.0);
    assert_eq!((a[0].result, a[1].result, c.amount), (8.0, 12.0, 20.0));
    assert!(!a[0].result_maybe_ok);
    assert!(a[1].result_maybe_ok);
    // later rounds measure the space within the container, whatever the context's length
    let mut b = vec![data(0.0, 1.0, Some(80.0), None, 100.0), data(0.0, 1.0, None, None, 100.0)];
    let c = run(&mut b, 100.0, 0.0);
    assert_eq!((b[0].result, b[1].result, c.amount), (80.0, 20.0, 100.0));
}

#[test]
fn underflowing_maxima() {
    let mut a = vec![data(1.0, 0.0, None, Some(15.0), 10.0), data(0.0, 0.0, None, None, 20.0)];
    let c = run(&mut a, 50.0, 50.0);
    assert_eq!((a[0].result, a[1].result, c.amount), (15.0, 20.0, 35.0));
}

#[test]
fn proportional_growing_step() {
    let mut a = vec![
        data(1.0, 0.0, None, None, 10.0),
        data(3.0, 0.0, None, None, 10.0),
        data(0.0, 0.0, None, None, 7.0),
    ];
    let c = run(&mut a, 67.0, 67.0);
    assert_eq!((c.weight, c.weight_basis, c.amount), (4.0, 40.0, 67.0));
    assert_eq!((a[0].result, a[1].result), (20.0, 40.0));
    // an item that neither grows nor shrinks keeps its basis
    assert_eq!(a[2].result, 7.0);
}

#[test]
fn bounded_growing_holds_at_the_maximum() {
    let mut a = vec![
        data(1.0, 0.0, None, Some(12.0), 10.0),
        data(1.0, 0.0, None, None, 10.0),
        data(0.0, 0.0, None, None, 5.0),
    ];
    let c = run(&mut a, 45.0, 45.0);
    assert_eq!((a[0].result, a[1].result, a[2].result, c.amount), (12.0, 28.0, 5.0, 45.0));
    assert!(!a[0].result_maybe_ok);
    assert!(a[1].result_maybe_ok);
}

#[test]
fn direct_distributions() {
    let mut c: GrowShrinkContext<f32> = GrowShrinkContext::default();
    c.weight = 2.0;
    c.weight_basis = 4.0;
    let mut a = vec![data(1.0, 1.0, Some(3.0), Some(9.0), 6.0), data(0.0, 0.0, None, None, 2.0)];
    c.shrink(&mut a);
    assert_eq!((a[0].result, a[1].result), (18.0, 2.0));
    c.grow(&mut a);
    assert_eq!((a[0].result, a[1].result), (8.0, 2.0));
    c.set_min(&mut a);
    assert_eq!((a[0].result, a[1].result), (3.0, 2.0));
    c.set_max(&mut a);
    assert_eq!((a[0].result, a[1].result), (9.0, 2.0));
    c.set_basis(&mut a);
    assert_eq!((a[0].result, a[1].result), (6.0, 2.0));
    assert_eq!(c.amount, 0.0);
}

#[test]
fn growing_shares_the_free_space() {
    let mut a = vec![
        Data { grow: 1.0, length: 10.0, ..Default::default() },
        Data { grow: 1.0, length: 30.0, ..Default::default() },
    ];
    let mut c: GrowShrinkContext<f32> = GrowShrinkContext::default();
    c.statistics_array(&a);
    c.calculate(&mut a, 100.0);
    assert_eq!((a[0].result, a[1].result, c.amount), (40.0, 60.0, 100.0));
}

#[test]
fn total_grow_below_one_leaves_space_free() {
    let mut a = vec![Data { grow: 0.5, length: 10.0, ..Default::default() }];
    let mut c: GrowShrinkContext<f32> = GrowShrinkContext::default();
    c.statistics_array(&a);
    c.calculate(&mut a, 100.0);
    assert_eq!(a[0].result, 55.0);
    assert_eq!(c.weight, 1.0);
}

#[test]
fn grow_max_hands_the_unused_share_on() {
    let mut a = vec![
        Data { grow: 1.0, length: 10.0, max: Some(20.0), ..Default::default() },
        Data { grow: 1.0, length: 10.0, ..Default::default() },
    ];
    let mut c: GrowShrinkContext<f32> = GrowShrinkContext::default();
    c.statistics_array(&a);
    c.grow_max(&mut a, 100.0);
    assert_eq!((a[0].result, a[1].result, c.amount), (20.0, 80.0, 100.0));
}

#[test]
fn shrink_min_stays_within_the_container() {
    let mut a = vec![
        Data { shrink: 1.0, length: 100.0, min: Some(80.0), ..Default::default() },
        Data { shrink: 1.0, length: 100.0, ..Default::default() },
    ];
    let mut c: GrowShrinkContext<f32> = GrowShrinkContext::default();
    c.statistics_array(&a);
    c.shrink_min(&mut a, 100.0);
    assert_eq!((a[0].result, a[1].result, c.amount), (80.0, 20.0, 100.0));
}

fn bounded(length: f32, min: f32, max: f32, grow: f32, shrink: f32) -> Data<f32> {
    Data { length, min: Some(min), max: Some(max), grow, shrink, ..Default::default() }
}

fn check_within(array: &[Data<f32>], con: &GrowShrinkContext<f32>) -> f32 {
    let mut amount = 0.0;
    for el in array.iter() {
        assert!(el.result <= el.max.unwrap());
        assert!(el.result >= el.min.unwrap());
        amount += el.result;
    }
    assert!((amount - con.amount).abs() <= 0.0001);
    amount
}

fn count_and_calculate(array: &mut Vec<Data<f32>>) -> GrowShrinkContext<f32> {
    let mut con: GrowShrinkContext<f32> = GrowShrinkContext::default();
    con.length = 100.0;
    con.statistics_array(array.as_slice());
    con.calculate(array.as_mut_slice(), 100.0);
    con
}

#[test]
fn test_grow() {
    let cases = vec![
        vec![bounded(10.0, 5.0, 40.0, 1.0, 0.0), bounded(20.0, 10.0, 30.0, 2.0, 0.0), bounded(30.0, 0.0, 99.0, 0.0, 0.0)],
        vec![bounded(10.0, 5.0, 20.0, 1.0, 0.0), bounded(20.0, 10.0, 90.0, 1.0, 0.0), bounded(5.0, 0.0, 50.0, 0.0, 0.0)],
        vec![bounded(10.0, 5.0, 20.0, 0.0, 0.0), bounded(49.0, 29.0, 40.0, 0.0, 0.0), bounded(0.0, 3.0, 3.0, 0.0, 0.0)],
        vec![bounded(49.0, 0.0, 99.0, 1.0, 0.0), bounded(49.0, 0.0, 99.0, 2.0, 0.0), bounded(10.0, 0.0, 99.0, 0.0, 0.0)],
    ];
    for mut array in cases {
        let con = count_and_calculate(&mut array);
        let amount = check_within(&array, &con);
        if con.grow_weight == 0.0 {
            assert_eq!(amount, con.no_grow_basis);
        } else if con.no_grow_basis + con.grow_basis >= con.length {
            assert_eq!(amount, con.no_grow_basis + con.grow_basis);
        } else if con.no_grow_basis + con.max_grow_amount >= con.length {
            assert!((amount - con.length).abs() <= 0.0001);
        } else {
            assert_eq!(amount, con.no_grow_basis + con.max_grow_amount);
        }
    }
}

#[test]
fn test_shrink() {
    let cases = vec![
        vec![bounded(60.0, 20.0, 70.0, 0.0, 1.0), bounded(50.0, 30.0, 90.0, 0.0, 2.0), bounded(40.0, 25.0, 60.0, 0.0, 0.0)],
        vec![bounded(70.0, 45.0, 80.0, 0.0, 1.0), bounded(60.0, 40.0, 90.0, 0.0, 1.0), bounded(30.0, 25.0, 50.0, 0.0, 0.0)],
        vec![bounded(20.0, 20.0, 50.0, 0.0, 1.0), bounded(30.0, 20.0, 40.0, 0.0, 2.0), bounded(25.0, 20.0, 30.0, 0.0, 0.0)],
        vec![bounded(79.0, 20.0, 99.0, 0.0, 0.0), bounded(21.0, 20.0, 21.0, 0.0, 0.0), bounded(50.0, 49.0, 50.0, 0.0, 0.0)],
    ];
    for mut array in cases {
        let con = count_and_calculate(&mut array);
        let amount = check_within(&array, &con);
        if con.shrink_weight == 0.0 {
            assert_eq!(amount, con.no_shrink_basis);
        } else if con.no_shrink_basis + con.shrink_basis <= con.length {
            assert_eq!(amount, con.no_shrink_basis + con.shrink_basis);
        } else if con.no_shrink_basis + con.min_shrink_amount <= con.length {
            assert!((amount - con.length).abs() <= 0.0001);
        } else {
            assert_eq!(amount, con.no_shrink_basis + con.min_shrink_amount);
        }
    }
}

#[test]
fn test() {
    let cases = vec![
        vec![bounded(80.0, 10.0, 100.0, 1.0, 1.0), bounded(60.0, 20.0, 70.0, 0.0, 2.0), bounded(10.0, 5.0, 50.0, 2.0, 0.0)],
        vec![bounded(10.0, 5.0, 40.0, 1.0, 1.0), bounded(20.0, 0.0, 100.0, 1.0, 0.0), bounded(5.0, 5.0, 5.0, 0.0, 2.0)],
        // proportional shrinking (no minimum above zero)
        vec![bounded(60.0, 0.0, 100.0, 0.0, 1.0), bounded(60.0, 0.0, 100.0, 0.0, 1.0), bounded(0.0, 0.0, 0.0, 0.0, 0.0)],
        // every growing item takes its maximum
        vec![bounded(10.0, 0.0, 20.0, 1.0, 0.0), bounded(10.0, 0.0, 30.0, 2.0, 1.0), bounded(5.0, 0.0, 50.0, 0.0, 0.0)],
        // every shrinking item takes its minimum
        vec![bounded(90.0, 48.0, 100.0, 1.0, 1.0), bounded(80.0, 49.0, 90.0, 0.0, 2.0), bounded(10.0, 0.0, 20.0, 0.0, 0.0)],
    ];
    let expected = [
        vec![60.0, 30.0, 10.0],
        vec![40.0, 55.0, 5.0],
        vec![50.0, 50.0, 0.0],
        vec![20.0, 30.0, 5.0],
        vec![48.0, 49.0, 10.0],
    ];
    for (mut array, sizes) in cases.into_iter().zip(expected.iter()) {
        let con = count_and_calculate(&mut array);
        let amount = check_within(&array, &con);
        let results: Vec<f32> = array.iter().map(|el| el.result).collect();
        assert_eq!(&results, sizes);
        if con.basis < con.length {
            assert!(amount <= con.length + 0.01);
        } else if con.basis > con.length {
            assert!(amount >= con.length - 0.01);
        }
    }
}

#[test]
fn integer_sizes_stay_within_bounds() {
    let mut a: Vec<Data<u64>> = vec![
        Data { grow: 1, length: 10, min: Some(5), max: Some(20), ..Default::default() },
        Data { grow: 1, length: 10, min: Some(0), max: Some(100), ..Default::default() },
        Data { grow: 0, length: 5, min: Some(5), max: Some(5), ..Default::default() },
    ];
    let mut c: GrowShrinkContext<u64> = GrowShrinkContext::default();
    c.statistics_array(&a);
    c.calculate(&mut a, 100);
    assert_eq!((a[0].result, a[1].result, a[2].result), (20, 75, 5));
    assert_eq!(c.amount, 100);
    for el in a.iter() {
        assert!(el.min.unwrap() <= el.result && el.result <= el.max.unwrap());
    }
}

#[test]
fn integer_shares_round_down_within_the_container() {
    // two equal shares of one free unit each round down to nothing
    let mut a: Vec<Data<u64>> = vec![
        Data { grow: 1, length: 0, min: Some(0), max: Some(100), ..Default::default() },
        Data { grow: 1, length: 0, min: Some(0), max: Some(100), ..Default::default() },
    ];
    let mut c: GrowShrinkContext<u64> = GrowShrinkContext::default();
    c.statistics_array(&a);
    c.calculate(&mut a, 1);
    assert_eq!((a[0].result, a[1].result, c.amount), (0, 0, 0));
    assert!(a[0].result + a[1].result <= 1);
}

fn px_item(shrink: i64, length: i64, min: i64, max: i64) -> Data<Px> {
    Data { shrink: Px(shrink), length: Px(length), min: Some(Px(min)), max: Some(Px(max)), ..Default::default() }
}

#[test]
fn signed_shrinking_holds_at_the_minimum_and_fills_the_container() {
    let mut a = vec![px_item(1, 100, 80, 100), px_item(1, 100, 0, 100)];
    let mut c: GrowShrinkContext<Px> = GrowShrinkContext::default();
    c.statistics_array(&a);
    c.calculate(&mut a, Px(100));
    assert_eq!((a[0].result.0, a[1].result.0, c.amount.0), (80, 20, 100));
    for el in a.iter() {
        assert!(el.min.unwrap().0 <= el.result.0 && el.result.0 <= el.max.unwrap().0);
    }
}

#[test]
fn signed_shares_truncate_toward_zero() {
    // thirds of the overflow of ten: each share of -10/3 truncates to -3
    let mut a = vec![px_item(1, 10, 1, 50), px_item(1, 10, 1, 50), px_item(1, 10, 1, 50)];
    let mut c: GrowShrinkContext<Px> = GrowShrinkContext::default();
    c.statistics_array(&a);
    c.calculate(&mut a, Px(20));
    assert_eq!((a[0].result.0, a[1].result.0, a[2].result.0), (7, 7, 7));
    assert!(a.iter().map(|el| el.result.0).sum::<i64>() >= 20);
}

#[test]
fn signed_minima_fill_the_container_exactly() {
    let mut a = vec![px_item(1, 60, 30, 90), px_item(2, 70, 40, 90), px_item(0, 30, 0, 50)];
    let mut c: GrowShrinkContext<Px> = GrowShrinkContext::default();
    c.statistics_array(&a);
    c.calculate(&mut a, Px(100));
    assert_eq!((a[0].result.0, a[1].result.0, a[2].result.0, c.amount.0), (30, 40, 30, 100));
}

#[test]
fn signed_shrink_totals_follow_the_branches() {
    let cases = vec![
        vec![px_item(1, 60, 20, 70), px_item(2, 50, 30, 90), px_item(0, 40, 25, 60)],
        vec![px_item(1, 70, 45, 80), px_item(1, 60, 40, 90), px_item(0, 30, 25, 50)],
        vec![px_item(1, 20, 20, 50), px_item(2, 30, 20, 40), px_item(0, 25, 20, 30)],
        vec![px_item(0, 79, 20, 99), px_item(0, 21, 20, 21), px_item(0, 50, 49, 50)],
        vec![px_item(1, 60, 50, 70), px_item(1, 60, 45, 90), px_item(0, 10, 0, 20)],
    ];
    for mut a in cases {
        let mut con: GrowShrinkContext<Px> = GrowShrinkContext::default();
        con.statistics_array(&a);
        con.calculate(&mut a, Px(100));
        let mut amount: i64 = 0;
        for el in a.iter() {
            assert!(el.min.unwrap().0 <= el.result.0 && el.result.0 <= el.max.unwrap().0);
            amount += el.result.0;
        }
        assert_eq!(amount, con.amount.0);
        let (ns, sb, ms) = (con.no_shrink_basis.0, con.shrink_basis.0, con.min_shrink_amount.0);
        if con.shrink_weight.0 == 0 {
            assert_eq!(amount, ns);
        } else if ns + sb <= 100 {
            assert_eq!(amount, ns + sb);
        } else if ns + ms <= 100 {
            assert!(amount >= 100);
        } else {
            assert_eq!(amount, ns + ms);
        }
    }
}
