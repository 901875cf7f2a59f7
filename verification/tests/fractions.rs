use zeroclaw_memory::fractions::Ratio;
use zeroclaw_memory::naturals::{Natural, Relation};
use zeroclaw_memory::ordering::greatest_first;

fn natural(n: u128) -> Natural {
    Natural::from_u128(n)
}

#[test]
fn naturals_are_compared_by_value() {
    assert!(matches!(natural(7).compare(&natural(7)), Relation::Same));
    assert!(matches!(natural(1 << 32).compare(&natural(u32::MAX as u128)), Relation::More));
    assert!(matches!(natural(0).compare(&natural(u128::MAX)), Relation::Less));
    assert!(matches!(natural(0).times(&natural(u128::MAX)).compare(&natural(0)), Relation::Same));
}

#[test]
fn sums_and_products_outgrow_the_machine() {
    let max = natural(u128::MAX);
    assert!(matches!(max.plus(&natural(1)).compare(&max), Relation::More));
    // (2^128 - 1)^2 + 2^128 + 2^128 - 1 = 2^256
    let power = max.plus(&natural(1));
    let left = max.times(&max).plus(&power).plus(&max);
    let right = power.times(&power);
    assert!(matches!(left.compare(&right), Relation::Same));
    assert!(matches!(max.times(&max).compare(&right), Relation::Less));
}

#[test]
fn sums_of_reciprocals_are_exact() {
    let half = Ratio::sum_of_reciprocals(&vec![2]);
    let thirds = Ratio::sum_of_reciprocals(&vec![3, 6]);
    assert!(!half.is_less(&thirds));
    assert!(!thirds.is_less(&half));
    let less = Ratio::sum_of_reciprocals(&vec![3, 7]);
    assert!(less.is_less(&half));
    assert!(Ratio::sum_of_reciprocals(&vec![]).is_less(&less));
    let small = Ratio::sum_of_reciprocals(&vec![1 << 64]);
    let smaller = Ratio::sum_of_reciprocals(&vec![(1 << 64) + 1]);
    assert!(smaller.is_less(&small));
    assert!(!small.is_less(&smaller));
}

#[test]
fn greater_sums_come_first() {
    let keys = vec![
        Ratio::sum_of_reciprocals(&vec![61]),
        Ratio::sum_of_reciprocals(&vec![62, 62]),
        Ratio::sum_of_reciprocals(&vec![31]),
        Ratio::sum_of_reciprocals(&vec![60]),
    ];
    assert_eq!(greatest_first(&keys), vec![1, 2, 3, 0]);
}
