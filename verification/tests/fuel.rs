use intcode::fuel::{fuel, fuel2, total_fuel, total_fuel2};

#[test]
fn day1_test1() {
    assert_eq!(2, fuel(12));
}

#[test]
fn day1_test2() {
    assert_eq!(2, fuel(14));
}

#[test]
fn day1_test3() {
    assert_eq!(654, fuel(1969));
}

#[test]
fn day1_test4() {
    assert_eq!(33583, fuel(100756));
}

#[test]
fn day1_part2_a() {
    assert_eq!(2, fuel2(14));
}

#[test]
fn day1_part2_b() {
    assert_eq!(966, fuel2(1969));
}

#[test]
fn day1_part2_c() {
    assert_eq!(50346, fuel2(100756));
}

#[test]
fn fuel_of_tiny_masses_is_zero() {
    assert_eq!(0, fuel(0));
    assert_eq!(0, fuel(8));
    assert_eq!(1, fuel(9));
    assert_eq!(0, fuel2(8));
}

#[test]
fn totals_sum_each_mass() {
    let masses = vec![12, 14, 1969, 100756];
    assert_eq!(2 + 2 + 654 + 33583, total_fuel(&masses));
    assert_eq!(2 + 2 + 966 + 50346, total_fuel2(&masses));
    assert_eq!(0, total_fuel(&Vec::new()));
}
