use lessons::city::{new_city, City, CitySize};
use lessons::handback;
use lessons::handback::division;
use lessons::numbers::{average, first_three, product, sum};
use lessons::point::{increment_point, Point};

fn evens() -> Vec<i64> {
    vec![2, 4, 6, 8, 10, 12, 14, 16, 18, 20, 22, 24]
}

#[test]
fn sums_products_and_averages() {
    assert_eq!(sum(evens()), 156);
    assert_eq!(product(evens()), 1_961_990_553_600);
    assert_eq!(average(evens()), 13);
    assert_eq!(sum(Vec::new()), 0);
    assert_eq!(product(Vec::new()), 1);
    assert_eq!(average(vec![-7, 0]), -3);
}

#[test]
fn sums_and_products_hand_the_list_back() {
    assert_eq!(handback::sum(evens()), (156, evens()));
    assert_eq!(handback::product(evens()), (1_961_990_553_600, evens()));
    assert_eq!(handback::average(evens()), 13);
    assert_eq!(handback::sum(Vec::new()), (0, Vec::new()));
}

#[test]
fn divides_in_turn() {
    assert_eq!(division(vec![2, 4]), (0, vec![2, 4]));
    assert_eq!(division(vec![1, -1]), (-1, vec![1, -1]));
    assert_eq!(division(Vec::new()), (1, Vec::new()));
}

#[test]
fn first_three_hands_lists_back() {
    let (a, b) = first_three(evens(), vec![1, 2]);
    assert_eq!(a, evens());
    assert_eq!(b, vec![1, 2]);
}

#[test]
fn describes_cities() {
    let c = new_city(20, false);
    assert_eq!(c.description, "a *coastal* city of approximately 20 residents");
    assert_eq!(c.residents, 20);
    assert!(!c.is_coastal);
    let m = City::new(CitySize::Metropolis, true);
    assert_eq!(m.description, "an *unknown-size city* of approximately 1000000 residents");
    assert_eq!(m.residents, 1_000_000);
    let t = City::new(CitySize::Town, false);
    assert_eq!(t.description, "a *town* of approximately 1000 residents");
}

#[test]
fn increments_points() {
    let p = increment_point(Point::new(2, 3, 4));
    assert_eq!(p, Point::new(3, 4, 5));
}
