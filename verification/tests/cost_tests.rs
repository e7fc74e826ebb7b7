use halite_engine::cost::{Cost, STEP_WEIGHT};

#[test]
fn cost_orders_steps_before_expenditure() {
    // Fewer steps always win, whatever the expenditure.
    assert!(Cost(1, 1000).lt(&Cost(2, -1000)));
    assert!(!Cost(2, -1000).lt(&Cost(1, 1000)));
    // Equal steps fall back to expenditure.
    assert!(Cost(3, -5).lt(&Cost(3, 4)));
    assert!(!Cost(3, 4).lt(&Cost(3, 4)));
}

#[test]
fn cost_sum_and_zero() {
    let z = Cost::zero();
    assert!(z.is_zero());
    let c = z.plus(&Cost(2, -7)).plus(&Cost(1, 10));
    assert_eq!(c, Cost(3, 3));
    assert!(!c.is_zero());
}

#[test]
fn scalar_agrees_with_the_lexicographic_order() {
    let pairs = [
        (Cost(0, 0), Cost(0, 1)),
        (Cost(1, 500), Cost(2, -500)),
        (Cost(5, -3), Cost(5, 3)),
        (Cost(7, 0), Cost(7, 0)),
    ];
    for (a, b) in pairs.iter() {
        assert_eq!(a.scalar() < b.scalar(), a.lt(b));
        assert_eq!(b.scalar() < a.scalar(), b.lt(a));
    }
    assert_eq!(Cost(1, 3).scalar(), STEP_WEIGHT + 3);
}
