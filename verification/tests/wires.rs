use intcode::wires::{
    closest_intersection_distance, fewest_combined_steps, intersect, manhattan_distance,
    Directions, Move, Pos, Wire,
};

#[test]
fn day3_test() {
    let w1 = Wire::from_text("R98,U47,R26,D63,R33,U87,L62,D20,R33,U53,R51").unwrap();
    let w2 = Wire::from_text("U98,R91,D20,R16,D67,R40,U7,R15,U6,R7").unwrap();
    assert_eq!(Some(135), closest_intersection_distance(&w1, &w2));

    let w1 = Wire::from_text("R75,D30,R83,U83,L12,D49,R71,U7,L72").unwrap();
    let w2 = Wire::from_text("U62,R66,U55,R34,D71,R55,D58,R83").unwrap();
    assert_eq!(Some(159), closest_intersection_distance(&w1, &w2));
}

#[test]
fn test_steps() {
    let w1 = Wire::from_text("R75,D30,R83,U83,L12,D49,R71,U7,L72").unwrap();
    let w2 = Wire::from_text("U62,R66,U55,R34,D71,R55,D58,R83").unwrap();
    assert_eq!(Some(610), fewest_combined_steps(&w1, &w2));

    let w1 = Wire::from_text("R98,U47,R26,D63,R33,U87,L62,D20,R33,U53,R51").unwrap();
    let w2 = Wire::from_text("U98,R91,D20,R16,D67,R40,U7,R15,U6,R7").unwrap();
    assert_eq!(Some(410), fewest_combined_steps(&w1, &w2));
}

#[test]
fn string_to_move_mapping() {
    assert_eq!(
        Move {
            direction: Directions::U,
            steps: 1
        },
        Move::from_text("U1").unwrap()
    );
}

#[test]
fn malformed_routes_are_rejected() {
    assert_eq!(None, Move::from_text(""));
    assert_eq!(None, Move::from_text("X3"));
    assert_eq!(None, Move::from_text("U"));
    assert_eq!(None, Move::from_text("U-1"));
    assert!(Wire::from_text("").is_none());
    assert!(Wire::from_text("R3,,U2").is_none());
    assert!(Wire::from_text("R3,Q2").is_none());
}

#[test]
fn simple_cross_intersection() {
    // One wire runs right then up, the other up then right; their paths
    // cross exactly once, at (6, 2), reached in 8 steps by each.
    let w1 = Wire::from_text("R6,U4").unwrap();
    let w2 = Wire::from_text("U2,R8").unwrap();
    let crossings = intersect(&w1, &w2);
    assert_eq!(1, crossings.len());
    assert_eq!(Pos { x: 6, y: 2 }, crossings[0]);
    assert_eq!(Some(8), closest_intersection_distance(&w1, &w2));
    assert_eq!(Some(16), fewest_combined_steps(&w1, &w2));
}

#[test]
fn origin_is_not_an_intersection() {
    let w1 = Wire::from_text("R2,L2").unwrap();
    let w2 = Wire::from_text("U2,D2").unwrap();
    assert_eq!(None, closest_intersection_distance(&w1, &w2));
    assert_eq!(None, fewest_combined_steps(&w1, &w2));
}

#[test]
fn manhattan_distance_is_coordinate_sum() {
    assert_eq!(0, manhattan_distance([0, 0], [0, 0]));
    assert_eq!(7, manhattan_distance([0, 0], [3, 4]));
    assert_eq!(7, manhattan_distance([3, 4], [0, 0]));
    assert_eq!(10, manhattan_distance([-2, 3], [4, -1]));
}

#[test]
fn wire_records_fewest_steps() {
    // The wire passes (1, 0) on the way out (step 1) and again later;
    // the recorded count stays 1.
    let w = Wire::from_text("R2,L2,R1").unwrap();
    assert_eq!(1, w.get_min_steps(&Pos { x: 1, y: 0 }));
    assert_eq!(2, w.get_min_steps(&Pos { x: 2, y: 0 }));
    // The origin keeps its step count of zero from before the walk.
    assert_eq!(0, w.get_min_steps(&Pos { x: 0, y: 0 }));
}
