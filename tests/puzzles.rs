use aoc19::fuel::{calculate_fuel, fuel_for_mass};
use aoc19::image::{count_occurences, layer_checksum};
use aoc19::orbits::{
    assemble_path, count_orbits, read_orbit, total_orbits, transfers, OrbitMap, ParseInputError,
};
use aoc19::password::{
    count_candidates, digits_form_nondecreasing_sequence, has_double_digits_at_least_once,
    has_exact_double_digits_at_least_once, parse_range, InputError,
};
use aoc19::wires::{
    build_map, closest_crossing, fewest_combined_steps, intersection, motion_to_segments,
    parse_motion, parse_motions, Direction, Motion, ParseMotionError, Point, Segment,
};

#[test]
fn fuel_for_single_masses() {
    assert_eq!(fuel_for_mass(12), 2);
    assert_eq!(fuel_for_mass(14), 2);
    assert_eq!(fuel_for_mass(1969), 654);
    assert_eq!(fuel_for_mass(100756), 33583);
    assert_eq!(fuel_for_mass(-1), -3);
    assert_eq!(fuel_for_mass(i64::MIN), i64::MIN / 3 - 1 - 2);
}

#[test]
fn fuel_including_fuel() {
    assert_eq!(calculate_fuel(14), 2);
    assert_eq!(calculate_fuel(1969), 966);
    assert_eq!(calculate_fuel(100756), 50346);
    assert_eq!(calculate_fuel(-5), 0);
    assert_eq!(calculate_fuel(8), 0);
}

#[test]
fn password_digit_rules() {
    assert!(has_double_digits_at_least_once(111111));
    assert!(digits_form_nondecreasing_sequence(111111));
    assert!(!digits_form_nondecreasing_sequence(223450));
    assert!(!has_double_digits_at_least_once(123789));
    assert!(has_exact_double_digits_at_least_once(112233));
    assert!(!has_exact_double_digits_at_least_once(123444));
    assert!(has_exact_double_digits_at_least_once(111122));
    assert!(digits_form_nondecreasing_sequence(-12));
    assert!(has_double_digits_at_least_once(-1122));
    assert!(!has_double_digits_at_least_once(i32::MIN));
}

#[test]
fn password_counts() {
    assert_eq!(count_candidates(111110, 111112, false), 1);
    assert_eq!(count_candidates(111122, 111123, true), 1);
    assert_eq!(count_candidates(111111, 111112, true), 0);
    assert_eq!(count_candidates(5, 5, false), 0);
    assert_eq!(count_candidates(10, 0, false), 0);
    assert_eq!(count_candidates(0, 100, false), 9);
}

#[test]
fn password_range_input() {
    assert_eq!(parse_range("128392-643281\n"), Ok((128392, 643281)));
    assert_eq!(parse_range("128392"), Err(InputError));
    assert_eq!(parse_range("a-1"), Err(InputError));
}

#[test]
fn image_layers() {
    let pixels: Vec<char> = "123456789012".chars().collect();
    assert_eq!(count_occurences(&pixels, '1'), 2);
    assert_eq!(count_occurences(&pixels, 'x'), 0);
    assert_eq!(layer_checksum(&pixels, 3, 2), Some(1));
    let zeros_first: Vec<char> = "000122112".chars().collect();
    assert_eq!(layer_checksum(&zeros_first, 3, 1), Some(2));
    let tie: Vec<char> = "012012".chars().collect();
    assert_eq!(layer_checksum(&tie, 3, 1), Some(1));
    assert_eq!(layer_checksum(&[], 3, 2), None);
}

fn example_orbits() -> OrbitMap {
    let mut m = OrbitMap::new();
    for line in [
        "COM)B", "B)C", "C)D", "D)E", "E)F", "B)G", "G)H", "D)I", "E)J", "J)K", "K)L",
    ] {
        read_orbit(&mut m, line).unwrap();
    }
    m
}

#[test]
fn orbit_counts() {
    let m = example_orbits();
    assert_eq!(m.len(), 11);
    assert_eq!(count_orbits("D", &m), Ok(3));
    assert_eq!(count_orbits("L", &m), Ok(7));
    assert_eq!(count_orbits("COM", &m), Ok(0));
    assert!(count_orbits("X", &m).is_err());
    assert_eq!(total_orbits(&m), Ok(42));
}

#[test]
fn orbit_paths_and_transfers() {
    let mut m = example_orbits();
    read_orbit(&mut m, "K)YOU").unwrap();
    read_orbit(&mut m, "I)SAN\n").unwrap();
    let path = assemble_path("D", &m).unwrap();
    let names: Vec<String> = path.iter().map(|n| n.iter().collect()).collect();
    assert_eq!(names, vec!["B", "C", "D"]);
    assert_eq!(transfers(&m), Ok(4));
    assert!(assemble_path("Z", &m).is_err());
}

#[test]
fn orbit_errors() {
    let mut m = OrbitMap::new();
    assert_eq!(read_orbit(&mut m, "COMB"), Err(ParseInputError));
    assert_eq!(read_orbit(&mut m, "COM)B"), Ok(()));
    assert_eq!(read_orbit(&mut m, "A)B"), Err(ParseInputError));
    assert!(count_orbits("B", &m).is_err());
    let mut cyclic = OrbitMap::new();
    read_orbit(&mut cyclic, "A)B").unwrap();
    read_orbit(&mut cyclic, "B)A").unwrap();
    assert!(count_orbits("A", &cyclic).is_err());
}

#[test]
fn motions_parse() {
    assert_eq!(
        parse_motion(&['U', '1', '2']),
        Ok(Motion { direction: Direction::Up, dist: 12 })
    );
    assert_eq!(parse_motion(&['X', '5']), Err(ParseMotionError));
    assert_eq!(parse_motion(&['U']), Err(ParseMotionError));
    assert_eq!(
        parse_motions("R8,L5"),
        Ok(vec![
            Motion { direction: Direction::Right, dist: 8 },
            Motion { direction: Direction::Left, dist: 5 }
        ])
    );
    assert_eq!(parse_motions("R8,,L5"), Err(ParseMotionError));
}

#[test]
fn segments_and_crossings() {
    let fst = parse_motions("R8,U5,L5,D3").unwrap();
    let (vertical, horizontal) = motion_to_segments(Point(0, 0), &fst).unwrap();
    assert_eq!(
        vertical,
        vec![
            Segment { origin: Point(8, 0), length: 5 },
            Segment { origin: Point(3, 2), length: 3 }
        ]
    );
    assert_eq!(
        horizontal,
        vec![
            Segment { origin: Point(0, 0), length: 8 },
            Segment { origin: Point(3, 5), length: 5 }
        ]
    );
    let h = Segment { origin: Point(0, 3), length: 10 };
    let v = Segment { origin: Point(4, 0), length: 5 };
    assert_eq!(intersection(h, v), Some(Point(4, 3)));
    assert_eq!(intersection(h, Segment { origin: Point(11, 0), length: 5 }), None);
    assert_eq!(Point(-3, 4).manhattan(), 7);
    let far = vec![Motion { direction: Direction::Up, dist: i32::MAX }; 2];
    assert_eq!(motion_to_segments(Point(0, 0), &far), None);
}

#[test]
fn closest_crossings() {
    let a = parse_motions("R8,U5,L5,D3").unwrap();
    let b = parse_motions("U7,R6,D4,L4").unwrap();
    assert_eq!(closest_crossing(&a, &b), Some(6));
    let c = parse_motions("R75,D30,R83,U83,L12,D49,R71,U7,L72").unwrap();
    let d = parse_motions("U62,R66,U55,R34,D71,R55,D58,R83").unwrap();
    assert_eq!(closest_crossing(&c, &d), Some(159));
    let e = parse_motions("R98,U47,R26,D63,R33,U87,L62,D20,R33,U53,R51").unwrap();
    let f = parse_motions("U98,R91,D20,R16,D67,R40,U7,R15,U6,R7").unwrap();
    assert_eq!(closest_crossing(&e, &f), Some(135));
}

#[test]
fn fewest_steps_to_a_crossing() {
    let a = parse_motions("R8,U5,L5,D3").unwrap();
    let b = parse_motions("U7,R6,D4,L4").unwrap();
    assert_eq!(fewest_combined_steps(&a, &b), Ok(30));
    let map = build_map(&a).unwrap();
    assert_eq!(map.len(), 21);
    let none = parse_motions("U3").unwrap();
    let other = parse_motions("R3").unwrap();
    assert_eq!(fewest_combined_steps(&none, &other), Ok(i32::MAX));
}
