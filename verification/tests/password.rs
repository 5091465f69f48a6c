use intcode::password::count_matching;

#[test]
fn test_matching() {
    assert_eq!(intcode::password::matches(111111), false);
    assert_eq!(intcode::password::matches(223456), true);
    assert_eq!(intcode::password::matches(223345), true);

    assert_eq!(intcode::password::matches(223450), false);
    assert_eq!(intcode::password::matches(123789), false);

    // too short
    assert_eq!(intcode::password::matches(111), false);
    assert_eq!(intcode::password::matches(12233), false);

    // too long
    assert_eq!(intcode::password::matches(11223344), false);
    assert_eq!(intcode::password::matches(1123450), false);

    assert_eq!(intcode::password::matches(0), false);

    assert_eq!(intcode::password::matches(112233), true); // meets these criteria because the digits never decrease and all repeated digits are exactly two digits long.
    assert_eq!(intcode::password::matches(123444), false); // no longer meets the criteria (the repeated 44 is part of a larger group of 444).
    assert_eq!(intcode::password::matches(111122), true); // meets the criteria (even though 1 is repeated more than twice, it still contains a double 22)
}

#[test]
fn test_count_matching_small_range() {
    // 223450..223454 all have a decreasing final digit; 223455..223459
    // are nondecreasing six-digit numbers with a lone pair of 2s.
    assert_eq!(count_matching(223450, 223460), 5);
    // An empty range holds no passwords.
    assert_eq!(count_matching(223450, 223450), 0);
    assert_eq!(count_matching(10, 5), 0);
}
