use solhunt::utils::{is_power_of_2, pack, tightly_pack, type_as_bytes};

#[test]
fn packs() {
    assert_eq!(pack(vec![32, 8, 20]), vec![vec![32], vec![8, 20]]);
}

#[test]
fn packs_tightly() {
    assert_eq!(
        tightly_pack(vec![vec![32], vec![20], vec![32], vec![8]]),
        Some(vec![vec![32], vec![20, 8], vec![32]])
    );
}

#[test]
fn packs_nothing_to_improve() {
    assert_eq!(tightly_pack(vec![vec![32], vec![32]]), None);
}

#[test]
fn packs_empty() {
    assert_eq!(pack(vec![]), Vec::<Vec<usize>>::new());
}

#[test]
fn packs_greedily_in_order() {
    assert_eq!(pack(vec![20, 20, 8]), vec![vec![20], vec![20, 8]]);
    assert_eq!(pack(vec![16, 16, 16]), vec![vec![16, 16], vec![16]]);
}

#[test]
fn type_widths() {
    assert_eq!(type_as_bytes("address"), 20);
    assert_eq!(type_as_bytes("bool"), 1);
    assert_eq!(type_as_bytes("uint"), 32);
    assert_eq!(type_as_bytes("int"), 32);
    assert_eq!(type_as_bytes("uint8"), 1);
    assert_eq!(type_as_bytes("uint48"), 6);
    assert_eq!(type_as_bytes("uint256"), 32);
    assert_eq!(type_as_bytes("int24"), 3);
    assert_eq!(type_as_bytes("int256"), 32);
    assert_eq!(type_as_bytes("bytes1"), 1);
    assert_eq!(type_as_bytes("bytes20"), 20);
    assert_eq!(type_as_bytes("bytes32"), 32);
}

#[test]
fn type_widths_fall_back_to_a_slot() {
    assert_eq!(type_as_bytes("string"), 32);
    assert_eq!(type_as_bytes("uint7"), 32);
    assert_eq!(type_as_bytes("uint264"), 32);
    assert_eq!(type_as_bytes("bytes33"), 32);
    assert_eq!(type_as_bytes("bytes0"), 32);
    assert_eq!(type_as_bytes(""), 32);
    // non-canonical numerals with leading zeros name no sized type
    assert_eq!(type_as_bytes("uint048"), 32);
    assert_eq!(type_as_bytes("bytes04"), 32);
    assert_eq!(type_as_bytes("int0016"), 32);
}

#[test]
fn powers_of_two() {
    assert!(is_power_of_2(1));
    assert!(is_power_of_2(2));
    assert!(is_power_of_2(4));
    assert!(is_power_of_2(1024));
    assert!(!is_power_of_2(0));
    assert!(!is_power_of_2(3));
    assert!(!is_power_of_2(6));
}
