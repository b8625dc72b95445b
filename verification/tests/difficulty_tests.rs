use blockchain_core::Difficulty;

#[test]
fn test_difficulty_zero() {
    let d = Difficulty::new(0);

    assert!(d.verify_bytes(&vec![255]));
}

#[test]
fn test_difficulty_one() {
    let d = Difficulty::new(1);

    assert!(d.verify_bytes(&vec![127]));
    assert!(!d.verify_bytes(&vec![128]));
}

#[test]
fn test_difficulty_8() {
    let d = Difficulty::new(8);

    assert!(d.verify_bytes(&vec![0]));
    assert!(!d.verify_bytes(&vec![1]));
}

#[test]
fn test_difficulty_9() {
    let d = Difficulty::new(9);

    assert!(d.verify_bytes(&vec![0, 127]));
    assert!(!d.verify_bytes(&vec![0, 128]));
    assert!(!d.verify_bytes(&vec![0]));
    assert!(!d.verify_bytes(&vec![1]));
}

#[test]
fn test_raise_ease_saturate() {
    assert_eq!(Difficulty::new(255), Difficulty::new(255).raise());
    assert_eq!(Difficulty::new(0), Difficulty::new(0).ease());
    assert_eq!(Difficulty::new(3), Difficulty::new(2).raise());
    assert_eq!(Difficulty::new(1), Difficulty::new(2).ease());
}
