use blockchain_core::pace_maker::next_difficulty;
use blockchain_core::timestamp::Timestamp;
use blockchain_core::Difficulty;

fn record(d: u8, nanos: i64) -> (Difficulty, Timestamp) {
    (Difficulty::new(d), Timestamp::from_nanos(nanos))
}

#[test]
fn test_too_few_records_keep_easiest() {
    let records = vec![record(7, 0), record(7, 10)];

    assert_eq!(Difficulty::new(2), next_difficulty(&records, Difficulty::new(2)));
}

#[test]
fn test_slowing_chain_eases() {
    // The last gap (80) is more than twice the one before (30): ease.
    let records = vec![record(5, 0), record(5, 30), record(5, 110)];

    assert_eq!(Difficulty::new(4), next_difficulty(&records, Difficulty::new(1)));
}

#[test]
fn test_easing_stops_at_the_easiest() {
    let records = vec![record(2, 0), record(2, 30), record(2, 110)];

    assert_eq!(Difficulty::new(2), next_difficulty(&records, Difficulty::new(2)));
}

#[test]
fn test_racing_chain_raises() {
    // The last gap (10) is less than half the one before (30): raise.
    let records = vec![record(5, 0), record(5, 30), record(5, 40)];

    assert_eq!(Difficulty::new(6), next_difficulty(&records, Difficulty::new(1)));
}

#[test]
fn test_steady_chain_keeps_difficulty() {
    let records = vec![record(5, 0), record(5, 30), record(5, 60)];

    assert_eq!(Difficulty::new(5), next_difficulty(&records, Difficulty::new(1)));
}
