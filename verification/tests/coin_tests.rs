use blockchain_core::Coin;

#[test]
fn test_sum() {
    let mut sum = Coin::from(0);
    let mut i: u64 = 1;
    while i <= 10 {
        sum = sum.add(Coin::from(i));
        i += 1;
    }

    assert_eq!(Coin::from(55), sum);
}

#[test]
fn lib_it_works() {
    assert_eq!(2 + 2, 4);
}
