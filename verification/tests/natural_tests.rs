use rusterizer::natural::{bit_length, multiply, trim};

fn limbs(value: u128) -> Vec<u64> {
    vec![value as u64, (value >> 64) as u64]
}

#[test]
fn small_products() {
    assert_eq!(multiply(&vec![6], &vec![7]), vec![42, 0]);
    assert_eq!(multiply(&vec![], &vec![7]), vec![0]);
    assert_eq!(multiply(&vec![], &vec![]), Vec::<u64>::new());
    assert_eq!(multiply(&vec![0, 1], &vec![0, 1]), vec![0, 0, 1, 0]);
}

#[test]
fn products_carry_into_the_next_limb() {
    assert_eq!(multiply(&vec![u64::MAX], &vec![u64::MAX]), vec![1, u64::MAX - 1]);
    assert_eq!(
        multiply(&vec![u64::MAX, u64::MAX], &vec![u64::MAX, u64::MAX]),
        vec![1, 0, u64::MAX - 1, u64::MAX]
    );
    assert_eq!(multiply(&vec![u64::MAX, u64::MAX], &vec![2]), vec![u64::MAX - 1, u64::MAX, 1]);
}

#[test]
fn products_agree_with_wide_arithmetic() {
    for (a, b) in [(3u64, 5u64), (0x1234_5678_9ABC_DEF0, 0x0FED_CBA9_8765_4321), (u64::MAX, 2), (1 << 63, 1 << 63)] {
        let expected = a as u128 * b as u128;
        assert_eq!(multiply(&vec![a], &vec![b]), limbs(expected));
    }
}

#[test]
fn bits_of_a_number() {
    assert_eq!(bit_length(&vec![]), 0);
    assert_eq!(bit_length(&vec![0, 0]), 0);
    assert_eq!(bit_length(&vec![1]), 1);
    assert_eq!(bit_length(&vec![2]), 2);
    assert_eq!(bit_length(&vec![3]), 2);
    assert_eq!(bit_length(&vec![255]), 8);
    assert_eq!(bit_length(&vec![256]), 9);
    assert_eq!(bit_length(&vec![u64::MAX]), 64);
    assert_eq!(bit_length(&vec![0, 1]), 65);
    assert_eq!(bit_length(&vec![5, 0, 1 << 63, 0, 0]), 192);
}

#[test]
fn trimming_drops_the_zero_limbs_at_the_top() {
    let mut x = vec![1, 0, 2, 0, 0];
    trim(&mut x);
    assert_eq!(x, vec![1, 0, 2]);
    let mut zero = vec![0, 0];
    trim(&mut zero);
    assert_eq!(zero, Vec::<u64>::new());
    let mut kept = vec![0, 7];
    trim(&mut kept);
    assert_eq!(kept, vec![0, 7]);
}
