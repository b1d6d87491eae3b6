use numb_rs::gcd;

#[test]
fn gcd_test() {
    let a: u32 = 21;
    let b: u32 = 49;
    assert_eq!(gcd(a, b), 7);

    let a: u32 = 2599;
    let b: u32 = 791;

    assert_eq!(gcd(a, b), 113);

    let a: u32 = 410876;
    let b: u32 = 64417;

    assert_eq!(gcd(a, b), 1741);
}
