use thegarii::difficulty::Difficulty;
use thegarii::result::DecStrError;

fn d(w0: u64, w1: u64, w2: u64, w3: u64) -> Difficulty {
    Difficulty { w0, w1, w2, w3 }
}

#[test]
fn reads_decimal_text() {
    assert_eq!(Difficulty::from_dec_str("0"), Ok(d(0, 0, 0, 0)));
    assert_eq!(Difficulty::from_dec_str(""), Ok(d(0, 0, 0, 0)));
    assert_eq!(Difficulty::from_dec_str("42"), Ok(d(42, 0, 0, 0)));
    assert_eq!(Difficulty::from_dec_str("18446744073709551616"), Ok(d(0, 1, 0, 0)));
    // 2^256 - 1
    assert_eq!(
        Difficulty::from_dec_str(
            "115792089237316195423570985008687907853269984665640564039457584007913129639935"
        ),
        Ok(d(u64::MAX, u64::MAX, u64::MAX, u64::MAX))
    );
}

#[test]
fn reports_decimal_errors() {
    assert_eq!(Difficulty::from_dec_str("12a"), Err(DecStrError::InvalidCharacter));
    assert_eq!(Difficulty::from_dec_str("+1"), Err(DecStrError::InvalidCharacter));
    // 2^256
    assert_eq!(
        Difficulty::from_dec_str(
            "115792089237316195423570985008687907853269984665640564039457584007913129639936"
        ),
        Err(DecStrError::InvalidLength)
    );
    // too large before the bad character is reached
    assert_eq!(
        Difficulty::from_dec_str(
            "1157920892373161954235709850086879078532699846656405640394575840079131296399360x"
        ),
        Err(DecStrError::InvalidLength)
    );
}

#[test]
fn compares_by_value() {
    assert!(d(0, 0, 0, 1).gt(&d(u64::MAX, u64::MAX, u64::MAX, 0)));
    assert!(!d(5, 0, 0, 0).gt(&d(5, 0, 0, 0)));
    assert!(d(6, 0, 0, 0).gt(&d(5, 0, 0, 0)));
    assert!(!d(u64::MAX, 0, 0, 0).gt(&d(0, 1, 0, 0)));
    assert!(d(0, 0, 1, 0).gt(&d(0, 7, 0, 0)));
}
