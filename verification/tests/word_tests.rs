use qcemu::Word;

#[test]
fn width_eight_wraps_300_to_44() {
    let mut w = Word::new(8).unwrap();
    w.set_to(300);
    assert_eq!(w.get_val(), 44);
}

#[test]
fn width_at_storage_limit_is_rejected() {
    assert!(Word::new(64).is_none());
    assert!(Word::new(65).is_none());
    assert!(Word::new(63).is_some());
}

#[test]
fn negative_values_wrap_around() {
    let mut w = Word::new(8).unwrap();
    w.set_to(-1);
    assert_eq!(w.get_val(), 255);
    w.set_to(-256);
    assert_eq!(w.get_val(), 0);
    w.set_to(-300);
    assert_eq!(w.get_val(), 212);
}

#[test]
fn set_and_get_are_idempotent() {
    let mut w = Word::new(4).unwrap();
    w.set_to(17);
    let v = w.get_val();
    assert_eq!(v, 1);
    w.set_to(v);
    assert_eq!(w.get_val(), 1);
}

#[test]
fn zero_width_word_reads_zero() {
    let mut w = Word::new(0).unwrap();
    w.set_to(12345);
    assert_eq!(w.get_val(), 0);
}
