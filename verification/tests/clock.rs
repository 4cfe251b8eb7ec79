use tinta_core::{epoch_ms, now_ms};

#[test]
fn clock_readings_become_epoch_milliseconds() {
    assert_eq!(epoch_ms(Some(1_774_350_396_463)), 1_774_350_396_463);
    assert_eq!(epoch_ms(None), 0);
    assert_eq!(epoch_ms(Some(1u128 << 64)), 0);
    assert!(now_ms() > 1_600_000_000_000);
}
