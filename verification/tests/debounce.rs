use gnome_brightness::debounce::Debouncer;

#[test]
fn one_pending_write_per_display() {
    let mut d: Debouncer<&str> = Debouncer::new();
    assert_eq!(d.schedule(1, "first"), None);
    assert_eq!(d.schedule(2, "other"), None);
    assert_eq!(d.schedule(1, "second"), Some("first"));
    assert_eq!(d.take(1), Some("second"));
    assert_eq!(d.take(1), None);
    assert_eq!(d.take(2), Some("other"));
    assert_eq!(d.take(3), None);
}
