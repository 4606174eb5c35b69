use ribbit::inserter::gate_error;

#[test]
fn open_gates_let_the_text_through() {
    assert!(gate_error(true, false).is_none());
}

#[test]
fn missing_accessibility_grant_is_named() {
    let msg = gate_error(false, false).expect("blocked");
    assert!(msg.contains("Accessibility"), "{}", msg);
}

#[test]
fn secure_input_is_named_even_when_the_grant_is_fine() {
    let msg = gate_error(true, true).expect("blocked");
    assert!(msg.contains("secure input"), "{}", msg);
}

#[test]
fn a_missing_grant_is_named_before_secure_input() {
    let msg = gate_error(false, true).expect("blocked");
    assert!(msg.contains("Accessibility"), "{}", msg);
    assert!(msg.contains("System Settings → Privacy & Security → Accessibility."), "{}", msg);
}
