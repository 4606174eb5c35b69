use ribbit::tcc_reset::{needs_reset, signing_identity};

#[test]
fn the_signing_identity_comes_from_the_authority_line() {
    let meta = "Executable=/x\nAuthority=Ribbit Code Signing \nAuthority=Other\n";
    assert_eq!(signing_identity(meta), "Ribbit Code Signing");
    assert_eq!(signing_identity("Signature=adhoc\nInfo.plist=not bound"), "adhoc");
    assert_eq!(signing_identity("nothing useful"), "");
}

#[test]
fn grants_reset_only_on_a_known_new_identity() {
    assert!(needs_reset("adhoc", "Ribbit Code Signing"));
    assert!(needs_reset("", "adhoc"));
    assert!(!needs_reset("Ribbit Code Signing", "Ribbit Code Signing"));
    assert!(!needs_reset("adhoc", ""));
}
