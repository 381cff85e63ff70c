use uguu::naming::uguuuu;

fn chars(s: &str) -> Vec<char> {
    s.chars().collect()
}

#[test]
fn encoded_names_are_recognized() {
    assert!(uguuuu(&chars("a.uguu")));
    assert!(uguuuu(&chars("archive.tar.uguu")));
}

#[test]
fn other_names_are_not() {
    assert!(!uguuuu(&chars("a.txt")));
    assert!(!uguuuu(&chars("uguu")));
    assert!(!uguuuu(&chars("")));
    // A bare ".uguu" has no stem to restore, so it does not count.
    assert!(!uguuuu(&chars(".uguu")));
}
