use margo::name::{CrateName, CrateNameError};

#[test]
fn accepts_valid_names() {
    for ok in ["a", "z9", "a_b-c", "Alpha", "x0_"] {
        let n = CrateName::try_from(ok).unwrap();
        assert_eq!(n.as_str(), ok);
        assert_eq!(n.len(), ok.len());
    }
}

#[test]
fn rejects_empty_name() {
    assert_eq!(CrateName::try_from("").unwrap_err(), CrateNameError::Empty);
}

#[test]
fn rejects_leading_non_alphabetic() {
    assert_eq!(
        CrateName::try_from("1abc").unwrap_err(),
        CrateNameError::InitialAlpha
    );
    assert_eq!(
        CrateName::try_from("_abc").unwrap_err(),
        CrateNameError::InitialAlpha
    );
}

#[test]
fn rejects_invalid_character() {
    assert_eq!(
        CrateName::try_from("ab!c").unwrap_err(),
        CrateNameError::ContainsInvalidChar { chr: '!' }
    );
    assert_eq!(
        CrateName::try_from("a b").unwrap_err(),
        CrateNameError::ContainsInvalidChar { chr: ' ' }
    );
}

#[test]
fn rejects_non_ascii() {
    assert_eq!(
        CrateName::try_from("caf\u{e9}").unwrap_err(),
        CrateNameError::NotAscii
    );
}

fn prefix_dirs(name: &str) -> Vec<String> {
    let n = CrateName::try_from(name).unwrap();
    let mut p = Vec::new();
    n.append_prefix_directories(&mut p);
    p
}

#[test]
fn sharding_is_bit_exact() {
    assert_eq!(prefix_dirs("a"), vec!["1".to_string()]);
    assert_eq!(prefix_dirs("ab"), vec!["2".to_string()]);
    assert_eq!(prefix_dirs("abc"), vec!["3".to_string(), "a".to_string()]);
    assert_eq!(prefix_dirs("abcd"), vec!["ab".to_string(), "cd".to_string()]);
    assert_eq!(prefix_dirs("abcde"), vec!["ab".to_string(), "cd".to_string()]);
}
