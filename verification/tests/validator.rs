use sigop::validator::{remove_whitespaces, try_validate, verify_parenthesis};

#[test]
fn it_removes_whitespaces() {
    let original = "myFunction ( address) ";
    let result = remove_whitespaces(original);

    assert_eq!("myFunction(address)", result)
}

#[test]
fn it_verifies_ending_character() {
    let function_sig = "myFunction(address";
    let result = verify_parenthesis(function_sig);

    assert_eq!(false, result)
}

#[test]
fn it_verifies_parenthesis_count() {
    let function_sig = "myFunction((address)";
    let result = verify_parenthesis(function_sig);

    assert_eq!(false, result)
}

#[test]
fn it_validates_parenthesis_criteria() {
    let function_sig = "myFunction(address)";
    let result = verify_parenthesis(function_sig);

    assert_eq!(true, result)
}

#[test]
fn it_removes_unicode_whitespaces() {
    let original = "my\u{a0}Function\u{2003}(address)\u{3000}";
    let result = remove_whitespaces(original);

    assert_eq!("myFunction(address)", result)
}

#[test]
fn it_validates_whitespaced_signature() {
    let validated = try_validate("myFunction ( address) ");

    assert_eq!(Some("myFunction(address)".to_string()), validated)
}

#[test]
fn it_validates_like_the_whitespace_free_form() {
    let raw = try_validate("myFunction ( address) ");
    let clean = try_validate("myFunction(address)");

    assert_eq!(raw, clean)
}

#[test]
fn it_rejects_missing_closing_parenthesis() {
    let validated = try_validate("myFunction(address");

    assert_eq!(None, validated)
}

#[test]
fn it_rejects_unbalanced_parenthesis() {
    let validated = try_validate("myFunction((address)");

    assert_eq!(None, validated)
}
