use sigop::optimizer::{
    alphabet_chars, encode_function_signature, next_round, run, try_parse, Function,
};

#[test]
fn it_encodes_function_signature() {
    let signature = "myFunction(address)";

    let result = encode_function_signature(signature);
    assert_eq!("a207136c", hex::encode(result))
}

#[test]
fn it_tries_optimizations() {
    let f = Function {
        name: "myFunction".to_string(),
        args: "(address)".to_string(),
    };

    let optimization = f.try_optimizations(3, 2);
    assert_eq!(true, optimization.is_some());
}

#[test]
fn it_parses_valid_function_signature() {
    let signature = "myFunction(address)";
    let function = try_parse(signature);

    assert_eq!(true, function.is_some());
    assert_eq!("myFunction", function.as_ref().unwrap().name);
    assert_eq!("(address)", function.as_ref().unwrap().args)
}

#[test]
fn it_parses_valid_function_signature_with_struct() {
    let signature = "myFunction((address,uint256))";
    let function = try_parse(signature);

    assert_eq!(true, function.is_some());
    assert_eq!("myFunction", function.as_ref().unwrap().name);
    assert_eq!("((address,uint256))", function.as_ref().unwrap().args)
}

#[test]
fn it_parses_empty_name() {
    let function = try_parse("(address)");

    assert_eq!(true, function.is_some());
    assert_eq!("", function.as_ref().unwrap().name);
    assert_eq!("(address)", function.as_ref().unwrap().args)
}

#[test]
fn it_rejects_signature_without_parenthesis() {
    let function = try_parse("myFunction");

    assert_eq!(true, function.is_none())
}

#[test]
fn it_encodes_deterministically() {
    let first = encode_function_signature("myFunction(address)");
    let second = encode_function_signature("myFunction(address)");

    assert_eq!(first, second)
}

#[test]
fn it_generates_rounds_in_a_fixed_order() {
    let alpha = vec!['a', 'b'];
    let frontier = vec!["x".to_string(), "y".to_string()];

    let next = next_round(&frontier, &alpha);
    assert_eq!(vec!["ax", "bx", "ay", "by"], next);

    let again = next_round(&frontier, &alpha);
    assert_eq!(next, again)
}

#[test]
fn it_prepends_new_symbols() {
    let alpha = alphabet_chars();
    let ones: Vec<String> = alpha.iter().map(|c| c.to_string()).collect();

    let twos = next_round(&ones, &alpha);
    assert_eq!(64 * 64, twos.len());
    assert_eq!("00", twos[0]);
    assert_eq!("10", twos[1]);
    assert_eq!("01", twos[64]);
    assert_eq!("__", twos[64 * 64 - 1]);
}

#[test]
fn it_finds_an_optimization() {
    let optimized = run("myFunction(address)", 3, 2);

    assert_eq!(true, optimized.is_some());
    let candidate = optimized.unwrap();
    assert_eq!(true, candidate.starts_with("myFunction_"));
    assert_eq!(true, candidate.ends_with("(address)"));
    let selector = encode_function_signature(&candidate);
    assert_eq!(0, selector[0]);
    assert_eq!(0, selector[1]);
}

#[test]
fn it_exhausts_the_bound() {
    let optimized = run("myFunction(address)", 1, 4);

    assert_eq!(None, optimized)
}

#[test]
fn it_never_meets_an_impossible_target() {
    let optimized = run("myFunction(address)", 1, 5);

    assert_eq!(None, optimized)
}

#[test]
fn it_short_circuits_on_invalid_signature() {
    let optimized = run("myFunction(address", 3, 2);

    assert_eq!(None, optimized)
}

#[test]
fn it_runs_whitespaced_signature() {
    let spaced = run("myFunction ( address) ", 2, 1);
    let clean = run("myFunction(address)", 2, 1);

    assert_eq!(spaced, clean);
    assert_eq!(true, clean.is_some())
}
