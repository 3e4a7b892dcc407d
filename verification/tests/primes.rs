use protohackers::primes::{handle_payload, malformed_line, number_reply, NumberKind};

#[test]
fn failure_line_is_exact() {
    assert_eq!(malformed_line(), "{\"result\":\"failure\"}\n");
}

#[test]
fn replies_true_for_a_prime_number() {
    assert_eq!(
        number_reply(NumberKind::Whole(7)),
        "{\"method\":\"isPrime\",\"prime\":true}\n"
    );
}

#[test]
fn replies_false_for_a_composite_number() {
    assert_eq!(
        number_reply(NumberKind::Whole(8)),
        "{\"method\":\"isPrime\",\"prime\":false}\n"
    );
}

#[test]
fn floats_and_negatives_are_never_prime() {
    assert_eq!(
        number_reply(NumberKind::Float),
        "{\"method\":\"isPrime\",\"prime\":false}\n"
    );
    assert_eq!(
        number_reply(NumberKind::Negative),
        "{\"method\":\"isPrime\",\"prime\":false}\n"
    );
}

#[test]
fn answers_a_well_formed_request() {
    let (line, ok) = handle_payload("{\"method\":\"isPrime\",\"number\":13}");
    assert!(ok);
    assert_eq!(line, "{\"method\":\"isPrime\",\"prime\":true}\n");

    let (line, ok) = handle_payload("{\"method\":\"isPrime\",\"number\":12}");
    assert!(ok);
    assert_eq!(line, "{\"method\":\"isPrime\",\"prime\":false}\n");
}

#[test]
fn a_float_number_is_well_formed_but_not_prime() {
    let (line, ok) = handle_payload("{\"method\":\"isPrime\",\"number\":3.5}");
    assert!(ok);
    assert_eq!(line, "{\"method\":\"isPrime\",\"prime\":false}\n");
}

#[test]
fn a_negative_number_is_well_formed_but_not_prime() {
    let (line, ok) = handle_payload("{\"method\":\"isPrime\",\"number\":-7}");
    assert!(ok);
    assert_eq!(line, "{\"method\":\"isPrime\",\"prime\":false}\n");
}

#[test]
fn rejects_text_that_is_not_json() {
    let (line, ok) = handle_payload("not json at all");
    assert!(!ok);
    assert_eq!(line, "{\"result\":\"failure\"}\n");
}

#[test]
fn rejects_a_missing_field() {
    let (_, ok) = handle_payload("{\"method\":\"isPrime\"}");
    assert!(!ok);
    let (_, ok) = handle_payload("{\"number\":5}");
    assert!(!ok);
}

#[test]
fn rejects_a_wrong_method_or_number_type() {
    let (_, ok) = handle_payload("{\"method\":\"isOdd\",\"number\":5}");
    assert!(!ok);
    let (_, ok) = handle_payload("{\"method\":\"isPrime\",\"number\":\"5\"}");
    assert!(!ok);
    let (_, ok) = handle_payload("{\"method\":7,\"number\":5}");
    assert!(!ok);
}

#[test]
fn handles_a_large_prime() {
    // 2^31 - 1, a Mersenne prime.
    let (line, ok) = handle_payload("{\"method\":\"isPrime\",\"number\":2147483647}");
    assert!(ok);
    assert_eq!(line, "{\"method\":\"isPrime\",\"prime\":true}\n");
}
