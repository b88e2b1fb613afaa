use guess_game::game::{Comparison, PlayOutcome};
use guess_game::response::{response_body, response_message, u32_to_decimal};

#[test]
fn message_for_each_outcome() {
    assert_eq!(response_message(&PlayOutcome::OutOfRange), "The value should be between 1 and 100!");
    assert_eq!(response_message(&PlayOutcome::AlreadyTried), "This value was already used!");
    assert_eq!(response_message(&PlayOutcome::Compared(Comparison::Less)), "Too small!");
    assert_eq!(response_message(&PlayOutcome::Compared(Comparison::Greater)), "Too big!");
    assert_eq!(response_message(&PlayOutcome::Compared(Comparison::Equal)), "You win!");
}

#[test]
fn decimal_rendering() {
    assert_eq!(u32_to_decimal(0), "0");
    assert_eq!(u32_to_decimal(7), "7");
    assert_eq!(u32_to_decimal(10), "10");
    assert_eq!(u32_to_decimal(100), "100");
    assert_eq!(u32_to_decimal(90210), "90210");
    assert_eq!(u32_to_decimal(u32::MAX), "4294967295");
}

#[test]
fn body_shape() {
    assert_eq!(
        response_body(3, &PlayOutcome::Compared(Comparison::Less)),
        "{\"number_of_tries\": 3, \"result\": \"Too small!\" }\n"
    );
    assert_eq!(
        response_body(12, &PlayOutcome::Compared(Comparison::Greater)),
        "{\"number_of_tries\": 12, \"result\": \"Too big!\" }\n"
    );
    assert_eq!(
        response_body(1, &PlayOutcome::Compared(Comparison::Equal)),
        "{\"number_of_tries\": 1, \"result\": \"You win!\" }\n"
    );
    assert_eq!(
        response_body(0, &PlayOutcome::OutOfRange),
        "{\"number_of_tries\": 0, \"result\": \"The value should be between 1 and 100!\" }\n"
    );
    assert_eq!(
        response_body(4000000000, &PlayOutcome::AlreadyTried),
        "{\"number_of_tries\": 4000000000, \"result\": \"This value was already used!\" }\n"
    );
}
