use monkey::object::{Boolean, Hashable, Integer, StringLiteral};

#[test]
fn test_string_hash_key() {
    let hello1 = StringLiteral { value: "Hello world".to_string() };

    let hello2 = StringLiteral { value: "Hello world".to_string() };

    let diff1 = StringLiteral { value: "My name is johnny".to_string() };

    let diff2 = StringLiteral { value: "My name is johnny".to_string() };

    if hello1.hash_key() != hello2.hash_key() {
        panic!("strings with same content have different hash keys");
    }
    if diff1.hash_key() != diff2.hash_key() {
        panic!("strings with same content have different hash keys");
    }
    if hello1.hash_key() == diff1.hash_key() {
        panic!("strings with diff content have same hash keys");
    }
}

#[test]
fn test_integer_hash_key() {
    let hello1 = Integer { value: 1 };
    let hello2 = Integer { value: 1 };

    let diff1 = Integer { value: 2 };
    let diff2 = Integer { value: 2 };

    if hello1.hash_key() != hello2.hash_key() {
        panic!("integer with same content have different hash keys");
    }
    if diff1.hash_key() != diff2.hash_key() {
        panic!("integer with same content have different hash keys");
    }
    if hello1.hash_key() == diff1.hash_key() {
        panic!("integer  with diff content have same hash keys");
    }
}

#[test]
fn test_boolean_hash_key() {
    let hello1 = Boolean { value: true };
    let hello2 = Boolean { value: true };

    let diff1 = Boolean { value: false };
    let diff2 = Boolean { value: false };

    if hello1.hash_key() != hello2.hash_key() {
        panic!("boolean with same content have different hash keys");
    }
    if diff1.hash_key() != diff2.hash_key() {
        panic!("boolean with same content have different hash keys");
    }
    if hello1.hash_key() == diff1.hash_key() {
        panic!("boolean with diff content have same hash keys");
    }
}
