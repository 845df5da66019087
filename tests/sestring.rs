use ironworks::error::{Error, ErrorValue};
use ironworks::sestring::{Context, UNKNOWN};

#[test]
fn default_context_knows_nothing() {
    let c = Context::default();
    assert_eq!(c.player_id(), UNKNOWN);
    assert_eq!(c.player_name(7), "Obtaining Signature");
    assert_eq!(c.time(), None);
    assert_eq!(c.current_time(), None);
    assert_eq!(c.object_parameter(0), "");
}

#[test]
fn set_time_is_read_back() {
    let mut c = Context::default();
    c.set_time(1234);
    assert_eq!(c.time(), Some(1234));
}

#[test]
fn integer_parameters_count_from_one() {
    let c = Context::with_parameters(vec![10, 20], vec![]);
    assert_eq!(c.integer_parameter(0), UNKNOWN);
    assert_eq!(c.integer_parameter(1), 10);
    assert_eq!(c.integer_parameter(2), 20);
    assert_eq!(c.integer_parameter(3), UNKNOWN);
}

#[test]
fn string_parameters_count_from_zero() {
    let c = Context::with_parameters(vec![], vec!["a".to_string(), "b".to_string()]);
    assert_eq!(c.string_parameter(0), "a");
    assert_eq!(c.string_parameter(1), "b");
    assert_eq!(c.string_parameter(2), "");
}

#[test]
fn player_parameters() {
    let c = Context::default();
    assert_eq!(c.player_parameter(0).unwrap(), UNKNOWN);
    assert_eq!(c.player_parameter(69).unwrap(), u32::MAX);
    assert_eq!(c.player_parameter(72).unwrap(), u32::MAX);
    assert_eq!(c.player_parameter(30).unwrap(), UNKNOWN);
    assert!(matches!(c.player_parameter(1), Err(Error::Invalid(ErrorValue::PlayerParameter(1), _))));
    assert!(matches!(c.player_parameter(73), Err(Error::Invalid(..))));
    assert!(matches!(c.player_parameter(95), Err(Error::Invalid(..))));
}
