use bytes::Bytes;
use rox::keyexpr::KeyExpr;
use rox::message::RoxMessage;
use rox::types::NodeId;
use rox::validator::{command_values, CommandValidator, CommandValues};

/// The velocity limit of a node (the floating-point limits live with the caller).
struct VelocityLimit(f64);

#[test]
fn test_pass_without_boundary() {
    let mut validator: CommandValidator<VelocityLimit> = CommandValidator::new();
    let key = KeyExpr::new("robot-01", "motor", "cmd");
    let msg = RoxMessage::new(
        key.clone(),
        NodeId("planner".to_string()),
        0,
        Bytes::from(1.0f64.to_le_bytes().to_vec()),
    );

    // No boundary for the node: the command passes through unchecked.
    validator.note_validated();
    assert!(validator.boundary_for(&msg.header.key).is_none());
    assert_eq!(validator.total_validated(), 1);
    assert_eq!(validator.total_clamped(), 0);
}

#[test]
fn test_clamp_over_velocity() {
    let mut validator: CommandValidator<VelocityLimit> = CommandValidator::new();
    validator.add_boundary("motor", VelocityLimit(2.0));

    let key = KeyExpr::new("robot-01", "motor", "cmd");
    let msg = RoxMessage::new(
        key.clone(),
        NodeId("planner".to_string()),
        0,
        Bytes::from(5.0f64.to_le_bytes().to_vec()),
    );

    // The motor's limit applies, and the command asks for velocity 5.0, over the
    // limit of 2.0: the guard clamps it to 2.0 and counts the clamp.
    validator.note_validated();
    let limit = validator.boundary_for(&key).unwrap().0;
    assert_eq!(limit, 2.0);
    match command_values(&msg.payload) {
        CommandValues::Velocity(bits) => assert_eq!(f64::from_bits(bits), 5.0),
        _ => panic!("expected one velocity"),
    }
    validator.note_clamped();
    assert_eq!(validator.total_validated(), 1);
    assert_eq!(validator.total_clamped(), 1);
    assert_eq!(validator.total_rejected(), 0);
}

#[test]
fn target_and_values() {
    let mut validator: CommandValidator<VelocityLimit> = CommandValidator::new();
    validator.add_boundary("arm", VelocityLimit(1.0));
    assert!(validator.boundary_for(&KeyExpr("robot/arm/cmd".to_string())).is_some());
    assert!(validator.boundary_for(&KeyExpr("arm/cmd".to_string())).is_some());
    assert!(validator.boundary_for(&KeyExpr("arm".to_string())).is_none());
    assert!(validator.boundary_for(&KeyExpr("robot/arm".to_string())).is_none());
    assert_eq!(command_values(&Bytes::from(vec![1, 2, 3])), CommandValues::Nothing);
    let mut p = 1.5f64.to_le_bytes().to_vec();
    assert_eq!(command_values(&Bytes::from(p.clone())), CommandValues::Velocity(1.5f64.to_bits()));
    p.extend_from_slice(&(-2.0f64).to_le_bytes());
    assert_eq!(
        command_values(&Bytes::from(p.clone())),
        CommandValues::VelocityAndAcceleration(1.5f64.to_bits(), (-2.0f64).to_bits())
    );
}
