use cggmp21::protocol::{create_message, Message, Protocol};

#[test]
fn test_run_round_1() {
    let mut protocol = Protocol::new("test_party".to_string());
    let message = protocol.run_round_1(57);

    assert_eq!(message.sender, "test_party");
    assert_eq!(message.round, 1);
    assert!(message.data >= 1 && message.data <= 100);

    // Check that the number was stored in the protocol state
    let own_number = protocol.get_own_number().unwrap();
    assert_eq!(own_number, message.data);
}

#[test]
fn test_run_round_2() {
    let mut protocol = Protocol::new("test_party".to_string());

    // Set own number
    protocol.run_round_1(42);

    // Create test messages from other parties
    let messages = vec![
        Message { sender: "party1".to_string(), round: 1, data: 10 },
        Message { sender: "party2".to_string(), round: 1, data: 20 },
        Message { sender: "party3".to_string(), round: 1, data: 30 },
    ];

    let sum = protocol.run_round_2(&messages);

    // Expected sum: 10 + 20 + 30 + 42 = 102
    assert_eq!(sum, 102);
}

#[test]
fn round_2_before_round_1_counts_zero() {
    let protocol = Protocol::new("p".to_string());
    assert_eq!(protocol.get_own_number(), None);
    let messages = vec![create_message("q".to_string(), 1, 7)];
    assert_eq!(protocol.run_round_2(&messages), 7);
    assert_eq!(protocol.get_party_id(), "p");
}

#[test]
fn create_message_keeps_its_fields() {
    let m = create_message("s".to_string(), 2, 9);
    assert_eq!(m.sender, "s");
    assert_eq!(m.round, 2);
    assert_eq!(m.data, 9);
}
