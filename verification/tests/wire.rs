use transact::protocol::receipt::{
    Event, EventBuilder, StateChange, TransactionReceipt, TransactionReceiptBuilder,
};
use transact::protos::events::{Event as ProtoEvent, Event_Attribute};
use transact::protos::transaction_receipt::{
    StateChange as ProtoStateChange, StateChange_Type, TransactionReceipt as ProtoTransactionReceipt,
};
use transact::protos::wire::WireError;
use transact::protos::ProtoConversionError;
use transact::state;

fn proto_state_change(address: &str, value: &[u8], field_type: StateChange_Type) -> ProtoStateChange {
    ProtoStateChange {
        address: address.to_string(),
        value: value.to_vec(),
        field_type,
    }
}

#[test]
fn state_change_message_bytes() {
    let m = proto_state_change("ab", &[1, 2], StateChange_Type::SET);
    assert_eq!(
        m.write_to_bytes().unwrap(),
        vec![0x0a, 0x02, b'a', b'b', 0x12, 0x02, 0x01, 0x02, 0x18, 0x01]
    );
    let d = proto_state_change("k", &[], StateChange_Type::DELETE);
    assert_eq!(d.write_to_bytes().unwrap(), vec![0x0a, 0x01, b'k', 0x18, 0x02]);
}

#[test]
fn default_message_is_empty() {
    assert_eq!(ProtoStateChange::new().write_to_bytes().unwrap(), Vec::<u8>::new());
    assert_eq!(ProtoEvent::new().write_to_bytes().unwrap(), Vec::<u8>::new());
    assert_eq!(ProtoTransactionReceipt::new().write_to_bytes().unwrap(), Vec::<u8>::new());
    let parsed = ProtoStateChange::parse_from_bytes(&[]).unwrap();
    assert_eq!(parsed, ProtoStateChange::new());
}

#[test]
fn long_value_has_two_byte_length() {
    let value = vec![7u8; 300];
    let m = proto_state_change("", &value, StateChange_Type::TYPE_UNSET);
    let bytes = m.write_to_bytes().unwrap();
    assert_eq!(&bytes[..3], &[0x12, 0xac, 0x02]);
    assert_eq!(bytes.len(), 303);
    assert_eq!(ProtoStateChange::parse_from_bytes(&bytes).unwrap(), m);
}

#[test]
fn unknown_fields_are_skipped() {
    // field 5 (varint 5), field 16 (varint 300), field 6 (length-delimited), then address
    let bytes = [
        0x28, 0x05, 0x80, 0x01, 0xac, 0x02, 0x32, 0x02, 0xff, 0xff, 0x0a, 0x01, b'x',
    ];
    let m = ProtoStateChange::parse_from_bytes(&bytes).unwrap();
    assert_eq!(m, proto_state_change("x", &[], StateChange_Type::TYPE_UNSET));
}

#[test]
fn wrong_wire_type_is_malformed() {
    assert_eq!(ProtoStateChange::parse_from_bytes(&[0x08, 0x01]), Err(WireError::Malformed));
    assert_eq!(ProtoStateChange::parse_from_bytes(&[0x1a, 0x00]), Err(WireError::Malformed));
}

#[test]
fn invalid_utf8_is_malformed() {
    assert_eq!(
        ProtoStateChange::parse_from_bytes(&[0x0a, 0x01, 0xff]),
        Err(WireError::Malformed)
    );
}

#[test]
fn truncated_field_is_malformed() {
    assert_eq!(
        ProtoStateChange::parse_from_bytes(&[0x12, 0x03, 0x01]),
        Err(WireError::Malformed)
    );
    assert_eq!(ProtoStateChange::parse_from_bytes(&[0x12]), Err(WireError::Malformed));
    assert_eq!(ProtoStateChange::parse_from_bytes(&[0x00]), Err(WireError::Malformed));
}

#[test]
fn later_singular_field_replaces_earlier() {
    let bytes = [0x0a, 0x01, b'a', 0x0a, 0x01, b'b'];
    let m = ProtoStateChange::parse_from_bytes(&bytes).unwrap();
    assert_eq!(m.address, "b");
}

#[test]
fn unknown_enum_value_is_ignored() {
    let m = ProtoStateChange::parse_from_bytes(&[0x18, 0x07]).unwrap();
    assert_eq!(m.field_type, StateChange_Type::TYPE_UNSET);
    let m = ProtoStateChange::parse_from_bytes(&[0x18, 0x02, 0x18, 0x07]).unwrap();
    assert_eq!(m.field_type, StateChange_Type::DELETE);
}

#[test]
fn event_message_bytes() {
    let e = ProtoEvent {
        event_type: "t".to_string(),
        attributes: vec![Event_Attribute {
            key: "k".to_string(),
            value: "v".to_string(),
        }],
        data: vec![9],
    };
    let bytes = e.write_to_bytes().unwrap();
    assert_eq!(
        bytes,
        vec![0x0a, 0x01, b't', 0x12, 0x06, 0x0a, 0x01, b'k', 0x12, 0x01, b'v', 0x1a, 0x01, 0x09]
    );
    assert_eq!(ProtoEvent::parse_from_bytes(&bytes).unwrap(), e);
}

#[test]
fn truncated_embedded_message_at_top_level_is_read() {
    // the attribute claims five bytes but only three follow
    let bytes = [0x12, 0x05, 0x0a, 0x01, b'k'];
    let e = ProtoEvent::parse_from_bytes(&bytes).unwrap();
    assert_eq!(e.attributes.len(), 1);
    assert_eq!(e.attributes[0].key, "k");
}

#[test]
fn truncated_embedded_message_inside_a_message_is_malformed() {
    // a receipt whose event (3 bytes) holds an attribute that claims 5 bytes
    let bytes = [0x12, 0x03, 0x12, 0x05, 0x0a];
    assert_eq!(
        ProtoTransactionReceipt::parse_from_bytes(&bytes),
        Err(WireError::Malformed)
    );
}

#[test]
fn receipt_message_roundtrip() {
    let m = ProtoTransactionReceipt {
        state_changes: vec![proto_state_change("a", &[1], StateChange_Type::SET)],
        events: vec![ProtoEvent {
            event_type: "e".to_string(),
            attributes: vec![],
            data: vec![],
        }],
        data: vec![vec![], vec![5, 6]],
        transaction_id: "id".to_string(),
    };
    let bytes = m.write_to_bytes().unwrap();
    assert_eq!(
        bytes,
        vec![
            0x0a, 0x08, 0x0a, 0x01, b'a', 0x12, 0x01, 0x01, 0x18, 0x01, 0x12, 0x03, 0x0a, 0x01,
            b'e', 0x1a, 0x00, 0x1a, 0x02, 0x05, 0x06, 0x22, 0x02, b'i', b'd'
        ]
    );
    assert_eq!(ProtoTransactionReceipt::parse_from_bytes(&bytes).unwrap(), m);
}

#[test]
fn transaction_receipt_proto_compatibility() {
    let proto = ProtoTransactionReceipt {
        state_changes: vec![
            proto_state_change("addr", &[1, 2, 3, 4], StateChange_Type::SET),
            proto_state_change("addr", &[], StateChange_Type::DELETE),
        ],
        events: vec![ProtoEvent {
            event_type: "sawtooth/state-delta".to_string(),
            attributes: vec![Event_Attribute {
                key: "address".to_string(),
                value: "addr".to_string(),
            }],
            data: vec![9, 10, 11, 12],
        }],
        data: vec![vec![5, 6, 7, 8]],
        transaction_id: "txn".to_string(),
    };
    let bytes = proto.write_to_bytes().unwrap();
    let receipt = TransactionReceipt::from_bytes(&bytes).unwrap();
    assert_eq!(
        receipt.state_changes,
        vec![
            StateChange::SetValue {
                key: "addr".to_string(),
                value: vec![1, 2, 3, 4]
            },
            StateChange::Delete {
                key: "addr".to_string()
            },
        ]
    );
    assert_eq!(
        receipt.events,
        vec![Event {
            event_type: "sawtooth/state-delta".to_string(),
            attributes: vec![("address".to_string(), "addr".to_string())],
            data: vec![9, 10, 11, 12],
        }]
    );
    assert_eq!(receipt.data, vec![vec![5, 6, 7, 8]]);
    assert_eq!(receipt.transaction_id, "txn");
}

#[test]
fn unset_state_change_type_is_refused() {
    let p = proto_state_change("a", &[], StateChange_Type::TYPE_UNSET);
    match StateChange::from_proto(p) {
        Err(ProtoConversionError::InvalidTypeError(m)) => assert_eq!(
            m,
            "Cannot convert StateChange with type unset. /\n                    StageChange type must be StateChange_Type::SET or StateChange_Type::DELETE."
        ),
        other => panic!("unexpected {:?}", other),
    }
    // a receipt whose state change has no type
    let bytes = [0x0a, 0x03, 0x0a, 0x01, b'a'];
    match TransactionReceipt::from_bytes(&bytes) {
        Err(ProtoConversionError::InvalidTypeError(_)) => {}
        other => panic!("unexpected {:?}", other),
    }
}

#[test]
fn malformed_bytes_are_a_serialization_error() {
    match StateChange::from_bytes(&[0xff]) {
        Err(ProtoConversionError::SerializationError(m)) => {
            assert_eq!(m, "Unable to get StateChange from bytes")
        }
        other => panic!("unexpected {:?}", other),
    }
    match Event::from_bytes(&[0x0a, 0x05]) {
        Err(ProtoConversionError::SerializationError(m)) => {
            assert_eq!(m, "Unable to get TransactionReceipt from bytes")
        }
        other => panic!("unexpected {:?}", other),
    }
    match TransactionReceipt::from_bytes(&[0x22, 0x01, 0xc3]) {
        Err(ProtoConversionError::SerializationError(m)) => {
            assert_eq!(m, "Unable to get TransactionReceipt from bytes")
        }
        other => panic!("unexpected {:?}", other),
    }
}

#[test]
fn state_change_bytes_roundtrip() {
    let set = StateChange::SetValue {
        key: "key".to_string(),
        value: vec![1, 2, 3],
    };
    let bytes = set.clone().into_bytes().unwrap();
    assert_eq!(
        bytes,
        vec![0x0a, 0x03, b'k', b'e', b'y', 0x12, 0x03, 1, 2, 3, 0x18, 0x01]
    );
    assert_eq!(StateChange::from_bytes(&bytes).unwrap(), set);
    let delete = StateChange::Delete {
        key: "key".to_string(),
    };
    let bytes = delete.clone().into_bytes().unwrap();
    assert_eq!(StateChange::from_bytes(&bytes).unwrap(), delete);
}

#[test]
fn state_change_proto_roundtrip() {
    let set = StateChange::SetValue {
        key: "k".to_string(),
        value: vec![4],
    };
    let p = set.clone().into_proto().unwrap();
    assert_eq!(p, proto_state_change("k", &[4], StateChange_Type::SET));
    assert_eq!(p.into_native().unwrap(), set);
    let delete = StateChange::Delete { key: "k".to_string() };
    let p = ProtoStateChange::from_native(delete.clone()).unwrap();
    assert_eq!(p, proto_state_change("k", &[], StateChange_Type::DELETE));
    assert_eq!(StateChange::from_proto(p).unwrap(), delete);
}

#[test]
fn event_proto_roundtrip() {
    let e = Event {
        event_type: "t".to_string(),
        attributes: vec![("a".to_string(), "b".to_string())],
        data: vec![1],
    };
    let p = e.clone().into_proto().unwrap();
    assert_eq!(p.attributes[0].key, "a");
    assert_eq!(p.attributes[0].value, "b");
    assert_eq!(Event::from_proto(p).unwrap(), e);
}

#[test]
fn receipt_proto_roundtrip() {
    let r = TransactionReceipt {
        state_changes: vec![StateChange::Delete { key: "d".to_string() }],
        events: vec![],
        data: vec![vec![1]],
        transaction_id: "t".to_string(),
    };
    let p = ProtoTransactionReceipt::from_native(r.clone()).unwrap();
    assert_eq!(p.state_changes, vec![proto_state_change("d", &[], StateChange_Type::DELETE)]);
    assert_eq!(p.into_native().unwrap(), r);
}

#[test]
fn empty_receipt_bytes_roundtrip() {
    let r = TransactionReceipt {
        state_changes: vec![],
        events: vec![],
        data: vec![],
        transaction_id: String::new(),
    };
    let bytes = r.clone().into_bytes().unwrap();
    assert!(bytes.is_empty());
    assert_eq!(TransactionReceipt::from_bytes(&bytes).unwrap(), r);
}

#[test]
fn has_key_ignores_variant() {
    let set = StateChange::SetValue {
        key: "abc".to_string(),
        value: vec![],
    };
    let delete = StateChange::Delete { key: "abc".to_string() };
    assert!(set.has_key("abc"));
    assert!(delete.has_key("abc"));
    assert!(!set.has_key("abd"));
    assert!(!delete.has_key(""));
}

#[test]
fn state_change_debug_text() {
    let set = StateChange::SetValue {
        key: "abc".to_string(),
        value: vec![1, 2, 3, 4],
    };
    assert_eq!(set.debug_string(), "StateChange{ key: \"abc\", value: <4 bytes> }");
    let one = StateChange::SetValue {
        key: "a\"b".to_string(),
        value: vec![1],
    };
    assert_eq!(one.debug_string(), "StateChange{ key: \"a\\\"b\", value: <1 byte> }");
    let none = StateChange::SetValue {
        key: "x".to_string(),
        value: vec![0; 1234],
    };
    assert_eq!(none.debug_string(), "StateChange{ key: \"x\", value: <1234 bytes> }");
    let delete = StateChange::Delete { key: "abc".to_string() };
    assert_eq!(delete.debug_string(), "StateChange::Delete{ key: \"abc\" })");
}

#[test]
fn state_conversion_keeps_fields() {
    let change: state::StateChange = StateChange::SetValue {
        key: "k".to_string(),
        value: vec![3],
    }
    .into();
    assert_eq!(
        change,
        state::StateChange::SetValue {
            key: "k".to_string(),
            value: vec![3]
        }
    );
}

#[test]
fn event_builder_requires_event_type() {
    let err = EventBuilder::new().with_data(vec![1]).build().unwrap_err();
    assert_eq!(err.description(), "'event_type' field is required");
    assert_eq!(err.to_string(), "MissingField: 'event_type' field is required");
}

#[test]
fn transaction_receipt_builder_requires_transaction_id() {
    let err = TransactionReceiptBuilder::new()
        .with_data(vec![vec![1]])
        .build()
        .unwrap_err();
    assert_eq!(err.description(), "'transaction_id' field is required");
    assert_eq!(
        err.to_string(),
        "MissingField: 'transaction_id' field is required"
    );
}

#[test]
fn builder_setters_keep_other_fields() {
    let b = EventBuilder::new()
        .with_data(vec![1])
        .with_event_type("t".to_string())
        .with_attributes(vec![("a".to_string(), "b".to_string())]);
    assert_eq!(b.data, vec![1]);
    let e = b.build().unwrap();
    assert_eq!(e.event_type, "t");
    assert_eq!(e.data, vec![1]);
    let r = TransactionReceiptBuilder::new()
        .with_transaction_id("id".to_string())
        .with_state_changes(vec![StateChange::Delete { key: "k".to_string() }])
        .build()
        .unwrap();
    assert_eq!(r.transaction_id, "id");
    assert!(r.events.is_empty());
    assert!(r.data.is_empty());
}

#[test]
fn builder_setter_order_does_not_matter() {
    let attrs = vec![("a".to_string(), "b".to_string())];
    let e1 = EventBuilder::new()
        .with_event_type("t".to_string())
        .with_attributes(attrs.clone())
        .with_data(vec![1])
        .build()
        .unwrap();
    let e2 = EventBuilder::new()
        .with_data(vec![1])
        .with_attributes(attrs.clone())
        .with_event_type("t".to_string())
        .build()
        .unwrap();
    assert_eq!(e1, e2);
    assert_eq!(
        e1,
        Event {
            event_type: "t".to_string(),
            attributes: attrs,
            data: vec![1]
        }
    );
    let changes = vec![StateChange::Delete { key: "k".to_string() }];
    let r1 = TransactionReceiptBuilder::new()
        .with_state_changes(changes.clone())
        .with_events(vec![e1.clone()])
        .with_data(vec![vec![2]])
        .with_transaction_id("id".to_string())
        .build()
        .unwrap();
    let r2 = TransactionReceiptBuilder::new()
        .with_transaction_id("id".to_string())
        .with_data(vec![vec![2]])
        .with_events(vec![e1.clone()])
        .with_state_changes(changes.clone())
        .build()
        .unwrap();
    assert_eq!(r1, r2);
    assert_eq!(
        r1,
        TransactionReceipt {
            state_changes: changes,
            events: vec![e1],
            data: vec![vec![2]],
            transaction_id: "id".to_string()
        }
    );
}

#[test]
fn clones_are_equal() {
    let set = StateChange::SetValue {
        key: "k".to_string(),
        value: vec![1, 2],
    };
    assert_eq!(set.clone(), set);
    let delete = StateChange::Delete { key: "k".to_string() };
    assert_eq!(delete.clone(), delete);
    let event = Event {
        event_type: "t".to_string(),
        attributes: vec![("a".to_string(), "b".to_string())],
        data: vec![3],
    };
    assert_eq!(event.clone(), event);
    let receipt = TransactionReceipt {
        state_changes: vec![set, delete],
        events: vec![event],
        data: vec![vec![4], vec![]],
        transaction_id: "id".to_string(),
    };
    assert_eq!(receipt.clone(), receipt);
}

#[test]
fn cloned_builders_build_equal_values_in_either_order() {
    let b = EventBuilder::new().with_event_type("old".to_string()).with_data(vec![9]);
    let attrs = vec![("a".to_string(), "b".to_string())];
    let e1 = b
        .clone()
        .with_event_type("t".to_string())
        .with_attributes(attrs.clone())
        .with_data(vec![1])
        .build()
        .unwrap();
    let e2 = b
        .with_data(vec![1])
        .with_attributes(attrs)
        .with_event_type("t".to_string())
        .build()
        .unwrap();
    assert_eq!(e1, e2);
    assert_eq!(e1.event_type, "t");
    assert_eq!(e1.data, vec![1]);

    let rb = TransactionReceiptBuilder::new()
        .with_transaction_id("old".to_string())
        .with_data(vec![vec![7]]);
    let copy = rb.clone();
    assert_eq!(copy.transaction_id, Some("old".to_string()));
    assert_eq!(copy.data, vec![vec![7]]);
    let changes = vec![StateChange::Delete { key: "k".to_string() }];
    let r1 = copy
        .with_state_changes(changes.clone())
        .with_events(vec![e1.clone()])
        .with_data(vec![vec![2]])
        .with_transaction_id("id".to_string())
        .build()
        .unwrap();
    let r2 = rb
        .with_transaction_id("id".to_string())
        .with_data(vec![vec![2]])
        .with_events(vec![e1])
        .with_state_changes(changes)
        .build()
        .unwrap();
    assert_eq!(r1, r2);
    assert_eq!(r1.transaction_id, "id");
    assert_eq!(r1.data, vec![vec![2]]);
}

#[test]
fn state_change_debug_text_counts_in_decimal() {
    let one = StateChange::SetValue {
        key: "k".to_string(),
        value: vec![7],
    };
    assert_eq!(one.debug_string(), "StateChange{ key: \"k\", value: <1 byte> }");
    let none = StateChange::SetValue {
        key: "a\"b".to_string(),
        value: vec![],
    };
    assert_eq!(
        none.debug_string(),
        "StateChange{ key: \"a\\\"b\", value: <0 bytes> }"
    );
    let many = StateChange::SetValue {
        key: "k".to_string(),
        value: vec![0; 1203],
    };
    assert_eq!(
        many.debug_string(),
        "StateChange{ key: \"k\", value: <1203 bytes> }"
    );
    let delete = StateChange::Delete { key: "k".to_string() };
    assert_eq!(delete.debug_string(), "StateChange::Delete{ key: \"k\" })");
}
