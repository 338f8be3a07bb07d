use transact::protocol::receipt::{
    Event, EventBuilder, StateChange, TransactionReceipt, TransactionReceiptBuilder,
};
use transact::state;

const ADDRESS: &str = "5b7349700e158b598043efd6d7610345a75a00b22ac14c9278db53f586179a92b72fbd";
const BYTES1: [u8; 4] = [0x01, 0x02, 0x03, 0x04];
const BYTES2: [u8; 4] = [0x05, 0x06, 0x07, 0x08];
const BYTES3: [u8; 4] = [0x09, 0x0a, 0x0b, 0x0c];
const EVENT_TYPE1: &str = "sawtooth/block-commit";
const EVENT_TYPE2: &str = "sawtooth/state-delta";
const ATTR1: (&str, &str) = (
    "block_id",
    "f40b90d06b4a9074af2ab09e0187223da7466be75ec0f472 \
     f2edd5f22960d76e402e6c07c90b7816374891d698310dd25d9b88dce7dbcba8219d9f7c9cae1861",
);
const ATTR2: (&str, &str) = ("block_num", "3");
const ATTR3: (&str, &str) = (
    "address",
    "5b7349700e158b598043efd6d7610345a75a00b22ac14c9278db53f586179a92b72fbd",
);
const TRANSACTION_ID: &str = "24b168aaf5ea4a76a6c316924a1c26df0878908682ea5740dd70814e \
     7c400d56354dee788191be8e28393c70398906fb467fac8db6279e90e4e61619589d42bf";

fn make_event_1() -> Event {
    Event {
        event_type: EVENT_TYPE1.to_string(),
        attributes: vec![
            (ATTR1.0.to_string(), ATTR1.1.to_string()),
            (ATTR2.0.to_string(), ATTR2.1.to_string()),
        ],
        data: BYTES2.to_vec(),
    }
}

fn make_event_2() -> Event {
    Event {
        event_type: EVENT_TYPE2.to_string(),
        attributes: vec![(ATTR3.0.to_string(), ATTR3.1.to_string())],
        data: BYTES3.to_vec(),
    }
}

fn check_state_change(state_change: StateChange) {
    match state_change {
        StateChange::SetValue { key, value } => {
            assert_eq!(ADDRESS, key);
            assert_eq!(BYTES1.to_vec(), value);
        }
        StateChange::Delete { key } => {
            assert_eq!(ADDRESS, key);
        }
    }
}

fn check_state_state_change(state_change: state::StateChange) {
    match state_change {
        state::StateChange::SetValue { key, value } => {
            assert_eq!(ADDRESS, key);
            assert_eq!(BYTES1.to_vec(), value);
        }
        state::StateChange::Delete { key } => {
            assert_eq!(ADDRESS, key);
        }
    }
}

fn check_event(event: Event) {
    assert_eq!(EVENT_TYPE1, event.event_type);
    assert_eq!(
        (ATTR1.0.to_string(), ATTR1.1.to_string()),
        event.attributes[0]
    );
    assert_eq!(
        (ATTR2.0.to_string(), ATTR2.1.to_string()),
        event.attributes[1]
    );
    assert_eq!(BYTES2.to_vec(), event.data);
}

fn check_transaction_receipt(transaction_receipt: TransactionReceipt) {
    for state_change in transaction_receipt.state_changes {
        check_state_change(state_change)
    }
    assert_eq!(
        vec!(make_event_1(), make_event_2()),
        transaction_receipt.events
    );
    assert_eq!(
        vec!(BYTES1.to_vec(), BYTES2.to_vec(), BYTES3.to_vec()),
        transaction_receipt.data
    );
}

fn make_receipt() -> TransactionReceipt {
    TransactionReceipt {
        state_changes: vec![
            StateChange::SetValue {
                key: ADDRESS.to_string(),
                value: BYTES1.to_vec(),
            },
            StateChange::Delete {
                key: ADDRESS.to_string(),
            },
        ],
        events: vec![make_event_1(), make_event_2()],
        data: vec![BYTES1.to_vec(), BYTES2.to_vec(), BYTES3.to_vec()],
        transaction_id: TRANSACTION_ID.to_string(),
    }
}

#[test]
fn state_change_fields() {
    let state_change_set = StateChange::SetValue {
        key: ADDRESS.to_string(),
        value: BYTES1.to_vec(),
    };
    check_state_change(state_change_set);
    let state_change_delete = StateChange::Delete {
        key: ADDRESS.to_string(),
    };
    check_state_change(state_change_delete);
}

#[test]
fn state_state_change_conversion() {
    let receipt_state_change_set = StateChange::SetValue {
        key: ADDRESS.to_string(),
        value: BYTES1.to_vec(),
    };
    let change: state::StateChange = receipt_state_change_set.into();
    check_state_state_change(change);

    let receipt_state_change_delete = StateChange::Delete {
        key: ADDRESS.to_string(),
    };
    let change: state::StateChange = receipt_state_change_delete.into();
    check_state_state_change(change);
}

#[test]
fn event_fields() {
    check_event(make_event_1());
}

#[test]
fn transaction_receipt_fields() {
    let transaction_receipt = make_receipt();
    check_transaction_receipt(transaction_receipt)
}

// test that the transaction receipts can be converted into bytes and back correctly
#[test]
fn transaction_receipt_bytes() {
    let sent = make_receipt();

    let receipt_bytes = sent.clone().into_bytes().unwrap();
    let receipt = TransactionReceipt::from_bytes(&receipt_bytes).unwrap();

    check_transaction_receipt(receipt.clone());
    assert_eq!(sent.transaction_id, receipt.transaction_id);
}

// The bytes of a Sawtooth 1.0 transaction receipt message with one set and
// one delete state change, one event of type EVENT_TYPE2 with ATTR3 and
// BYTES3, data BYTES2 and TRANSACTION_ID.
const SAWTOOTH10_RECEIPT_BYTES: [u8; 409] = [
        0x0a, 0x50, 0x0a, 0x46, 0x35, 0x62, 0x37, 0x33, 0x34, 0x39, 0x37, 0x30, 0x30, 0x65,
        0x31, 0x35, 0x38, 0x62, 0x35, 0x39, 0x38, 0x30, 0x34, 0x33, 0x65, 0x66, 0x64, 0x36,
        0x64, 0x37, 0x36, 0x31, 0x30, 0x33, 0x34, 0x35, 0x61, 0x37, 0x35, 0x61, 0x30, 0x30,
        0x62, 0x32, 0x32, 0x61, 0x63, 0x31, 0x34, 0x63, 0x39, 0x32, 0x37, 0x38, 0x64, 0x62,
        0x35, 0x33, 0x66, 0x35, 0x38, 0x36, 0x31, 0x37, 0x39, 0x61, 0x39, 0x32, 0x62, 0x37,
        0x32, 0x66, 0x62, 0x64, 0x12, 0x04, 0x01, 0x02, 0x03, 0x04, 0x18, 0x01, 0x0a, 0x4a,
        0x0a, 0x46, 0x35, 0x62, 0x37, 0x33, 0x34, 0x39, 0x37, 0x30, 0x30, 0x65, 0x31, 0x35,
        0x38, 0x62, 0x35, 0x39, 0x38, 0x30, 0x34, 0x33, 0x65, 0x66, 0x64, 0x36, 0x64, 0x37,
        0x36, 0x31, 0x30, 0x33, 0x34, 0x35, 0x61, 0x37, 0x35, 0x61, 0x30, 0x30, 0x62, 0x32,
        0x32, 0x61, 0x63, 0x31, 0x34, 0x63, 0x39, 0x32, 0x37, 0x38, 0x64, 0x62, 0x35, 0x33,
        0x66, 0x35, 0x38, 0x36, 0x31, 0x37, 0x39, 0x61, 0x39, 0x32, 0x62, 0x37, 0x32, 0x66,
        0x62, 0x64, 0x18, 0x02, 0x12, 0x6f, 0x0a, 0x14, 0x73, 0x61, 0x77, 0x74, 0x6f, 0x6f,
        0x74, 0x68, 0x2f, 0x73, 0x74, 0x61, 0x74, 0x65, 0x2d, 0x64, 0x65, 0x6c, 0x74, 0x61,
        0x12, 0x51, 0x0a, 0x07, 0x61, 0x64, 0x64, 0x72, 0x65, 0x73, 0x73, 0x12, 0x46, 0x35,
        0x62, 0x37, 0x33, 0x34, 0x39, 0x37, 0x30, 0x30, 0x65, 0x31, 0x35, 0x38, 0x62, 0x35,
        0x39, 0x38, 0x30, 0x34, 0x33, 0x65, 0x66, 0x64, 0x36, 0x64, 0x37, 0x36, 0x31, 0x30,
        0x33, 0x34, 0x35, 0x61, 0x37, 0x35, 0x61, 0x30, 0x30, 0x62, 0x32, 0x32, 0x61, 0x63,
        0x31, 0x34, 0x63, 0x39, 0x32, 0x37, 0x38, 0x64, 0x62, 0x35, 0x33, 0x66, 0x35, 0x38,
        0x36, 0x31, 0x37, 0x39, 0x61, 0x39, 0x32, 0x62, 0x37, 0x32, 0x66, 0x62, 0x64, 0x1a,
        0x04, 0x09, 0x0a, 0x0b, 0x0c, 0x1a, 0x04, 0x05, 0x06, 0x07, 0x08, 0x22, 0x81, 0x01,
        0x32, 0x34, 0x62, 0x31, 0x36, 0x38, 0x61, 0x61, 0x66, 0x35, 0x65, 0x61, 0x34, 0x61,
        0x37, 0x36, 0x61, 0x36, 0x63, 0x33, 0x31, 0x36, 0x39, 0x32, 0x34, 0x61, 0x31, 0x63,
        0x32, 0x36, 0x64, 0x66, 0x30, 0x38, 0x37, 0x38, 0x39, 0x30, 0x38, 0x36, 0x38, 0x32,
        0x65, 0x61, 0x35, 0x37, 0x34, 0x30, 0x64, 0x64, 0x37, 0x30, 0x38, 0x31, 0x34, 0x65,
        0x20, 0x37, 0x63, 0x34, 0x30, 0x30, 0x64, 0x35, 0x36, 0x33, 0x35, 0x34, 0x64, 0x65,
        0x65, 0x37, 0x38, 0x38, 0x31, 0x39, 0x31, 0x62, 0x65, 0x38, 0x65, 0x32, 0x38, 0x33,
        0x39, 0x33, 0x63, 0x37, 0x30, 0x33, 0x39, 0x38, 0x39, 0x30, 0x36, 0x66, 0x62, 0x34,
        0x36, 0x37, 0x66, 0x61, 0x63, 0x38, 0x64, 0x62, 0x36, 0x32, 0x37, 0x39, 0x65, 0x39,
        0x30, 0x65, 0x34, 0x65, 0x36, 0x31, 0x36, 0x31, 0x39, 0x35, 0x38, 0x39, 0x64, 0x34,
        0x32, 0x62, 0x66
];

#[test]
fn transaction_receipt_sawtooth10_compatibility() {
    let transaction_receipt = TransactionReceipt::from_bytes(&SAWTOOTH10_RECEIPT_BYTES).unwrap();
    assert_eq!(TRANSACTION_ID, transaction_receipt.transaction_id);
    for state_change in transaction_receipt.state_changes {
        check_state_change(state_change)
    }
    assert_eq!(vec!(make_event_2()), transaction_receipt.events);
    assert_eq!(vec!(BYTES2.to_vec(),), transaction_receipt.data);
}

#[test]
fn transaction_receipt_builder_chain() {
    let transaction_receipt = TransactionReceiptBuilder::new()
        .with_state_changes(vec![
            StateChange::SetValue {
                key: ADDRESS.to_string(),
                value: BYTES1.to_vec(),
            },
            StateChange::Delete {
                key: ADDRESS.to_string(),
            },
        ])
        .with_events(vec![make_event_1(), make_event_2()])
        .with_data(vec![BYTES1.to_vec(), BYTES2.to_vec(), BYTES3.to_vec()])
        .with_transaction_id(TRANSACTION_ID.to_string())
        .build()
        .unwrap();

    check_transaction_receipt(transaction_receipt)
}

#[test]
fn transaction_receipt_builder_separate() {
    let mut transaction_receipt_builder = TransactionReceiptBuilder::new();
    transaction_receipt_builder = transaction_receipt_builder.with_state_changes(vec![
        StateChange::SetValue {
            key: ADDRESS.to_string(),
            value: BYTES1.to_vec(),
        },
        StateChange::Delete {
            key: ADDRESS.to_string(),
        },
    ]);
    transaction_receipt_builder =
        transaction_receipt_builder.with_events(vec![make_event_1(), make_event_2()]);
    transaction_receipt_builder = transaction_receipt_builder.with_data(vec![
        BYTES1.to_vec(),
        BYTES2.to_vec(),
        BYTES3.to_vec(),
    ]);
    transaction_receipt_builder =
        transaction_receipt_builder.with_transaction_id(TRANSACTION_ID.to_string());
    let transaction_receipt = transaction_receipt_builder.build().unwrap();

    check_transaction_receipt(transaction_receipt)
}

#[test]
fn event_builder_chain() {
    let event = EventBuilder::new()
        .with_event_type(EVENT_TYPE1.to_string())
        .with_attributes(vec![
            (ATTR1.0.to_string(), ATTR1.1.to_string()),
            (ATTR2.0.to_string(), ATTR2.1.to_string()),
        ])
        .with_data(BYTES2.to_vec())
        .build()
        .unwrap();

    check_event(event);
}

// test that the events can be converted into bytes and back correctly
#[test]
fn event_builder_chain_bytes() {
    let sent = EventBuilder::new()
        .with_event_type(EVENT_TYPE1.to_string())
        .with_attributes(vec![
            (ATTR1.0.to_string(), ATTR1.1.to_string()),
            (ATTR2.0.to_string(), ATTR2.1.to_string()),
        ])
        .with_data(BYTES2.to_vec())
        .build()
        .unwrap();

    let event_bytes = sent.clone().into_bytes().unwrap();
    let event = Event::from_bytes(&event_bytes).unwrap();
    check_event(event);
}

#[test]
fn event_builder_separate() {
    let mut event_builder = EventBuilder::new();
    event_builder = event_builder.with_event_type(EVENT_TYPE1.to_string());
    event_builder = event_builder.with_attributes(vec![
        (ATTR1.0.to_string(), ATTR1.1.to_string()),
        (ATTR2.0.to_string(), ATTR2.1.to_string()),
    ]);
    event_builder = event_builder.with_data(BYTES2.to_vec());
    let event = event_builder.build().unwrap();

    check_event(event);
}
