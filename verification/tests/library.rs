use exchange::blob::non_empty_blob;
use exchange::cli::{Cli, Command};
use exchange::config::{APiConfig, ApiDetails, AzureConfig, KafkaConfig, get_api_key, get_api_url};
use exchange::consumer::{
    ConsumerAction, ConsumerState, PollOutcome, consume_step, new_consumer_state,
    total_received_bytes,
};
use exchange::errors::KeyError;
use exchange::forward::{encode_messages, forward_content};
use exchange::consumer::ReceivedMessage;
use exchange::producer::{delivery_receipt, prepare_record};
use exchange::request::KafkaRequest;
use exchange::response::CatNinja;

fn sample_directory() -> Vec<APiConfig> {
    vec![
        APiConfig {
            api_name: String::from("exchangerates_api"),
            api_details: ApiDetails {
                url: String::from("https://api.exchangerate.host/latest"),
                apikey: String::from("SECRET-REDACTED"),
                description: String::from("exchange rates"),
                category: String::from("finance"),
            },
        },
        APiConfig {
            api_name: String::from("test_api"),
            api_details: ApiDetails {
                url: String::from("https://catfact.ninja/fact"),
                apikey: String::from("none"),
                description: String::from("cat facts"),
                category: String::from("testing"),
            },
        },
    ]
}

#[test]
fn test_get_az_client() {
}

#[test]
fn test_get_api_key() {
    let directory = sample_directory();
    let result = get_api_key(&directory, &String::from("exchangerates_api"));
    assert!(result.is_ok());
}

#[test]
fn test_valid_api_key() {
    let directory = sample_directory();
    let result = get_api_key(&directory, &String::from("exchangerates_api"));
    assert!(&result.unwrap().is_ascii());
}

#[test]
fn test_invalid_api_key() {
    let directory = sample_directory();
    let result = get_api_key(&directory, &String::from("random_api"));
    assert!(result.is_err());
}

#[test]
fn test_get_api_url() {
    let directory = sample_directory();
    let result = get_api_url(&directory, &String::from("exchangerates_api"));
    assert!(result.is_ok());
}

#[test]
fn test_valid_api_url() {
    let directory = sample_directory();
    let result = get_api_url(&directory, &String::from("exchangerates_api"));
    assert!(&result.unwrap().is_ascii());
}

#[test]
fn api_lookup_returns_first_matching_entry() {
    let directory = sample_directory();
    let url = get_api_url(&directory, &String::from("test_api")).unwrap();
    assert_eq!(url, "https://catfact.ninja/fact");
    let key = get_api_key(&directory, &String::from("test_api")).unwrap();
    assert_eq!(key, "none");
}

#[test]
fn key_error_messages() {
    assert_eq!(
        KeyError::InvalidKey.message(),
        "Invalid Key, please check for typos"
    );
    assert_eq!(KeyError::MissingKey.message(), "Missing Key, got empty string");
    assert_eq!(
        KeyError::NotFound.message(),
        "Not Found, please check if entry exists"
    );
}

#[test]
fn consumer_idle_polls_stop_after_six() {
    let mut state = new_consumer_state();
    for round in 0..5 {
        let action = consume_step(&mut state, PollOutcome::Idle);
        assert!(matches!(action, ConsumerAction::Wait));
        assert_eq!(state.retry_counter, round + 1);
    }
    let action = consume_step(&mut state, PollOutcome::Idle);
    assert!(matches!(action, ConsumerAction::Stop));
    assert_eq!(state.retry_counter, 6);
    assert_eq!(state.message_counter, 0);
}

#[test]
fn consumer_stores_message_with_byte_count() {
    let mut state = new_consumer_state();
    let action = consume_step(&mut state, PollOutcome::Received(b"hello".to_vec()));
    assert!(matches!(action, ConsumerAction::Commit));
    assert_eq!(state.message_counter, 1);
    assert_eq!(state.retry_counter, 0);
    assert_eq!(state.messages.len(), 1);
    assert_eq!(state.messages[0].index, 1);
    assert_eq!(state.messages[0].payload, b"hello".to_vec());
    assert_eq!(state.message_bytes, vec![5]);
}

#[test]
fn consumer_counts_codepoints_not_bytes() {
    // "héllo" is six bytes but five encoded characters.
    let mut state = new_consumer_state();
    let payload = String::from("h\u{e9}llo").into_bytes();
    assert_eq!(payload.len(), 6);
    consume_step(&mut state, PollOutcome::Received(payload));
    assert_eq!(state.message_bytes, vec![5]);
}

#[test]
fn consumer_counts_failed_polls_without_storing() {
    let mut state = new_consumer_state();
    consume_step(&mut state, PollOutcome::Idle);
    assert_eq!(state.retry_counter, 1);
    let action = consume_step(&mut state, PollOutcome::Failed);
    assert!(matches!(action, ConsumerAction::Ignore));
    assert_eq!(state.message_counter, 1);
    assert_eq!(state.retry_counter, 0);
    assert!(state.messages.is_empty());
    assert!(state.message_bytes.is_empty());
}

#[test]
fn consumer_message_keys_follow_the_counter() {
    let mut state = new_consumer_state();
    consume_step(&mut state, PollOutcome::Received(b"a".to_vec()));
    consume_step(&mut state, PollOutcome::Failed);
    consume_step(&mut state, PollOutcome::Received(b"b".to_vec()));
    assert_eq!(state.message_counter, 3);
    assert_eq!(state.messages.len(), 2);
    assert_eq!(state.messages[0].index, 1);
    assert_eq!(state.messages[1].index, 3);
}

#[test]
fn total_bytes_sums_the_counts() {
    let mut state = new_consumer_state();
    consume_step(&mut state, PollOutcome::Received(b"hello".to_vec()));
    consume_step(&mut state, PollOutcome::Received(b"worlds!".to_vec()));
    assert_eq!(state.message_bytes, vec![5, 7]);
    assert_eq!(total_received_bytes(&state.message_bytes), 12);
    assert_eq!(total_received_bytes(&Vec::new()), 0);
}

#[test]
fn prepare_record_keeps_payload_and_draws_a_key() {
    let record = prepare_record(b"payload".to_vec());
    assert_eq!(record.payload, b"payload".to_vec());
    assert_eq!(record.key.len(), 36);
}

#[test]
fn delivery_receipt_reports_one_sent_message() {
    let record = prepare_record(b"hello".to_vec());
    let receipt = delivery_receipt(&record, true).unwrap();
    assert_eq!(receipt.0, 1);
    assert_eq!(receipt.1, 5);
    assert_eq!(receipt.2, record.key);
}

#[test]
fn delivery_receipt_empty_on_failure() {
    let record = prepare_record(b"hello".to_vec());
    assert!(delivery_receipt(&record, false).is_none());
}

#[test]
fn forward_nothing_without_messages() {
    let state = new_consumer_state();
    let content = forward_content(state.message_counter, state.messages);
    assert!(content.is_none());
}

#[test]
fn forward_encodes_messages_as_json() {
    let mut state = new_consumer_state();
    consume_step(&mut state, PollOutcome::Received(b"alpha".to_vec()));
    consume_step(&mut state, PollOutcome::Received(b"beta".to_vec()));
    let content = forward_content(state.message_counter, state.messages).unwrap();
    assert_eq!(content, b"{\"1\":\"alpha\",\"2\":\"beta\"}".to_vec());
}

#[test]
fn forward_encodes_an_empty_object_when_only_errors_came() {
    let mut state = new_consumer_state();
    consume_step(&mut state, PollOutcome::Failed);
    let content = forward_content(state.message_counter, state.messages).unwrap();
    assert_eq!(content, b"{}".to_vec());
}

#[test]
fn encode_orders_keys_as_strings() {
    // Key order is lexicographic on the decimal strings: "10" before "2".
    let messages = vec![
        ReceivedMessage { index: 2, payload: b"x".to_vec() },
        ReceivedMessage { index: 10, payload: b"y".to_vec() },
        ReceivedMessage { index: 100, payload: b"z".to_vec() },
    ];
    let encoded = encode_messages(messages);
    assert_eq!(encoded, b"{\"10\":\"y\",\"100\":\"z\",\"2\":\"x\"}".to_vec());
}

#[test]
fn encode_escapes_string_values() {
    let messages = vec![ReceivedMessage {
        index: 1,
        payload: b"a\"b\\c\nd\te\x01f".to_vec(),
    }];
    let encoded = encode_messages(messages);
    assert_eq!(
        encoded,
        b"{\"1\":\"a\\\"b\\\\c\\nd\\te\\u0001f\"}".to_vec()
    );
}

#[test]
fn encode_keeps_multibyte_payloads_unescaped() {
    let messages = vec![ReceivedMessage {
        index: 1,
        payload: String::from("caf\u{e9}").into_bytes(),
    }];
    let encoded = encode_messages(messages);
    assert_eq!(String::from_utf8(encoded).unwrap(), "{\"1\":\"caf\u{e9}\"}");
}

#[test]
fn empty_blob_is_rejected() {
    assert!(non_empty_blob(Vec::new()).is_none());
}

#[test]
fn non_empty_blob_is_returned_unchanged() {
    let content = non_empty_blob(b"{ \"test\": \"test\" }".to_vec()).unwrap();
    assert_eq!(content, b"{ \"test\": \"test\" }".to_vec());
}

#[test]
fn data_types_carry_their_fields() {
    let cli = Cli {
        subcommand: Command::Consume { topic: String::from("test_topic"), ttl: 30 },
    };
    match cli.subcommand {
        Command::Consume { topic, ttl } => {
            assert_eq!(topic, "test_topic");
            assert_eq!(ttl, 30);
        }
        _ => panic!("wrong subcommand"),
    }
    let kafka = KafkaConfig {
        bootstrap_servers: String::from("localhost:9092"),
        group_id: String::from("exchange"),
        message_timeout_ms: 5000,
        connection_max_idle_ms: 1000,
    };
    assert_eq!(kafka.bootstrap_servers, "localhost:9092");
    let azure = AzureConfig {
        storage_account_name: String::from("account"),
        storage_account_key: String::from("SECRET-REDACTED"),
        storage_container: String::from("test"),
        storage_blob_name: String::from("test.json"),
    };
    assert_eq!(azure.storage_container, "test");
    let request = KafkaRequest {
        kafka_brokers: String::from("localhost:9092"),
        kafka_topic: String::from("test_topic"),
    };
    assert_eq!(request.kafka_topic, "test_topic");
    let fact = CatNinja { fact: String::from("cats sleep a lot"), length: 16 };
    assert_eq!(fact.length, 16);
}
