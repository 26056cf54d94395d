use pallet_ares::ares::{AresError, AresModule, Event};
use pallet_ares::origin::Origin;

const VALIDITY_PERIOD: u64 = 10;

fn new_module() -> AresModule {
    AresModule::new(VALIDITY_PERIOD)
}

#[test]
fn request_no_register() {
    let mut ares = new_module();
    assert!(ares.initiate_request(Origin::Signed(2), 1, vec![], 1, vec![]).is_err());
}

#[test]
fn operators_can_be_registered() {
    let mut ares = new_module();
    assert!(ares.register_aggregator(Origin::Signed(1), vec![]).is_ok());
    assert!(ares.unregister_aggregator(Origin::Signed(1)).is_ok());

    let mut ares = new_module();
    assert!(ares.unregister_aggregator(Origin::Signed(1)).is_err());
}

#[test]
fn unknown_operator() {
    let mut ares = new_module();
    assert!(ares.register_aggregator(Origin::Signed(1), vec![]).is_ok());
    assert!(ares.is_aggregator(1));
    assert!(ares.initiate_request(Origin::Signed(1), 2, vec![], 1, vec![]).is_err());
}

#[test]
fn operator_no_register() {
    let mut ares = new_module();
    assert!(ares.feed_result(Origin::Signed(1), 0, 10).is_err());
}

#[test]
fn callback_not_match_operator() {
    let mut ares = new_module();
    assert!(ares.register_aggregator(Origin::Signed(1), vec![]).is_ok());
    assert!(ares.initiate_request(Origin::Signed(2), 1, vec![], 1, vec![]).is_ok());
    assert!(ares.feed_result(Origin::Signed(3), 0, 10).is_err());
}

#[test]
pub fn on_finalize() {
    let mut ares = new_module();
    assert!(ares.register_aggregator(Origin::Signed(1), vec![]).is_ok());
    assert!(ares.initiate_request(Origin::Signed(1), 1, vec![], 1, vec![]).is_ok());
    assert!(ares.feed_result(Origin::Signed(1), 0, 10).is_ok());
}

#[test]
fn errors_name_their_cause() {
    let mut ares = new_module();
    assert_eq!(ares.register_aggregator(Origin::Root, vec![]), Err(AresError::BadOrigin));
    assert_eq!(ares.register_aggregator(Origin::Unsigned, vec![]), Err(AresError::BadOrigin));
    assert_eq!(ares.unregister_aggregator(Origin::Signed(4)), Err(AresError::UnknownAggregator));
    assert_eq!(ares.register_aggregator(Origin::Signed(4), vec![1]), Ok(()));
    assert_eq!(ares.register_aggregator(Origin::Signed(4), vec![2]), Err(AresError::AggregatorAlreadyRegistered));
    assert_eq!(ares.initiate_request(Origin::Signed(5), 6, vec![], 0, vec![]), Err(AresError::UnknownAggregator));
    assert_eq!(ares.initiate_request(Origin::Root, 4, vec![], 0, vec![]), Err(AresError::BadOrigin));
    assert_eq!(ares.feed_result(Origin::Signed(4), 0, 1), Err(AresError::UnknownRequest));
    assert_eq!(ares.initiate_request(Origin::Signed(5), 4, vec![9], 0, vec![]), Ok(()));
    assert_eq!(ares.feed_result(Origin::Signed(5), 0, 1), Err(AresError::WrongAggregator));
    assert_eq!(ares.feed_result(Origin::Unsigned, 0, 1), Err(AresError::BadOrigin));
    assert_eq!(ares.feed_result(Origin::Signed(4), 0, 1), Ok(()));
    assert_eq!(ares.feed_result(Origin::Signed(4), 0, 1), Err(AresError::UnknownRequest));
}

#[test]
fn registration_records_block_and_source() {
    let mut ares = new_module();
    ares.set_block_number(7);
    assert!(ares.register_aggregator(Origin::Signed(3), b"binance".to_vec()).is_ok());
    assert_eq!(ares.aggregator(3), (3, 7, b"binance".to_vec()));
    assert_eq!(ares.aggregator(4), (0, 0, vec![]));
    assert_eq!(ares.events(), &vec![Event::AggregatorRegistered(3)]);
    assert!(ares.unregister_aggregator(Origin::Signed(3)).is_ok());
    assert!(!ares.is_aggregator(3));
    assert_eq!(ares.events().last(), Some(&Event::AggregatorUnregistered(3)));
    // Registering again after unregistering works.
    assert!(ares.register_aggregator(Origin::Signed(3), vec![]).is_ok());
}

#[test]
fn request_ids_count_up_and_requests_are_reported() {
    let mut ares = new_module();
    ares.set_block_number(2);
    assert!(ares.register_aggregator(Origin::Signed(1), vec![]).is_ok());
    assert_eq!(ares.request_id(), 0);
    assert!(ares.initiate_request(Origin::Signed(8), 1, b"btcusdt".to_vec(), 3, vec![7, 7]).is_ok());
    assert!(ares.initiate_request(Origin::Signed(9), 1, b"ethusdt".to_vec(), 3, vec![]).is_ok());
    assert_eq!(ares.request_id(), 2);
    assert_eq!(ares.request(1), (1, 2, b"ethusdt".to_vec()));
    assert_eq!(ares.request(2), (0, 0, vec![]));
    assert_eq!(
        ares.events()[1],
        Event::OracleRequest(1, b"btcusdt".to_vec(), 0, 8, 3, vec![7, 7], b"Ares.callback".to_vec())
    );
}

#[test]
fn answers_are_stored_under_the_spec_index() {
    let mut ares = new_module();
    assert!(ares.register_aggregator(Origin::Signed(1), vec![]).is_ok());
    assert!(ares.initiate_request(Origin::Signed(2), 1, b"btcusdt".to_vec(), 0, vec![]).is_ok());
    assert!(ares.initiate_request(Origin::Signed(2), 1, b"btcusdt".to_vec(), 0, vec![]).is_ok());
    assert_eq!(ares.oracle_results(b"btcusdt"), 0);
    assert!(ares.feed_result(Origin::Signed(1), 0, 2338308).is_ok());
    assert_eq!(ares.oracle_results(b"btcusdt"), 2338308);
    assert!(!ares.contains_request(0));
    assert!(ares.contains_request(1));
    assert!(ares.feed_result(Origin::Signed(1), 1, 2338400).is_ok());
    assert_eq!(ares.oracle_results(b"btcusdt"), 2338400);
    assert_eq!(ares.events().last(), Some(&Event::OracleResult(1, 1, 1, 2338400)));
}

#[test]
fn finalize_drops_requests_past_their_validity() {
    let mut ares = new_module();
    assert!(ares.register_aggregator(Origin::Signed(1), vec![]).is_ok());
    ares.set_block_number(1);
    assert!(ares.initiate_request(Origin::Signed(2), 1, vec![1], 0, vec![]).is_ok());
    ares.set_block_number(5);
    assert!(ares.initiate_request(Origin::Signed(2), 1, vec![2], 0, vec![]).is_ok());
    assert!(ares.initiate_request(Origin::Signed(2), 1, vec![3], 0, vec![]).is_ok());
    // Block 11 is the last one in which the request of block 1 is valid.
    ares.on_finalize(11);
    assert!(ares.contains_request(0));
    let before = ares.events().len();
    ares.on_finalize(12);
    assert!(!ares.contains_request(0));
    assert!(ares.contains_request(1));
    assert_eq!(ares.events().len(), before + 1);
    assert_eq!(ares.events().last(), Some(&Event::RemoveRequest(0)));
    ares.on_finalize(16);
    assert!(!ares.contains_request(1));
    assert!(!ares.contains_request(2));
    assert_eq!(ares.events()[before + 1], Event::RemoveRequest(1));
    assert_eq!(ares.events()[before + 2], Event::RemoveRequest(2));
    // An expired request can no longer be answered.
    assert_eq!(ares.feed_result(Origin::Signed(1), 1, 5), Err(AresError::UnknownRequest));
    // Finalizing again drops and reports nothing.
    let n = ares.events().len();
    ares.on_finalize(16);
    assert_eq!(ares.events().len(), n);
}
