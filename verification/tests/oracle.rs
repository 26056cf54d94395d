use pallet_ares::operator::{CallbackWithParameter, OperatorError, OperatorEvent, OperatorModule};
use pallet_ares::origin::Origin;
use pallet_ares::runtime::Runtime;
use pallet_ares::template::{TemplateCall, TemplateError, TemplateModule};

fn expected_parameters() -> Vec<u8> {
    let mut v = Vec::new();
    for s in [
        "get",
        "https://min-api.cryptocompare.com/data/pricemultifull?fsyms=ETH&tsyms=USD",
        "path",
        "RAW.ETH.USD.PRICE",
        "times",
        "100000000",
    ] {
        let n = s.len();
        if n < 64 {
            v.push((n * 4) as u8);
        } else {
            let c = n * 4 + 1;
            v.push((c % 256) as u8);
            v.push((c / 256) as u8);
        }
        v.extend_from_slice(s.as_bytes());
    }
    v
}

#[test]
fn send_request_files_the_price_lookup() {
    let mut ares: OperatorModule<TemplateCall> = OperatorModule::new(5);
    assert_eq!(TemplateModule::send_request(&mut ares, Origin::Signed(2), 1, b"eth".to_vec()), Ok(()));
    assert_eq!(ares.request_identifier(), 1);
    assert_eq!(ares.request(0), (1, vec![TemplateCall::Callback(vec![])], 0, 100));
    assert_eq!(ares.request(1), (0, vec![], 0, 0));
    assert!(!ares.operator(1));
    let params = expected_parameters();
    // The address has 73 bytes, so its length takes two bytes.
    assert_eq!(&params[4..6], &[0x25, 0x01]);
    assert_eq!(
        ares.events()[0],
        OperatorEvent::OracleRequest(1, b"eth".to_vec(), 0, 2, 0, params, b"Ares.callback".to_vec(), 100)
    );
    assert_eq!(
        TemplateModule::send_request(&mut ares, Origin::Root, 1, vec![]),
        Err(TemplateError::BadOrigin)
    );
}

#[test]
fn template_callback_decodes_an_i128() {
    let mut t = TemplateModule::new();
    assert_eq!(t.get_result(), 0);
    assert_eq!(t.callback(Origin::Signed(1), 5i128.to_le_bytes().to_vec()), Err(TemplateError::BadOrigin));
    assert_eq!(t.callback(Origin::Root, vec![1, 2, 3]), Err(TemplateError::CannotDecode));
    assert_eq!(t.get_result(), 0);
    assert_eq!(t.callback(Origin::Root, (-123456789i128).to_le_bytes().to_vec()), Ok(()));
    assert_eq!(t.get_result(), -123456789);
    let mut long = 77i128.to_le_bytes().to_vec();
    long.extend_from_slice(&[9, 9, 9]);
    assert_eq!(t.callback(Origin::Root, long), Ok(()));
    assert_eq!(t.get_result(), 77);
}

#[test]
fn with_result_fills_only_callbacks() {
    assert_eq!(TemplateCall::Callback(vec![1]).with_result(vec![2, 3]), Some(TemplateCall::Callback(vec![2, 3])));
    assert_eq!(TemplateCall::SendRequest(1, vec![]).with_result(vec![2]), None);
}

#[test]
fn answer_reaches_the_template_module() {
    let mut rt = Runtime::new(5);
    assert_eq!(rt.dispatch(TemplateCall::SendRequest(1, b"eth".to_vec()), Origin::Signed(2)), Ok(()));
    let answer = 4200i128.to_le_bytes().to_vec();
    assert_eq!(rt.oracle_callback(Origin::Signed(3), 0, answer.clone()), Err(OperatorError::WrongOperator));
    assert_eq!(rt.get_result(), 0);
    assert_eq!(rt.oracle_callback(Origin::Signed(1), 9, answer.clone()), Err(OperatorError::UnknownRequest));
    assert_eq!(rt.oracle_callback(Origin::Signed(1), 0, answer.clone()), Ok(()));
    assert_eq!(rt.get_result(), 4200);
    assert_eq!(
        rt.oracle().events().last(),
        Some(&OperatorEvent::OracleAnswer(1, 0, 1, answer, 100))
    );
    // The request stays pending: a later answer replaces the earlier one.
    assert_eq!(rt.oracle_callback(Origin::Signed(1), 0, (-1i128).to_le_bytes().to_vec()), Ok(()));
    assert_eq!(rt.get_result(), -1);
    // An answer that is no i128 is accepted by the oracle but not stored.
    assert_eq!(rt.oracle_callback(Origin::Signed(1), 0, vec![1]), Ok(()));
    assert_eq!(rt.get_result(), -1);
}

#[test]
fn request_carrying_no_callback_cannot_be_answered() {
    let mut ares: OperatorModule<TemplateCall> = OperatorModule::new(5);
    assert_eq!(
        ares.initiate_request(Origin::Signed(2), 1, vec![], 0, vec![], 10, TemplateCall::SendRequest(1, vec![])),
        Ok(())
    );
    assert_eq!(ares.callback(Origin::Signed(1), 0, vec![0; 16]), Err(OperatorError::UnknownCallback));
    assert_eq!(ares.callback(Origin::Unsigned, 0, vec![]), Err(OperatorError::BadOrigin));
}

#[test]
fn oracle_requests_expire() {
    let mut rt = Runtime::new(2);
    rt.set_block_number(3);
    assert_eq!(rt.dispatch(TemplateCall::SendRequest(1, vec![]), Origin::Signed(2)), Ok(()));
    rt.on_finalize(5);
    assert!(rt.oracle().contains_request(0));
    rt.on_finalize(6);
    assert!(!rt.oracle().contains_request(0));
    assert_eq!(rt.oracle().events().last(), Some(&OperatorEvent::KillRequest(0)));
    assert_eq!(rt.oracle_callback(Origin::Signed(1), 0, vec![0; 16]), Err(OperatorError::UnknownRequest));
}
