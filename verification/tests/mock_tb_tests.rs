use exchange_core::mock_tb::{MockTbClient, MockTbError, TransferStatus};

#[test]
fn test_mock_tb_basic_flow() {
    let mut client = MockTbClient::new();

    let funding_account = 2;
    let spot_account = ((3001_u128) << 64) | 2;

    client.set_balance(funding_account, 1000_000_000);

    let transfer_id = 12345_u128;
    client
        .create_pending_transfer(transfer_id, funding_account, spot_account, 100_000_000)
        .unwrap();

    assert_eq!(client.get_available_balance(funding_account).unwrap(), 900_000_000);
    assert_eq!(client.get_available_balance(spot_account).unwrap(), 0);

    client.post_pending_transfer(transfer_id).unwrap();

    assert_eq!(client.get_available_balance(funding_account).unwrap(), 900_000_000);
    assert_eq!(client.get_available_balance(spot_account).unwrap(), 100_000_000);

    assert_eq!(client.lookup_transfer(transfer_id), Some(TransferStatus::Posted));
}

#[test]
fn test_mock_tb_void() {
    let mut client = MockTbClient::new();

    let funding_account = 2;
    let spot_account = ((3001_u128) << 64) | 2;

    client.set_balance(funding_account, 1000_000_000);

    let transfer_id = 12345_u128;
    client
        .create_pending_transfer(transfer_id, funding_account, spot_account, 100_000_000)
        .unwrap();

    client.void_pending_transfer(transfer_id).unwrap();

    assert_eq!(client.get_available_balance(funding_account).unwrap(), 1000_000_000);
    assert_eq!(client.get_available_balance(spot_account).unwrap(), 0);

    assert_eq!(client.lookup_transfer(transfer_id), Some(TransferStatus::Voided));
}

#[test]
fn test_insufficient_balance() {
    let mut client = MockTbClient::new();

    let funding_account = 2;
    let spot_account = ((3001_u128) << 64) | 2;

    client.set_balance(funding_account, 50_000_000);

    let transfer_id = 12345_u128;
    let result =
        client.create_pending_transfer(transfer_id, funding_account, spot_account, 100_000_000);

    assert!(result.is_err());
}

#[test]
fn mock_refuses_unknown_voided_and_posted_transfers() {
    let mut client = MockTbClient::new();
    client.set_balance(1, 500);
    assert_eq!(client.post_pending_transfer(9), Err(MockTbError::TransferNotFound));
    assert_eq!(client.void_pending_transfer(9), Err(MockTbError::TransferNotFound));
    assert_eq!(client.lookup_transfer(9), None);

    client.create_pending_transfer(7, 1, 2, 200).unwrap();
    assert_eq!(client.lookup_transfer(7), Some(TransferStatus::Pending));
    client.void_pending_transfer(7).unwrap();
    // voiding twice changes nothing more
    client.void_pending_transfer(7).unwrap();
    assert_eq!(client.get_available_balance(1).unwrap(), 500);
    assert_eq!(client.post_pending_transfer(7), Err(MockTbError::AlreadyVoided));

    client.create_pending_transfer(8, 1, 2, 100).unwrap();
    client.post_pending_transfer(8).unwrap();
    assert_eq!(client.post_pending_transfer(8), Err(MockTbError::AlreadyPosted));
    assert_eq!(client.void_pending_transfer(8), Err(MockTbError::AlreadyPosted));
    assert_eq!(client.get_available_balance(1).unwrap(), 400);
    assert_eq!(client.get_available_balance(2).unwrap(), 100);
    assert_eq!(MockTbError::InsufficientBalance.message(), "Insufficient balance");
    assert_eq!(MockTbError::AlreadyPosted.message(), "Transfer already posted");
}

#[test]
fn funds_held_stay_the_same_through_create_post_and_void() {
    let mut client = MockTbClient::new();
    client.set_balance(1, 1_000);
    client.set_balance(2, 500);
    let held = |c: &MockTbClient, pending: i64| -> i64 {
        c.get_available_balance(1).unwrap() + c.get_available_balance(2).unwrap() + c.get_available_balance(3).unwrap() + pending
    };
    assert_eq!(held(&client, 0), 1_500);

    client.create_pending_transfer(10, 1, 3, 300).unwrap();
    client.create_pending_transfer(11, 2, 1, 200).unwrap();
    assert_eq!(held(&client, 500), 1_500);

    client.post_pending_transfer(10).unwrap();
    assert_eq!(held(&client, 200), 1_500);
    assert_eq!(client.get_available_balance(3).unwrap(), 300);

    client.void_pending_transfer(11).unwrap();
    assert_eq!(held(&client, 0), 1_500);
    assert_eq!(client.get_available_balance(2).unwrap(), 500);

    // Posting a voided transfer or voiding a posted one changes nothing.
    assert_eq!(client.post_pending_transfer(11), Err(MockTbError::AlreadyVoided));
    assert_eq!(client.void_pending_transfer(10), Err(MockTbError::AlreadyPosted));
    assert_eq!(held(&client, 0), 1_500);
    assert_eq!(client.lookup_transfer(10), Some(TransferStatus::Posted));
    assert_eq!(client.lookup_transfer(11), Some(TransferStatus::Voided));
}
