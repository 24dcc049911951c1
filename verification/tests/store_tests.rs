use treasury_service::database_driver::{DatabaseDriver, DatabaseDriverError};
use treasury_service::{Date, DateError, Transaction, TreasuryService, TreasuryServiceError};

fn create_in_memory_database() -> DatabaseDriver {
    DatabaseDriver::new()
}

fn create_dummy_transaction(id: u32) -> Transaction {
    Transaction::new(id, 105, Date::new(1, 1, 2023))
}

#[test]
fn fmt() {
    let t = Transaction::new(0, 105, Date::new(6, 7, 2004));

    assert_eq!(t.display_string(), "#0 06-07-2004: £1.05")
}

#[test]
fn display_splits_minor_units() {
    assert_eq!(
        Transaction::new(7, 100, Date::new(1, 1, 2023)).display_string(),
        "#7 01-01-2023: £1.00"
    );
    assert_eq!(
        Transaction::new(12, 5, Date::new(1, 1, 2023)).display_string(),
        "#12 01-01-2023: £0.05"
    );
    assert_eq!(
        Transaction::new(3, 12345, Date::new(31, 12, 1999)).display_string(),
        "#3 31-12-1999: £123.45"
    );
}

#[test]
fn add_transaction() {
    let mut database = create_in_memory_database();

    let transaction = create_dummy_transaction(0);
    database.add_transaction(transaction).unwrap();
}

#[test]
fn get_transactions() {
    let mut database = create_in_memory_database();

    let transactions_1 = database.get_transactions().unwrap();
    assert_eq!(transactions_1, vec![]);
}

#[test]
fn set_transaction() {
    let mut database = create_in_memory_database();

    let transaction = create_dummy_transaction(1);
    database.add_transaction(transaction.clone()).unwrap();
    database.set_transaction(transaction).unwrap();
}

#[test]
fn remove_transaction() {
    let mut database = create_in_memory_database();

    let transaction = create_dummy_transaction(0);
    database.add_transaction(transaction).unwrap();
    database.remove_transaction(0).unwrap();
}

#[test]
fn insert_rejects_taken_id() {
    let mut database = create_in_memory_database();
    database.add_transaction(create_dummy_transaction(4)).unwrap();
    assert_eq!(
        database.add_transaction(Transaction::new(4, 200, Date::new(2, 2, 2023))),
        Err(DatabaseDriverError::Storage)
    );
    // The failed insert left the store unchanged.
    assert_eq!(
        database.get_transactions().unwrap(),
        vec![create_dummy_transaction(4)]
    );
}

#[test]
fn insert_validates_the_date() {
    let mut database = create_in_memory_database();
    assert_eq!(
        database.add_transaction(Transaction::new(0, 105, Date::new(31, 2, 2023))),
        Err(DatabaseDriverError::DateError(DateError::ValueOutOfBounds))
    );
    assert_eq!(database.get_transactions().unwrap(), vec![]);
}

#[test]
fn id_allocation() {
    let mut database = create_in_memory_database();
    assert_eq!(database.get_next_id().unwrap(), 0);

    database.add_transaction(create_dummy_transaction(0)).unwrap();
    database.add_transaction(create_dummy_transaction(1)).unwrap();
    assert_eq!(database.get_next_id().unwrap(), 2);
}

#[test]
fn idempotent_empty_read() {
    let mut service = TreasuryService::new();
    assert_eq!(service.get_transactions().unwrap(), vec![]);
    assert_eq!(service.get_transactions().unwrap(), vec![]);
}

#[test]
fn crud_end_to_end() {
    let mut service = TreasuryService::new();
    service.add_transaction(105, "01-01-2023").unwrap();

    let transactions = service.get_transactions().unwrap();
    assert_eq!(transactions.len(), 1);
    assert_eq!(transactions[0].get_amount(), 105);
    assert_eq!(transactions[0].get_date().to_text(), "01-01-2023");
    let id = transactions[0].get_id();

    // Updating a missing id does not raise, and creates no row.
    service.set_transaction(id + 1, 200, "02-02-2023").unwrap();
    let after_update = service.get_transactions().unwrap();
    assert_eq!(after_update.len(), 1);
    assert_eq!(after_update[0].get_amount(), 105);

    // Updating the present id overwrites amount and date.
    service.set_transaction(id, 200, "02-02-2023").unwrap();
    let updated = service.get_transactions().unwrap();
    assert_eq!(updated, vec![Transaction::new(id, 200, Date::new(2, 2, 2023))]);

    service.remove_transaction(id).unwrap();
    assert_eq!(service.get_transactions().unwrap(), vec![]);

    // Removing an absent id is a silent success.
    service.remove_transaction(id).unwrap();
    assert_eq!(service.get_transactions().unwrap(), vec![]);
}

#[test]
fn service_surfaces_date_errors() {
    let mut service = TreasuryService::new();
    assert_eq!(
        service.add_transaction(105, "not a date"),
        Err(TreasuryServiceError::DatabaseError(
            DatabaseDriverError::DateError(DateError::InvalidFormat)
        ))
    );
    assert_eq!(
        service.add_transaction(105, "31-02-2023"),
        Err(TreasuryServiceError::DatabaseError(
            DatabaseDriverError::DateError(DateError::ValueOutOfBounds)
        ))
    );
    assert_eq!(
        service.set_transaction(0, 105, "2023-01-01"),
        Err(TreasuryServiceError::DatabaseError(
            DatabaseDriverError::DateError(DateError::InvalidFormat)
        ))
    );
    assert_eq!(service.get_transactions().unwrap(), vec![]);
}
