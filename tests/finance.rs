use soroban_sdk::testutils::{Ledger, LedgerInfo};
use soroban_sdk::Env;
use stellar_finance::{Address, FinanceError, FinanceManager};

fn s(text: &str) -> String {
    text.to_string()
}

fn proof_of(who: &Address) -> Option<Address> {
    Some(who.clone())
}

fn ledger_at(timestamp: u64) -> Env {
    let env = Env::default();
    env.ledger().set(LedgerInfo {
        timestamp,
        protocol_version: 20,
        sequence_number: 0,
        network_id: [0; 32],
        base_reserve: 0,
        min_temp_entry_ttl: 0,
        min_persistent_entry_ttl: 0,
        max_entry_ttl: u32::MAX,
    });
    env
}

fn initialized(admin: &Address) -> FinanceManager {
    let mut ledger = FinanceManager::new();
    assert_eq!(ledger.initialize(&proof_of(admin), admin.clone()), Ok(()));
    ledger
}

#[test]
fn test_initialize() {
    let admin = Address::new("GADMIN");
    let ledger = initialized(&admin);
    assert!(ledger.is_admin(&admin).unwrap());
}

#[test]
fn test_initialize_twice_fails() {
    let admin = Address::new("GADMIN");
    let mut ledger = initialized(&admin);
    assert_eq!(
        ledger.initialize(&proof_of(&admin), admin.clone()),
        Err(FinanceError::AlreadyInitialized)
    );
}

#[test]
fn test_add_and_get_assets() {
    let admin = Address::new("GADMIN");
    let user = Address::new("GUSER");
    let mut ledger = initialized(&admin);
    let auth = proof_of(&user);

    assert_eq!(
        ledger.add_asset(&auth, user.clone(), s("cash"), 5000, s("Savings account")),
        Ok(())
    );
    assert_eq!(
        ledger.add_asset(&auth, user.clone(), s("stock"), 10000, s("AAPL shares")),
        Ok(())
    );

    let assets = ledger.get_assets(&user);
    assert_eq!(assets.len(), 2);

    let asset1 = &assets[0];
    let asset2 = &assets[1];

    assert_eq!(asset1.asset_type, s("cash"));
    assert_eq!(asset1.amount, 5000);
    assert_eq!(asset1.description, s("Savings account"));

    assert_eq!(asset2.asset_type, s("stock"));
    assert_eq!(asset2.amount, 10000);
    assert_eq!(asset2.description, s("AAPL shares"));
}

#[test]
fn test_record_and_get_transactions() {
    let admin = Address::new("GADMIN");
    let user = Address::new("GUSER");
    let mut ledger = initialized(&admin);
    let env = ledger_at(1234567890);
    let auth = proof_of(&user);

    assert_eq!(
        ledger.record_transaction(&auth, user.clone(), env.ledger().timestamp(), s("deposit"), 1000, s("Salary")),
        Ok(())
    );
    assert_eq!(
        ledger.record_transaction(&auth, user.clone(), env.ledger().timestamp(), s("withdrawal"), -500, s("Rent payment")),
        Ok(())
    );

    let transactions = ledger.get_transactions(&user);
    assert_eq!(transactions.len(), 2);

    let tx1 = &transactions[0];
    let tx2 = &transactions[1];

    assert_eq!(tx1.timestamp, 1234567890);
    assert_eq!(tx1.transaction_type, s("deposit"));
    assert_eq!(tx1.amount, 1000);
    assert_eq!(tx1.description, s("Salary"));

    assert_eq!(tx2.timestamp, 1234567890);
    assert_eq!(tx2.transaction_type, s("withdrawal"));
    assert_eq!(tx2.amount, -500);
    assert_eq!(tx2.description, s("Rent payment"));
}

#[test]
fn test_goals_management() {
    let admin = Address::new("GADMIN");
    let user = Address::new("GUSER");
    let mut ledger = initialized(&admin);
    let auth = proof_of(&user);

    assert_eq!(ledger.create_goal(&auth, user.clone(), s("Vacation"), 5000, 1672531200), Ok(()));

    let goals = ledger.get_goals(&user);
    assert_eq!(goals.len(), 1);

    let goal = &goals[0];
    assert_eq!(goal.name, s("Vacation"));
    assert_eq!(goal.target_amount, 5000);
    assert_eq!(goal.current_amount, 0);
    assert_eq!(goal.deadline, 1672531200);

    assert_eq!(ledger.update_goal_progress(&auth, user.clone(), 0, 1000), Ok(()));

    let updated_goals = ledger.get_goals(&user);
    let updated_goal = &updated_goals[0];
    assert_eq!(updated_goal.current_amount, 1000);
    assert_eq!(updated_goal.name, s("Vacation"));
    assert_eq!(updated_goal.target_amount, 5000);
    assert_eq!(updated_goal.deadline, 1672531200);
}

#[test]
fn test_update_nonexistent_goal() {
    let admin = Address::new("GADMIN");
    let user = Address::new("GUSER");
    let mut ledger = initialized(&admin);
    let auth = proof_of(&user);

    assert_eq!(ledger.create_goal(&auth, user.clone(), s("Vacation"), 5000, 1672531200), Ok(()));
    assert_eq!(
        ledger.update_goal_progress(&auth, user.clone(), 999, 1000),
        Err(FinanceError::IndexOutOfRange)
    );
    assert_eq!(ledger.get_goals(&user)[0].current_amount, 0);
}

#[test]
fn test_calculate_net_worth() {
    let admin = Address::new("GADMIN");
    let user = Address::new("GUSER");
    let mut ledger = initialized(&admin);
    let auth = proof_of(&user);

    assert_eq!(ledger.add_asset(&auth, user.clone(), s("cash"), 5000, s("Savings account")), Ok(()));
    assert_eq!(ledger.add_asset(&auth, user.clone(), s("stock"), 10000, s("AAPL shares")), Ok(()));
    assert_eq!(ledger.add_asset(&auth, user.clone(), s("crypto"), 3000, s("Bitcoin")), Ok(()));
    assert_eq!(ledger.add_asset(&auth, user.clone(), s("debt"), -2000, s("Credit card")), Ok(()));

    assert_eq!(ledger.calculate_net_worth(&user), Ok(16000));
}

#[test]
fn test_empty_state() {
    let admin = Address::new("GADMIN");
    let user = Address::new("GUSER");
    let ledger = initialized(&admin);

    assert_eq!(ledger.get_assets(&user).len(), 0);
    assert_eq!(ledger.get_transactions(&user).len(), 0);
    assert_eq!(ledger.get_goals(&user).len(), 0);

    assert_eq!(ledger.calculate_net_worth(&user), Ok(0));
}

#[test]
fn test_multiple_users() {
    let admin = Address::new("GADMIN");
    let user1 = Address::new("GUSER1");
    let user2 = Address::new("GUSER2");
    let mut ledger = initialized(&admin);

    assert_eq!(
        ledger.add_asset(&proof_of(&user1), user1.clone(), s("cash"), 1000, s("User1 Savings")),
        Ok(())
    );
    assert_eq!(
        ledger.add_asset(&proof_of(&user2), user2.clone(), s("cash"), 2000, s("User2 Savings")),
        Ok(())
    );

    let user1_assets = ledger.get_assets(&user1);
    let user2_assets = ledger.get_assets(&user2);

    assert_eq!(user1_assets.len(), 1);
    assert_eq!(user2_assets.len(), 1);

    assert_eq!(user1_assets[0].amount, 1000);
    assert_eq!(user2_assets[0].amount, 2000);

    assert_eq!(ledger.calculate_net_worth(&user1), Ok(1000));
    assert_eq!(ledger.calculate_net_worth(&user2), Ok(2000));
}
