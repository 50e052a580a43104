use ya_payment::dao::allocation::{
    create, get, spend_from_allocation, Allocation, AllocationDao, AllocationRow, AllocationStatus,
    NewAllocation, SpendFromAllocationArgs,
};
use ya_payment::error::DbError;
use ya_payment::models::ExpenditureRow;

const OWNER: &str = "0xbabe000000000000000000000000000000000000";
const AGREEMENT_ID: &str = "agreement-1";
const ALLOCATION_ID: &str = "allocation-1";
const HOUR_MS: i64 = 3_600_000;
const NOW: i64 = 1_700_000_000_000;

fn glm(n: i128) -> i128 {
    n * 1_000_000_000_000_000_000
}

fn seed(total: i128) -> AllocationDao {
    let mut dao = AllocationDao { allocations: vec![], expenditures: vec![] };
    dao.create_with(
        &NewAllocation {
            address: None,
            total_amount: glm(total),
            timeout: Some(NOW + HOUR_MS),
            deposit: None,
            make_deposit: false,
        },
        ALLOCATION_ID.to_string(),
        &OWNER.to_string(),
        &"erc20-holesky-tglm".to_string(),
        &OWNER.to_string(),
        NOW,
    )
    .unwrap();
    dao
}

fn read(dao: &AllocationDao) -> Allocation {
    match dao.get(&ALLOCATION_ID.to_string(), &OWNER.to_string()) {
        AllocationStatus::Active(a) => a,
        _ => panic!("allocation not active"),
    }
}

fn spend(dao: &mut AllocationDao, amount: i128) {
    dao.spend_from_allocation_transaction(&SpendFromAllocationArgs {
        owner_id: OWNER.to_string(),
        allocation_id: ALLOCATION_ID.to_string(),
        agreement_id: AGREEMENT_ID.to_string(),
        activity_id: None,
        amount: glm(amount),
    })
    .unwrap()
}

fn balances(dao: &AllocationDao) -> (i128, i128) {
    let a = read(dao);
    (a.remaining_amount, a.spent_amount)
}

#[test]
fn amend_does_not_revert_a_concurrent_spend() {
    let mut dao = seed(100);

    let stale = read(&dao);
    assert_eq!(stale.spent_amount, 0);

    spend(&mut dao, 30);

    let amended = Allocation {
        timeout: Some(NOW + 2 * HOUR_MS),
        ..stale
    };
    assert!(dao.replace(&amended, &OWNER.to_string()).unwrap(), "allocation replaced");

    let (avail, spent) = balances(&dao);
    assert_eq!(spent, glm(30), "spend was reverted");
    assert_eq!(avail, glm(70), "avail was restored to the total");
    assert_eq!(read(&dao).timeout, Some(NOW + 2 * HOUR_MS));
}

#[test]
fn amend_applies_and_preserves_prior_spend() {
    let mut dao = seed(100);

    spend(&mut dao, 30);
    let current = read(&dao);

    let amended = Allocation {
        total_amount: glm(150),
        timeout: Some(NOW + 2 * HOUR_MS),
        ..current
    };
    assert!(dao.replace(&amended, &OWNER.to_string()).unwrap(), "allocation replaced");

    let (avail, spent) = balances(&dao);
    assert_eq!(spent, glm(30), "spend must be untouched");
    assert_eq!(avail, glm(120), "avail must be total - spent");
}

#[test]
fn amend_below_spent_amount_is_rejected() {
    let mut dao = seed(100);

    let stale = read(&dao);
    spend(&mut dao, 60);

    let amended = Allocation {
        total_amount: glm(50),
        ..stale
    };
    assert!(dao.replace(&amended, &OWNER.to_string()).is_err());

    let (avail, spent) = balances(&dao);
    assert_eq!(spent, glm(60));
    assert_eq!(avail, glm(40));
}

fn seed_row(total: i128) -> AllocationRow {
    create(
        &NewAllocation {
            address: None,
            total_amount: glm(total),
            timeout: Some(NOW + HOUR_MS),
            deposit: None,
            make_deposit: false,
        },
        ALLOCATION_ID.to_string(),
        &OWNER.to_string(),
        &"erc20-holesky-tglm".to_string(),
        &OWNER.to_string(),
        NOW,
    )
}

fn spend_row(row: &AllocationRow, expenditures: &mut Vec<ExpenditureRow>, amount: i128) -> AllocationRow {
    spend_from_allocation(
        row,
        expenditures,
        &SpendFromAllocationArgs {
            owner_id: OWNER.to_string(),
            allocation_id: row.id.clone(),
            agreement_id: AGREEMENT_ID.to_string(),
            activity_id: None,
            amount: glm(amount),
        },
    )
    .unwrap()
}

#[test]
fn spend_records_the_expenditure_once_per_agreement() {
    let row = seed_row(100);
    let mut expenditures = Vec::new();
    let row = spend_row(&row, &mut expenditures, 10);
    let row = spend_row(&row, &mut expenditures, 15);
    assert_eq!(expenditures.len(), 1);
    assert_eq!(expenditures[0].accepted_amount, glm(25));
    assert_eq!(expenditures[0].scheduled_amount, 0);
    assert_eq!(row.spent_amount, glm(25));
    assert_eq!(row.avail_amount, glm(75));
}

#[test]
fn spend_beyond_the_available_amount_is_refused() {
    let row = seed_row(10);
    let mut expenditures = Vec::new();
    let r = spend_from_allocation(
        &row,
        &mut expenditures,
        &SpendFromAllocationArgs {
            owner_id: OWNER.to_string(),
            allocation_id: row.id.clone(),
            agreement_id: AGREEMENT_ID.to_string(),
            activity_id: None,
            amount: glm(11),
        },
    );
    match r {
        Err(DbError::Query(m)) => {
            assert!(m.starts_with("Not enough funds in allocation. Needed: 11"), "{}", m);
            assert!(m.contains(" Remaining: 10"), "{}", m);
        }
        _ => panic!("spend must be refused"),
    }
    assert!(expenditures.is_empty());
}

#[test]
fn allocation_of_another_owner_is_not_found() {
    let row = seed_row(10);
    assert!(matches!(get(Some(&row), &"0x1".to_string()), AllocationStatus::NotFound));
    assert!(matches!(get(None, &OWNER.to_string()), AllocationStatus::NotFound));
}
