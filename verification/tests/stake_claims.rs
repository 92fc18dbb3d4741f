use poe_core::stake::claim::{Claims, ReleaseData, TokenReleaseInfo};
use poe_core::time::Expiration;
use poe_core::types::{BlockInfo, Timestamp};

fn at(seconds: u64) -> Expiration {
    Expiration { at: Timestamp::from_seconds(seconds) }
}

fn block_at(seconds: u64) -> BlockInfo {
    BlockInfo { height: 10, time: Timestamp::from_seconds(seconds) }
}

fn release(addr: &str, amount: u128) -> TokenReleaseInfo {
    TokenReleaseInfo { addr: addr.to_string(), amount }
}

fn ledger() -> Claims {
    let mut claims = Claims::new("claims", "claims__release");
    for (addr, amount, vesting, seconds) in [
        ("bob", 10u128, 1u128, 100u64),
        ("alice", 20, 0, 100),
        ("bob", 30, 2, 200),
        ("carol", 40, 4, 200),
        ("alice", 50, 8, 300),
        ("bob", 60, 16, 400),
    ] {
        assert!(claims.create_fits_now(&addr.to_string(), at(seconds).as_key(), amount, vesting));
        claims.create_claim(addr.to_string(), amount, vesting, at(seconds), 1);
    }
    claims
}

#[test]
fn released_claims_are_summed_by_address() {
    let mut claims = ledger();
    assert!(claims.claim_expired_fits(&block_at(300), None));
    let data = claims.claim_expired(&block_at(300), None);
    assert_eq!(
        data,
        ReleaseData {
            liquid_releases: vec![release("alice", 70), release("bob", 40), release("carol", 40)],
            vesting_releases: vec![release("alice", 8), release("bob", 3), release("carol", 4)],
        }
    );
    let rest = claims.claim_expired(&block_at(400), None);
    assert_eq!(
        rest,
        ReleaseData {
            liquid_releases: vec![release("bob", 60)],
            vesting_releases: vec![release("bob", 16)],
        }
    );
}

#[test]
fn a_limited_release_groups_what_it_takes() {
    let mut claims = ledger();
    let data = claims.claim_expired(&block_at(1_000), Some(3));
    assert_eq!(
        data,
        ReleaseData {
            liquid_releases: vec![release("alice", 20), release("bob", 40)],
            vesting_releases: vec![release("alice", 0), release("bob", 3)],
        }
    );
}

#[test]
fn nothing_due_gives_no_groups() {
    let mut claims = ledger();
    let data = claims.claim_expired(&block_at(99), None);
    assert_eq!(data, ReleaseData { liquid_releases: vec![], vesting_releases: vec![] });
}
