use shared_storage::util::{SimpleResourceAllocation, SimpleResourceProvider};
use shared_storage::{ResourceAllocation, ResourceClaimResult, ResourceProvider};

#[test]
fn basic_claims() {
    let mut res = SimpleResourceProvider::new(5, 100);
    {
        let mut claims = Vec::new();
        for _ in 0..5 {
            claims.push(res.claim(10).unwrap());
        }
        assert_eq!(res.claims_in_use(), 5);
        assert_eq!(res.space_in_use(), 50);
        for mut claim in claims.drain(..) {
            claim.release(&mut res);
        }
    }
    assert_eq!(res.claims_in_use(), 0);
    assert_eq!(res.space_in_use(), 0);
}

#[test]
fn over_claim_space() {
    let mut res = SimpleResourceProvider::new(2, 10);
    let mut claim = res.claim(10).unwrap();
    assert_eq!(res.spare_claims(), 1);
    assert_eq!(res.spare_space(), 0);
    assert!(res.claim(1).is_busy());
    claim.release(&mut res);
}

#[test]
fn over_claim_count() {
    let mut res = SimpleResourceProvider::new(1, 10);
    let mut claim = res.claim(1).unwrap();
    assert_eq!(res.spare_claims(), 0);
    assert_eq!(res.spare_space(), 9);
    assert!(res.claim(1).is_busy());
    claim.release(&mut res);
}

#[test]
fn manage_claim_huge() {
    let mut res = SimpleResourceProvider::new(1, 10);
    let mut claim = res.claim(100).unwrap();
    claim.release(&mut res);
}

#[test]
fn ok_limited_claim_huge() {
    let mut res = SimpleResourceProvider::new_with_max_space(1, 10, 50);
    let mut claim = res.claim(50).unwrap();
    claim.release(&mut res);
}

#[test]
fn prevented_limited_claim_huge() {
    let mut res = SimpleResourceProvider::new_with_max_space(1, 10, 50);
    assert!(res.claim(100).is_impossible());
}

#[test]
fn claim_result_predicates() {
    let ok: ResourceClaimResult<u8> = ResourceClaimResult::Granted(7);
    assert!(ok.is_ok() && !ok.is_busy() && !ok.is_impossible());
    assert_eq!(ok.unwrap(), 7);
    let busy: ResourceClaimResult<u8> = ResourceClaimResult::Busy;
    assert!(!busy.is_ok() && busy.is_busy() && !busy.is_impossible());
    let never: ResourceClaimResult<u8> = ResourceClaimResult::Impossible;
    assert!(!never.is_ok() && !never.is_busy() && never.is_impossible());
}

#[test]
fn impossible_is_decided_before_busy() {
    let mut res = SimpleResourceProvider::new_with_max_space(1, 100, 50);
    let mut first = res.claim(50).unwrap();
    assert!(res.claim(51).is_impossible());
    assert!(res.claim(50).is_busy());
    first.release(&mut res);
    assert!(res.claim(51).is_impossible());
}

#[test]
fn no_claims_at_all_is_busy() {
    let mut res = SimpleResourceProvider::new(0, 100);
    assert!(res.claim(0).is_busy());
    assert_eq!(res.spare_claims(), 0);
}

#[test]
fn lone_oversize_claim_blocks_the_next() {
    let mut res = SimpleResourceProvider::new(3, 10);
    let mut big = res.claim(100).unwrap();
    assert_eq!(big.space(), 100);
    assert_eq!(res.space_in_use(), 100);
    assert_eq!(res.spare_space(), 0);
    assert!(res.claim(0).is_busy());
    big.release(&mut res);
    assert_eq!(res.spare_space(), 10);
    let mut small = res.claim(4).unwrap();
    let mut other = res.claim(6).unwrap();
    assert!(res.claim(1).is_busy());
    assert_eq!(res.claims_in_use(), 2);
    assert_eq!(res.space_in_use(), 10);
    assert_eq!(res.spare_claims(), 1);
    small.release(&mut res);
    other.release(&mut res);
}

#[test]
fn budget_is_never_exceeded() {
    let sizes: [usize; 8] = [3, 9, 1, 20, 0, 5, 5, 7];
    let mut res = SimpleResourceProvider::new(3, 10);
    let mut held: Vec<SimpleResourceAllocation> = Vec::new();
    for round in 0..40 {
        let size = sizes[round % sizes.len()];
        match res.claim(size) {
            ResourceClaimResult::Granted(c) => held.push(c),
            ResourceClaimResult::Busy => {
                let mut c = held.remove(0);
                assert!(res.can_release(c.space()));
                c.release(&mut res);
            }
            ResourceClaimResult::Impossible => panic!("no hard limit was set"),
        }
        assert!(res.claims_in_use() <= 3);
        assert!(!(res.claims_in_use() > 1 && res.space_in_use() > 10));
        assert_eq!(res.claims_in_use(), held.len());
    }
    for mut c in held.drain(..) {
        c.release(&mut res);
    }
    assert_eq!(res.claims_in_use(), 0);
    assert_eq!(res.space_in_use(), 0);
}

#[test]
fn release_twice_counts_once() {
    let mut res = SimpleResourceProvider::new(2, 10);
    let mut a = res.claim(4).unwrap();
    let mut b = res.claim(5).unwrap();
    assert!(!a.released());
    a.release(&mut res);
    assert!(a.released());
    a.release(&mut res);
    assert_eq!(res.claims_in_use(), 1);
    assert_eq!(res.space_in_use(), 5);
    assert!(!res.can_release(4));
    assert!(res.can_release(5));
    b.release(&mut res);
}
