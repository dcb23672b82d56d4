use micropay::oracle::{ClientOracleRecord, ClientRiskConfig};
use micropay::settle::{settle_prefix_len, ClientSettleVouchers, CronEngine, RecordedJob, SettleConfig};
use micropay::voucher::total_atoms;
use micropay::voucher::TestVoucher;

const VENDOR: u64 = 42;

fn job(finished: bool, successful: bool, up_to: u64) -> RecordedJob {
    RecordedJob { finished, successful, up_to, reference: "0xfeed".to_string() }
}

fn v(nonce: u64, atoms: u64) -> TestVoucher {
    TestVoucher { ci: 1, vi: VENDOR, nonce, atoms }
}

fn client(vs: Vec<TestVoucher>) -> ClientSettleVouchers<TestVoucher, RecordedJob> {
    let mut c = ClientSettleVouchers::new();
    c.unsettled_vouchers = vs;
    c
}

fn oracle(now: u64, to_be: u64, subs: u64, subscribed: bool) -> ClientOracleRecord {
    ClientOracleRecord {
        collateral_now: now,
        collateral_to_be: to_be,
        subscriptions_now: subs,
        vendors_to_be: if subscribed { vec![VENDOR] } else { vec![] },
    }
}

fn cron(min: u64, do_size: u64, count: usize) -> CronEngine {
    CronEngine::new(
        SettleConfig { min_settle_size: min, do_settle_size: do_size, max_settle_count: count },
        VENDOR,
        ClientRiskConfig::new(),
    )
}

#[test]
fn finished_job_moves_settled_prefix() {
    let mut c = client(vec![v(0, 10), v(1, 20), v(2, 30)]);
    c.job = Some(job(true, true, 1));
    assert!(c.try_cleanup_job());
    assert!(c.job.is_none());
    assert_eq!(c.unsettled_vouchers, vec![v(2, 30)]);
    assert_eq!(c.settled_vouchers.len(), 2);
    assert_eq!(c.settled_vouchers[1].v, v(1, 20));
    assert_eq!(c.settled_vouchers[0].reference, "0xfeed");
}

#[test]
fn running_job_stays() {
    let mut c = client(vec![v(0, 10)]);
    c.job = Some(job(false, false, 0));
    assert!(!c.try_cleanup_job());
    assert!(c.job.is_some());
    assert_eq!(c.unsettled_vouchers.len(), 1);
}

#[test]
fn failed_job_is_dropped_without_settling() {
    let mut c = client(vec![v(0, 10)]);
    c.job = Some(job(true, false, 0));
    assert!(!c.try_cleanup_job());
    assert!(c.job.is_none());
    assert_eq!(c.unsettled_vouchers.len(), 1);
    assert!(c.settled_vouchers.is_empty());
}

#[test]
fn only_one_job_attaches_for_the_chosen_prefix() {
    let mut c = client(vec![v(0, 10), v(1, 20), v(2, 30)]);
    let wrong = c.attach_settle_job(2, job(false, false, 2));
    assert_eq!(wrong.err().map(|j| j.up_to), Some(2));
    assert!(c.job.is_none());
    assert!(c.attach_settle_job(0, job(false, false, 0)).is_err());
    assert!(c.attach_settle_job(2, job(false, false, 1)).is_ok());
    let back = c.attach_settle_job(3, job(false, false, 2));
    assert_eq!(back.err().map(|j| j.up_to), Some(2));
    assert_eq!(c.job.as_ref().map(|j| j.up_to), Some(1));
    assert_eq!(c.unsettled_vouchers.len(), 3);
}

#[test]
fn settle_up_to_splits_and_tags() {
    let mut c = client(vec![v(4, 10), v(5, 20), v(6, 30)]);
    c.settle_up_to(5, "0xabc".to_string());
    assert_eq!(c.unsettled_vouchers, vec![v(6, 30)]);
    assert_eq!(c.settled_vouchers.len(), 2);
    assert_eq!(c.settled_vouchers[0].v, v(4, 10));
    assert_eq!(c.settled_vouchers[1].reference, "0xabc");
    c.settle_up_to(3, "0xdef".to_string());
    assert_eq!(c.settled_vouchers.len(), 2);
    assert_eq!(c.unsettled_vouchers.len(), 1);
}

#[test]
fn job_status_drives_cleanup() {
    let mut c = client(vec![v(0, 10), v(1, 20)]);
    c.job = Some(job(false, false, 0));
    assert!(!c.apply_job_status(false, false));
    assert!(c.job.is_some());
    assert!(!c.apply_job_status(true, false));
    assert!(c.job.is_none());
    assert_eq!(c.unsettled_vouchers.len(), 2);
    c.job = Some(job(false, false, 0));
    assert!(c.apply_job_status(true, true));
    assert!(c.job.is_none());
    assert_eq!(c.unsettled_vouchers, vec![v(1, 20)]);
    assert_eq!(c.settled_vouchers[0].reference, "0xfeed");
}

#[test]
fn cron_keeps_a_running_job() {
    let mut c = client(vec![v(0, 500)]);
    c.job = Some(job(false, false, 7));
    assert_eq!(cron(100, 200, 10).mby_start_settle_job(&mut c, &oracle(1000, 10_000, 0, true)), None);
    assert_eq!(c.job.as_ref().map(|j| j.up_to), Some(7));
    assert_eq!(c.unsettled_vouchers, vec![v(0, 500)]);
}

#[test]
fn prefix_within_limit() {
    let vs = vec![v(0, 10), v(1, 20), v(2, 30)];
    assert_eq!(settle_prefix_len(&vs, 29), 1);
    assert_eq!(settle_prefix_len(&vs, 30), 2);
    assert_eq!(settle_prefix_len(&vs, 60), 3);
    assert_eq!(settle_prefix_len(&vs, 5), 0);
    assert_eq!(total_atoms(&vs), 60);
    assert_eq!(total_atoms(&vec![v(0, u64::MAX), v(1, 1)]), u64::MAX);
}

#[test]
fn below_minimum_never_settles() {
    let mut c = client(vec![v(0, 10), v(1, 20)]);
    assert_eq!(cron(100, 200, 1).mby_start_settle_job(&mut c, &oracle(1000, 1000, 0, true)), None);
}

#[test]
fn count_trigger_settles_what_collateral_allows() {
    let mut c = client(vec![v(0, 100), v(1, 100), v(2, 100)]);
    // safe cap 6000 / 5 = 1200 is not breached; the count of 3 triggers.
    let r = cron(100, 10_000, 3).mby_start_settle_job(&mut c, &oracle(250, 6000, 0, true));
    assert_eq!(r, Some(2));
}

#[test]
fn risk_breach_triggers_when_unsubscribing() {
    let mut c = client(vec![v(0, 150)]);
    let r = cron(100, 10_000, 10).mby_start_settle_job(&mut c, &oracle(1000, 1000, 0, false));
    assert_eq!(r, Some(1));
    let mut c = client(vec![v(0, 150)]);
    let r = cron(100, 10_000, 10).mby_start_settle_job(&mut c, &oracle(1000, 1000, 0, true));
    assert_eq!(r, None);
}

#[test]
fn low_collateral_now_skips() {
    let mut c = client(vec![v(0, 500)]);
    assert_eq!(cron(100, 200, 10).mby_start_settle_job(&mut c, &oracle(99, 10_000, 0, true)), None);
}

#[test]
fn job_in_flight_blocks_settlement() {
    let mut c = client(vec![v(0, 500)]);
    c.job = Some(job(false, false, 0));
    assert_eq!(cron(100, 200, 10).mby_start_settle_job(&mut c, &oracle(1000, 10_000, 0, true)), None);
}
