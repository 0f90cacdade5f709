use std::path::PathBuf;
use thegarii::cmd::{Command, GetArgs, Opt};
use thegarii::difficulty::Difficulty;
use thegarii::result::DecStrError;
use thegarii::types::FirehoseBlock;
use thegarii::{Env, Error, Polling};

fn env(batch: u16, confirms: u64) -> Env {
    Env {
        block_time: 10_000,
        checking_interval: 7_200_000,
        db_path: PathBuf::from("/tmp/thegarii"),
        endpoints: vec!["https://arweave.net".to_string()],
        polling_batch_blocks: batch,
        polling_safe_blocks: confirms,
        polling_timeout: 30_000,
        polling_retry_times: 20,
    }
}

fn fb(height: u64, hash: &str, diff: Option<&str>) -> FirehoseBlock {
    FirehoseBlock {
        nonce: String::new(),
        previous_block: String::new(),
        timestamp: 0,
        last_retarget: 0,
        diff: String::new(),
        height,
        hash: String::new(),
        indep_hash: hash.to_string(),
        txs: vec![],
        tags: vec![],
        wallet_list: String::new(),
        reward_addr: String::new(),
        reward_pool: String::new(),
        weave_size: String::new(),
        block_size: String::new(),
        cumulative_diff: diff.map(|d| d.to_string()),
        hash_list_merkle: None,
        tx_root: None,
        poa: None,
    }
}

fn live(p: &Polling) -> Vec<(u64, String, u64)> {
    p.live_blocks().iter().map(|(h, i)| (*h, i.indep_hash.clone(), i.cumulative_diff.w0)).collect()
}

#[test]
fn new_takes_settings_from_env() {
    let p = Polling::new(5, Some(9), &env(3, 20), 100);
    assert_eq!(p.ptr(), 5);
    assert_eq!(p.end(), Some(9));
    assert_eq!(p.latest(), 100);
    assert_eq!(p.batch(), 3);
    assert_eq!(p.confirms(), 20);
    assert_eq!(p.block_time(), 10_000);
    assert!(p.live_blocks().is_empty());
}

#[test]
fn empty_and_stale_batches_change_nothing() {
    let mut p = Polling::new(0, None, &env(50, 20), 100);
    assert_eq!(p.cmp_live_blocks(&[]), Ok(()));
    assert!(p.live_blocks().is_empty());
    // 70 + 20 < 100: already confirmed, even a bad difficulty is not read
    assert_eq!(p.cmp_live_blocks(&[fb(70, "a", Some("x"))]), Ok(()));
    assert!(p.live_blocks().is_empty());
}

#[test]
fn unconfirmed_blocks_are_tracked() {
    let mut p = Polling::new(0, None, &env(50, 20), 100);
    let blocks = [fb(79, "old", Some("1")), fb(80, "a", Some("2")), fb(95, "b", None)];
    assert_eq!(p.cmp_live_blocks(&blocks), Ok(()));
    assert_eq!(live(&p), vec![(95, "b".to_string(), 0)]);
    let blocks = [fb(81, "c", Some("3")), fb(96, "d", Some("4"))];
    assert_eq!(p.cmp_live_blocks(&blocks), Ok(()));
    assert_eq!(
        live(&p),
        vec![(81, "c".to_string(), 3), (95, "b".to_string(), 0), (96, "d".to_string(), 4)]
    );
}

#[test]
fn fork_with_more_difficulty_replaces_block() {
    let mut p = Polling::new(0, None, &env(50, 20), 100);
    assert_eq!(p.cmp_live_blocks(&[fb(90, "a", Some("10"))]), Ok(()));
    // same hash: kept as it is
    assert_eq!(p.cmp_live_blocks(&[fb(90, "a", Some("99"))]), Ok(()));
    assert_eq!(live(&p), vec![(90, "a".to_string(), 10)]);
    // other hash, less or equal difficulty: kept
    assert_eq!(p.cmp_live_blocks(&[fb(90, "b", Some("10"))]), Ok(()));
    assert_eq!(live(&p), vec![(90, "a".to_string(), 10)]);
    // other hash, more difficulty: replaced
    assert_eq!(p.cmp_live_blocks(&[fb(90, "b", Some("11"))]), Ok(()));
    assert_eq!(live(&p), vec![(90, "b".to_string(), 11)]);
}

#[test]
fn window_is_trimmed_as_latest_moves() {
    let mut p = Polling::new(0, None, &env(50, 20), 100);
    assert_eq!(p.cmp_live_blocks(&[fb(85, "a", None), fb(90, "b", None)]), Ok(()));
    p.set_latest(108);
    assert_eq!(p.latest(), 108);
    assert_eq!(p.cmp_live_blocks(&[fb(99, "c", None)]), Ok(()));
    assert_eq!(live(&p), vec![(90, "b".to_string(), 0), (99, "c".to_string(), 0)]);
}

#[test]
fn unreadable_difficulty_stops_the_batch() {
    let mut p = Polling::new(0, None, &env(50, 20), 100);
    let blocks = [fb(90, "a", Some("1")), fb(91, "b", Some("1x")), fb(92, "c", Some("3"))];
    assert_eq!(p.cmp_live_blocks(&blocks), Err(Error::Uint(DecStrError::InvalidCharacter)));
    assert_eq!(live(&p), vec![(90, "a".to_string(), 1)]);
    let too_big =
        "115792089237316195423570985008687907853269984665640564039457584007913129639936";
    assert_eq!(p.cmp_live_blocks(&[fb(93, "d", Some(too_big))]), Err(Error::Uint(DecStrError::InvalidLength)));
}

#[test]
fn large_difficulties_compare_by_value() {
    let mut p = Polling::new(0, None, &env(50, 20), 100);
    let big = "18446744073709551616"; // 2^64
    assert_eq!(p.cmp_live_blocks(&[fb(90, "a", Some(big))]), Ok(()));
    assert_eq!(p.cmp_live_blocks(&[fb(90, "b", Some("18446744073709551615"))]), Ok(()));
    assert_eq!(p.live_blocks()[&90].indep_hash, "a");
    assert_eq!(p.live_blocks()[&90].cumulative_diff, Difficulty { w0: 0, w1: 1, w2: 0, w3: 0 });
}

#[test]
fn pending_heights() {
    let p = Polling::new(5, Some(9), &env(2, 20), 100);
    assert_eq!(p.pending(), vec![5, 6, 7, 8]);
    let p = Polling::new(98, None, &env(2, 20), 100);
    assert_eq!(p.pending(), vec![98, 99]);
    let p = Polling::new(120, None, &env(2, 20), 100);
    assert_eq!(p.pending(), Vec::<u64>::new());
}

#[test]
fn batches_are_split_from_the_front() {
    let p = Polling::new(0, None, &env(2, 20), 100);
    let mut pending = vec![1, 2, 3, 4, 5];
    assert_eq!(p.next_batch(&mut pending), Ok((vec![1, 2], 2)));
    assert_eq!(pending, vec![3, 4, 5]);
    assert_eq!(p.next_batch(&mut pending), Ok((vec![3, 4], 4)));
    assert_eq!(p.next_batch(&mut pending), Ok((vec![5], 5)));
    assert!(pending.is_empty());
    assert_eq!(p.next_batch(&mut pending), Err(Error::ParseBlockPtrFailed));
}

#[test]
fn zero_batch_is_an_error() {
    let p = Polling::new(0, None, &env(0, 20), 100);
    let mut pending = vec![1, 2];
    assert_eq!(p.next_batch(&mut pending), Err(Error::ParseBlockPtrFailed));
    assert_eq!(pending, vec![1, 2]);
}

#[test]
fn pointer_moves_when_committed() {
    let mut p = Polling::new(0, None, &env(2, 20), 100);
    p.commit_ptr(42);
    assert_eq!(p.ptr(), 42);
}

#[test]
fn dm_log_line_format() {
    assert_eq!(Polling::dm_log_line(123, &[0x0a, 0xff, 0x01]), Ok("DMLOG BLOCK 123 0aff01".to_string()));
    assert_eq!(Polling::dm_log_line(0, &[0]), Ok("DMLOG BLOCK 0 00".to_string()));
    assert_eq!(Polling::dm_log_line(1, &[]), Err(Error::ParseBlockFailed));
}

#[test]
fn log_filter_follows_debug_flag() {
    let opt = Opt { debug: true, command: Some(Command::Get(GetArgs { height: 1 })) };
    assert_eq!(opt.log_filter(), "thegarii");
    let opt = Opt { debug: false, command: None };
    assert_eq!(opt.log_filter(), "info");
}

#[test]
fn same_batch_twice_changes_nothing() {
    let mut p = Polling::new(0, None, &env(50, 20), 100);
    assert_eq!(p.cmp_live_blocks(&[fb(90, "a", Some("10"))]), Ok(()));
    let blocks = [fb(70, "d", None), fb(85, "x", Some("3")), fb(90, "b", Some("5")), fb(95, "c", Some("7"))];
    assert_eq!(p.cmp_live_blocks(&blocks), Ok(()));
    let once = live(&p);
    assert_eq!(p.cmp_live_blocks(&blocks), Ok(()));
    assert_eq!(live(&p), once);
    assert_eq!(
        once,
        vec![(85, "x".to_string(), 3), (90, "a".to_string(), 10), (95, "c".to_string(), 7)]
    );
}

#[test]
fn window_heights_come_from_held_or_batch() {
    let mut p = Polling::new(0, None, &env(50, 20), 100);
    assert_eq!(p.cmp_live_blocks(&[fb(90, "a", None)]), Ok(()));
    let blocks = [fb(92, "b", None), fb(97, "c", None)];
    assert_eq!(p.cmp_live_blocks(&blocks), Ok(()));
    for (h, _) in p.live_blocks().iter() {
        assert!(h + p.confirms() > p.latest());
        assert!(*h == 90 || blocks.iter().any(|b| b.height == *h));
    }
}
