use std::path::PathBuf;
use thegarii::{Env, EnvVars, Error, IntErrorKind};

fn no_vars() -> EnvVars {
    EnvVars {
        block_time: None,
        checking_interval: None,
        db_path: None,
        endpoints: None,
        polling_batch_blocks: None,
        polling_retry_times: None,
        polling_safe_blocks: None,
        polling_timeout: None,
    }
}

#[test]
fn numeric_settings_default() {
    assert_eq!(Env::block_time(None), Ok(10_000));
    assert_eq!(Env::checking_interval(None), Ok(7_200_000));
    assert_eq!(Env::polling_batch_blocks(None), Ok(50));
    assert_eq!(Env::polling_retry_times(None), Ok(20));
    assert_eq!(Env::polling_safe_blocks(None), Ok(20));
    assert_eq!(Env::polling_timeout(None), Ok(30_000));
}

#[test]
fn numeric_settings_read_values() {
    assert_eq!(Env::block_time(Some("5")), Ok(5));
    assert_eq!(Env::checking_interval(Some("+60")), Ok(60));
    assert_eq!(Env::polling_batch_blocks(Some("65535")), Ok(65535));
    assert_eq!(Env::polling_retry_times(Some("3")), Ok(3));
    assert_eq!(Env::polling_safe_blocks(Some("0")), Ok(0));
    assert_eq!(Env::polling_timeout(Some("18446744073709551615")), Ok(u64::MAX));
}

#[test]
fn numeric_settings_errors() {
    assert_eq!(Env::block_time(Some("ten")), Err(Error::ParseInt(IntErrorKind::InvalidDigit)));
    assert_eq!(Env::block_time(Some("")), Err(Error::ParseInt(IntErrorKind::Empty)));
    assert_eq!(Env::polling_batch_blocks(Some("65536")), Err(Error::ParseInt(IntErrorKind::PosOverflow)));
    assert_eq!(Env::polling_retry_times(Some("256")), Err(Error::ParseInt(IntErrorKind::PosOverflow)));
    assert_eq!(Env::polling_timeout(Some("-1")), Err(Error::ParseInt(IntErrorKind::InvalidDigit)));
}

#[test]
fn endpoints_setting_counts_pieces() {
    for s in ["a,b,,c", "", ",", "one"] {
        let v = Env::endpoints(Some(s)).unwrap();
        assert_eq!(v.join(","), s);
        assert_eq!(v.len(), s.matches(',').count() + 1);
        assert!(v.iter().all(|e| !e.contains(',')));
    }
}

#[test]
fn endpoints_setting() {
    assert_eq!(Env::endpoints(None), Ok(vec!["https://arweave.net".to_string()]));
    assert_eq!(
        Env::endpoints(Some("http://a:1984,http://b:1984")),
        Ok(vec!["http://a:1984".to_string(), "http://b:1984".to_string()])
    );
}

#[test]
fn db_path_setting() {
    assert_eq!(Env::db_path(Some("/tmp/db"), None), Ok(PathBuf::from("/tmp/db")));
    assert_eq!(Env::db_path(Some("/tmp/db"), Some(PathBuf::from("/data"))), Ok(PathBuf::from("/tmp/db")));
    assert_eq!(
        Env::db_path(None, Some(PathBuf::from("/data/thegarii/thegarii.db"))),
        Ok(PathBuf::from("/data/thegarii/thegarii.db"))
    );
    assert_eq!(Env::db_path(None, None), Err(Error::NoDataDirectory));
}

#[test]
fn new_env_with_defaults() {
    let env = Env::new(&no_vars(), Some(PathBuf::from("/data/thegarii/thegarii.db"))).unwrap();
    assert_eq!(env.block_time, 10_000);
    assert_eq!(env.checking_interval, 7_200_000);
    assert_eq!(env.db_path, PathBuf::from("/data/thegarii/thegarii.db"));
    assert_eq!(env.endpoints, vec!["https://arweave.net".to_string()]);
    assert_eq!(env.polling_batch_blocks, 50);
    assert_eq!(env.polling_retry_times, 20);
    assert_eq!(env.polling_safe_blocks, 20);
    assert_eq!(env.polling_timeout, 30_000);
}

#[test]
fn new_env_with_values() {
    let mut vars = no_vars();
    vars.block_time = Some("1".to_string());
    vars.db_path = Some("/db".to_string());
    vars.endpoints = Some("a,b".to_string());
    vars.polling_batch_blocks = Some("2".to_string());
    vars.polling_retry_times = Some("3".to_string());
    vars.polling_safe_blocks = Some("4".to_string());
    vars.polling_timeout = Some("5".to_string());
    vars.checking_interval = Some("6".to_string());
    let env = Env::new(&vars, None).unwrap();
    assert_eq!(env.block_time, 1);
    assert_eq!(env.checking_interval, 6);
    assert_eq!(env.db_path, PathBuf::from("/db"));
    assert_eq!(env.endpoints, vec!["a".to_string(), "b".to_string()]);
    assert_eq!(env.polling_batch_blocks, 2);
    assert_eq!(env.polling_retry_times, 3);
    assert_eq!(env.polling_safe_blocks, 4);
    assert_eq!(env.polling_timeout, 5);
}

#[test]
fn new_env_reports_first_error() {
    let mut vars = no_vars();
    vars.polling_timeout = Some("x".to_string());
    vars.block_time = Some("".to_string());
    assert_eq!(Env::new(&vars, Some(PathBuf::from("/d"))).err(), Some(Error::ParseInt(IntErrorKind::Empty)));
    let mut vars = no_vars();
    vars.polling_retry_times = Some("300".to_string());
    assert_eq!(Env::new(&vars, None).err(), Some(Error::NoDataDirectory));
    assert_eq!(
        Env::new(&vars, Some(PathBuf::from("/d"))).err(),
        Some(Error::ParseInt(IntErrorKind::PosOverflow))
    );
}

#[test]
fn builders_set_fields() {
    let mut env = Env::new(&no_vars(), Some(PathBuf::from("/data"))).unwrap();
    env.with_db_path(PathBuf::from("/other")).with_endpoints(vec!["e".to_string()]);
    assert_eq!(env.db_path, PathBuf::from("/other"));
    assert_eq!(env.endpoints, vec!["e".to_string()]);
    assert_eq!(env.block_time, 10_000);
}
