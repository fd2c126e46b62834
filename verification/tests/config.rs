use carpool::BatchConfig;
use std::time::Duration;

#[test]
fn default_config_matches_documented_values() {
    let cfg = BatchConfig::default();

    assert_eq!(cfg.window, Duration::from_millis(30));
    assert_eq!(cfg.max_batch_size.get(), 1024);
    assert_eq!(cfg.timeout, Duration::from_secs(30));
    assert_eq!(cfg.concurrency_limit, None);
    assert_eq!(cfg.max_waiting, None);
}
