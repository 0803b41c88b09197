use sticky_situation::config::Config;
use sticky_situation::hup::{plan_reload, ReloadStep};

#[test]
fn test_config_with_data_dir() {
    let config = Config::with_data_dir("/tmp/sticky-data");
    assert_eq!(config.database_path, "/tmp/sticky-data/stickies.db");
    assert_eq!(config.conflict_log_path, "/tmp/sticky-data/conflicts.log");
    assert!(config.log_conflicts);
}

#[test]
fn test_plan_reload_not_running_launches() {
    assert!(matches!(plan_reload(false, None), ReloadStep::Launch));
    assert!(matches!(plan_reload(false, Some(false)), ReloadStep::Launch));
}

#[test]
fn test_plan_reload_running_signals_first() {
    assert!(matches!(plan_reload(true, None), ReloadStep::SendSignal));
}

#[test]
fn test_plan_reload_signal_outcome() {
    assert!(matches!(plan_reload(true, Some(true)), ReloadStep::Done));
    assert!(matches!(plan_reload(true, Some(false)), ReloadStep::Restart));
}
