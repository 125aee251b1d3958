use ceilex::config::{Config, ConfigError};

#[test]
fn config_rejects_duplicate_irq() {
    let mut cfg = Config::new();
    assert_eq!(cfg.bind_task(37, 2), Ok(0));
    assert_eq!(cfg.bind_task(37, 3), Err(ConfigError::DuplicateIrq));
}

#[test]
fn config_rejects_duplicate_priority() {
    let mut cfg = Config::new();
    assert_eq!(cfg.bind_task(1, 2), Ok(0));
    assert_eq!(cfg.bind_task(2, 2), Err(ConfigError::DuplicatePriority));
}

#[test]
fn config_rejects_zero_priority() {
    let mut cfg = Config::new();
    assert_eq!(cfg.bind_task(1, 0), Err(ConfigError::ZeroPriority));
}

#[test]
fn config_rejects_cell_without_users() {
    let mut cfg = Config::new();
    assert_eq!(cfg.bind_task(1, 2), Ok(0));
    assert_eq!(cfg.add_cell(0, vec![]), Err(ConfigError::NoUsers));
}

#[test]
fn config_rejects_unknown_cell_user() {
    let mut cfg = Config::new();
    assert_eq!(cfg.bind_task(1, 2), Ok(0));
    assert_eq!(cfg.add_cell(0, vec![0, 5]), Err(ConfigError::UnknownTask));
}

#[test]
fn cell_ceiling_is_greatest_user_priority() {
    let mut cfg = Config::new();
    let low = cfg.bind_task(1, 1).unwrap();
    let high = cfg.bind_task(2, 3).unwrap();
    let cell = cfg.add_cell(0, vec![low, high]).unwrap();
    assert_eq!(cfg.cells[cell].ceiling, 3);
    let lonely = cfg.add_cell(7, vec![low]).unwrap();
    assert_eq!(cfg.cells[lonely].ceiling, 1);
}

#[test]
fn bind_task_returns_consecutive_indices() {
    let mut cfg = Config::new();
    assert_eq!(cfg.bind_task(10, 1), Ok(0));
    assert_eq!(cfg.bind_task(11, 2), Ok(1));
    assert_eq!(cfg.bind_task(12, 3), Ok(2));
}
