use vpn::config::Config;
use vpn::config::ConfigError;
use vpn::config::DEFAULT_PORT;
use vpn::config::DEFAULT_WORKERS;
use vpn::config::MAX_PORT;

fn config(port: u32, num_processes: u32) -> Config {
    Config {
        port,
        num_processes,
        cache: false,
        cache_dir: String::from("cache"),
        intercept_log: false,
        disable_jump: false,
        confirm_jump: false,
        hide_chinease: false,
    }
}

#[test]
fn default_constants() {
    assert_eq!(DEFAULT_PORT, 8000);
    assert_eq!(DEFAULT_WORKERS, 50);
    assert_eq!(MAX_PORT, 65535);
}

#[test]
fn default_config() {
    let c = Config::default();
    assert_eq!(c.port, 8000);
    assert_eq!(c.num_processes, 50);
    assert!(!c.cache);
    assert_eq!(c.cache_dir, "cache");
    assert!(!c.intercept_log);
    assert!(!c.disable_jump);
    assert!(!c.confirm_jump);
    assert!(!c.hide_chinease);
    assert_eq!(c.check(), Ok(()));
}

#[test]
fn config_keeps_what_it_was_given() {
    let c = Config {
        port: 8000,
        num_processes: 4,
        cache: true,
        cache_dir: String::from("store"),
        intercept_log: true,
        disable_jump: false,
        confirm_jump: true,
        hide_chinease: false,
    };
    assert_eq!(c.check(), Ok(()));
    assert_eq!(c.port, 8000);
    assert_eq!(c.num_processes, 4);
    assert!(c.cache);
    assert_eq!(c.cache_dir, "store");
    assert!(c.intercept_log);
    assert!(!c.disable_jump);
    assert!(c.confirm_jump);
    assert!(!c.hide_chinease);
}

#[test]
fn config_without_workers_is_refused() {
    assert_eq!(config(8000, 0).check(), Err(ConfigError::NoWorkers));
}

#[test]
fn config_with_one_worker_is_accepted() {
    assert_eq!(config(8000, 1).check(), Ok(()));
}

#[test]
fn config_with_a_port_too_high_is_refused() {
    assert_eq!(config(65536, 4).check(), Err(ConfigError::PortOutOfRange));
    assert_eq!(config(u32::MAX, 4).check(), Err(ConfigError::PortOutOfRange));
}

#[test]
fn config_with_the_highest_and_lowest_port_is_accepted() {
    assert_eq!(config(65535, 4).check(), Ok(()));
    assert_eq!(config(0, 4).check(), Ok(()));
}

#[test]
fn config_names_the_missing_worker_first() {
    assert_eq!(config(70000, 0).check(), Err(ConfigError::NoWorkers));
}

#[test]
fn config_can_be_printed() {
    let text = format!("{:?}", config(8000, 4));
    assert!(text.contains("port: 8000"));
    assert!(text.contains("num_processes: 4"));
}
