use vpn::config::Config;
use vpn::config::ConfigError;
use vpn::dispatch::Assignment;
use vpn::dispatch::Lifecycle;
use vpn::dispatch::WorkerState;
use vpn::webvpn::Launch;
use vpn::webvpn::WebVPN;

fn gateway(port: u32, num_processes: u32) -> WebVPN {
    WebVPN {
        config: Config {
            port,
            num_processes,
            cache: false,
            cache_dir: String::from("cache"),
            intercept_log: false,
            disable_jump: false,
            confirm_jump: false,
            hide_chinease: false,
        },
        name: String::from("webvpn"),
    }
}

#[test]
fn address_of_the_default_port() {
    assert_eq!(gateway(8000, 4).address(), "0.0.0.0:8000");
}

#[test]
fn address_of_the_lowest_and_highest_port() {
    assert_eq!(gateway(0, 4).address(), "0.0.0.0:0");
    assert_eq!(gateway(65535, 4).address(), "0.0.0.0:65535");
}

#[test]
fn address_of_short_ports() {
    assert_eq!(gateway(7, 4).address(), "0.0.0.0:7");
    assert_eq!(gateway(80, 4).address(), "0.0.0.0:80");
    assert_eq!(gateway(443, 4).address(), "0.0.0.0:443");
}

#[test]
fn address_agrees_with_the_standard_formatting() {
    for port in (0..=65535u32).step_by(97) {
        assert_eq!(gateway(port, 1).address(), format!("0.0.0.0:{}", port));
    }
}

#[test]
fn gateway_keeps_its_name_and_configuration() {
    let g = gateway(8000, 4);
    assert_eq!(g.name, "webvpn");
    assert_eq!(g.config.port, 8000);
    assert_eq!(g.config.num_processes, 4);
    assert!(format!("{:?}", g).contains("webvpn"));
}

#[test]
fn route_answers_haha() {
    assert_eq!(
        gateway(8000, 4).route(),
        b"HTTP/1.1 200 OK\r\nContent-Length: 4\r\n\r\nhaha".to_vec()
    );
}

#[test]
fn route_answers_the_same_every_time() {
    let g = gateway(8000, 4);
    let first = g.route();
    for _ in 0..10 {
        assert_eq!(g.route(), first);
    }
    assert_eq!(gateway(1, 1).route(), first);
}

#[test]
fn respond_carries_the_text() {
    assert_eq!(
        gateway(8000, 4).respond(String::from("hello")),
        b"HTTP/1.1 200 OK\r\nContent-Length: 5\r\n\r\nhello".to_vec()
    );
}

#[test]
fn respond_to_an_empty_text() {
    assert_eq!(
        gateway(8000, 4).respond(String::new()),
        b"HTTP/1.1 200 OK\r\nContent-Length: 0\r\n\r\n".to_vec()
    );
}

#[test]
fn respond_counts_bytes_not_characters() {
    let text = String::from("h\u{e9}llo \u{4e16}\u{754c}");
    assert_eq!(text.chars().count(), 8);
    assert_eq!(text.len(), 13);
    let mut expected = b"HTTP/1.1 200 OK\r\nContent-Length: 13\r\n\r\n".to_vec();
    expected.extend_from_slice(text.as_bytes());
    assert_eq!(gateway(8000, 4).respond(text), expected);
}

#[test]
fn start_gives_the_address_and_an_idle_pool() {
    let launch: Launch<u8> = match gateway(8000, 4).start() {
        Ok(launch) => launch,
        Err(e) => panic!("{:?}", e),
    };
    assert_eq!(launch.address, "0.0.0.0:8000");
    assert_eq!(launch.pool.worker_count(), 4);
    assert_eq!(launch.pool.pending(), 0);
    assert_eq!(launch.pool.executing(), 0);
    assert_eq!(launch.pool.lifecycle(), Lifecycle::Running);
    for w in 0..4 {
        assert_eq!(launch.pool.state_of(w), Some(WorkerState::Idle));
    }
}

#[test]
fn start_with_the_default_configuration() {
    let g = WebVPN {
        config: Config::default(),
        name: String::from("webvpn"),
    };
    let mut launch: Launch<u8> = match g.start() {
        Ok(launch) => launch,
        Err(e) => panic!("{:?}", e),
    };
    assert_eq!(launch.address, "0.0.0.0:8000");
    assert_eq!(launch.pool.worker_count(), 50);
    assert_eq!(launch.pool.execute(1), Ok(()));
    assert!(matches!(launch.pool.take(49), Ok(Assignment::Run(1))));
}

#[test]
fn start_without_workers_fails() {
    match gateway(8000, 0).start::<u8>() {
        Err(e) => assert_eq!(e, ConfigError::NoWorkers),
        Ok(_) => panic!("started without workers"),
    }
}

#[test]
fn start_with_a_port_too_high_fails() {
    match gateway(65536, 4).start::<u8>() {
        Err(e) => assert_eq!(e, ConfigError::PortOutOfRange),
        Ok(_) => panic!("started on a port that does not exist"),
    }
}
