use neutrino_ble::lan::{banner, node_config, parse_args, parse_port, readiness, storage_failure, Args, NodeConfig, PortError, Readiness};

fn argv(words: &[&str]) -> Vec<String> {
    words.iter().map(|w| w.to_string()).collect()
}

fn parsed(words: &[&str]) -> Result<Args, String> {
    parse_args(&argv(words))
}

const FULL: [&str; 7] = ["prog", "--bind", "127.0.0.1:8101", "--storage", "/tmp/lan-a", "--fed-port", "8448"];

#[test]
fn a_complete_command_line_is_taken() {
    assert_eq!(
        parsed(&FULL),
        Ok(Args {
            bind: "127.0.0.1:8101".to_string(),
            storage: "/tmp/lan-a".to_string(),
            localpart: "n".to_string(),
            server_name: None,
            fed_port: 8448,
        })
    );
    let mut words = FULL.to_vec();
    words.extend(["--localpart", "ann", "--server-name", "example.org", "--bind", "ignored"]);
    let args = parsed(&words).expect("args");
    assert_eq!(args.localpart, "ann");
    assert_eq!(args.server_name.as_deref(), Some("example.org"));
    assert_eq!(args.bind, "127.0.0.1:8101");
}

#[test]
fn what_is_missing_is_named_in_order() {
    assert_eq!(parsed(&[]), Err("missing --bind <addr:port>".to_string()));
    assert_eq!(parsed(&["prog", "--bind"]), Err("missing --bind <addr:port>".to_string()));
    assert_eq!(parsed(&["prog", "--bind", "b"]), Err("missing --storage <dir>".to_string()));
    assert_eq!(
        parsed(&["prog", "--bind", "b", "--storage", "s"]),
        Err("missing --fed-port <port> (without it federation never uses the mesh)".to_string())
    );
    // The word after a flag is its value, whatever it looks like.
    let odd = parsed(&["--bind", "--storage", "s", "--fed-port", "1"]).expect("args");
    assert_eq!((odd.bind.as_str(), odd.storage.as_str()), ("--storage", "s"));
}

#[test]
fn a_bad_port_is_refused_with_its_fault() {
    for (port, fault) in [
        ("", "cannot parse integer from empty string"),
        ("x", "invalid digit found in string"),
        ("65536", "number too large to fit in target type"),
    ] {
        let got = parsed(&["prog", "--bind", "b", "--storage", "s", "--fed-port", port]);
        assert_eq!(got, Err(format!("--fed-port: {fault}")));
    }
}

#[test]
fn help_comes_before_everything_else() {
    let usage = |program: &str| {
        format!(
            "usage: {program} --bind <addr:port> --storage <dir> --fed-port <port> \\\n            [--localpart n] [--server-name <name>]"
        )
    };
    assert_eq!(parsed(&["prog", "-h"]), Err(usage("prog")));
    let mut words = FULL.to_vec();
    words.push("--help");
    assert_eq!(parsed(&words), Err(usage("prog")));
    assert_eq!(parsed(&["-h"]), Err(usage("-h")));
}

#[test]
fn ports_are_read_as_the_standard_library_reads_them() {
    let mut texts: Vec<String> = (0..=70_000u32).step_by(7).map(|n| n.to_string()).collect();
    let alphabet = ["", "+", "-", "0", "1", "9", "65535", "65536", "6553", " ", "x", "é", "٣", "00000000"];
    for a in alphabet {
        for b in alphabet {
            for c in alphabet {
                texts.push(format!("{a}{b}{c}"));
            }
        }
    }
    for text in texts {
        let expected = text.parse::<u16>().map_err(|e| e.to_string());
        let got = parse_port(&text).map_err(|e| e.message().to_string());
        assert_eq!(got, expected, "port {text:?}");
    }
}

#[test]
fn every_port_can_be_given() {
    for port in 0..=u16::MAX {
        assert_eq!(parse_port(&port.to_string()), Ok(port));
    }
    assert_eq!(parse_port("+8448"), Ok(8448));
    assert_eq!(parse_port("65536"), Err(PortError::PosOverflow));
}

#[test]
fn the_node_is_signed_and_federates_over_the_mesh() {
    let mut words = FULL.to_vec();
    words.extend(["--server-name", "example.org"]);
    let args = parsed(&words).expect("args");
    assert_eq!(
        node_config(&args),
        NodeConfig {
            bind_addr: "127.0.0.1:8101".to_string(),
            localpart: "n".to_string(),
            server_name: Some("example.org".to_string()),
            storage_dir: "/tmp/lan-a".to_string(),
            outbound_concurrency: 8,
            trusted_network: false,
            lb_federation_port: Some(8448),
            log_dir: None,
            delivery_receipts: true,
        }
    );
    assert_eq!(node_config(&parsed(&FULL).expect("args")).server_name, None);
    assert_eq!(banner(&args), "neutrino-lan cs-api 127.0.0.1:8101 federation :8448 (storage /tmp/lan-a)");
}

#[test]
fn a_name_is_readiness_and_an_error_comes_before_the_deadline() {
    let name = || Some("abc".to_string());
    let error = || Some("reused storage".to_string());
    for expired in [false, true] {
        assert_eq!(readiness(name(), None, expired), Readiness::Ready { name: "abc".to_string() });
        assert_eq!(readiness(name(), error(), expired), Readiness::Ready { name: "abc".to_string() });
        assert_eq!(
            readiness(None, error(), expired),
            Readiness::Failed { message: "neutrino refused to start: reused storage".to_string() }
        );
    }
    assert_eq!(
        readiness(None, None, true),
        Readiness::Failed { message: "neutrino did not report a server name within 30s".to_string() }
    );
    assert_eq!(readiness(None, None, false), Readiness::Wait);
    assert_eq!(storage_failure("/x", "denied"), "cannot create storage dir /x: denied");
}
