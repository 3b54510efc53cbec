use code_mcp::cli::{Cli, Command};

#[test]
fn test_run_defaults() {
    let cli = Cli::parse_from(vec!["code-mcp", "run", "spec.yaml"]).unwrap();
    match cli.command {
        Command::Run {
            timeout,
            memory_limit,
            max_api_calls,
            ..
        } => {
            assert_eq!(timeout, 30);
            assert_eq!(memory_limit, 64);
            assert_eq!(max_api_calls, 100);
        }
        _ => panic!("expected Run"),
    }
}

#[test]
fn test_run_custom_limits() {
    let cli = Cli::parse_from(vec![
        "code-mcp",
        "run",
        "spec.yaml",
        "--timeout",
        "60",
        "--memory-limit",
        "128",
        "--max-api-calls",
        "50",
    ])
    .unwrap();
    match cli.command {
        Command::Run {
            timeout,
            memory_limit,
            max_api_calls,
            ..
        } => {
            assert_eq!(timeout, 60);
            assert_eq!(memory_limit, 128);
            assert_eq!(max_api_calls, 50);
        }
        _ => panic!("expected Run"),
    }
}

#[test]
fn test_serve_defaults() {
    let cli = Cli::parse_from(vec!["code-mcp", "serve", "./output"]).unwrap();
    match cli.command {
        Command::Serve {
            timeout,
            memory_limit,
            max_api_calls,
            ..
        } => {
            assert_eq!(timeout, 30);
            assert_eq!(memory_limit, 64);
            assert_eq!(max_api_calls, 100);
        }
        _ => panic!("expected Serve"),
    }
}

#[test]
fn test_generate_output_option() {
    let cli = Cli::parse_from(vec!["code-mcp", "generate", "a.yaml", "b.yaml", "-o", "./out"])
        .unwrap();
    match cli.command {
        Command::Generate { specs, output } => {
            assert_eq!(specs, vec!["a.yaml".to_string(), "b.yaml".to_string()]);
            assert_eq!(output, "./out");
        }
        _ => panic!("expected Generate"),
    }
}

#[test]
fn test_serve_port_and_transport() {
    let cli = Cli::parse_from(vec![
        "code-mcp",
        "serve",
        "./output",
        "--transport",
        "sse",
        "--port",
        "9000",
    ])
    .unwrap();
    match cli.command {
        Command::Serve {
            transport, port, ..
        } => {
            assert_eq!(transport, "sse");
            assert_eq!(port, 9000);
        }
        _ => panic!("expected Serve"),
    }
}

#[test]
fn test_parse_refusals() {
    assert!(Cli::parse_from(vec!["code-mcp"]).is_none());
    assert!(Cli::parse_from(vec!["code-mcp", "frobnicate"]).is_none());
    assert!(Cli::parse_from(vec!["code-mcp", "run"]).is_none());
    assert!(Cli::parse_from(vec!["code-mcp", "run", "spec.yaml", "--timeout"]).is_none());
    assert!(Cli::parse_from(vec!["code-mcp", "run", "spec.yaml", "--timeout", "3x"]).is_none());
    assert!(Cli::parse_from(vec!["code-mcp", "run", "spec.yaml", "--unknown-flag", "1"]).is_none());
    assert!(Cli::parse_from(vec!["code-mcp", "serve", "a", "b"]).is_none());
    assert!(
        Cli::parse_from(vec!["code-mcp", "serve", "d", "--port", "65536"]).is_none(),
        "port out of range"
    );
    assert!(Cli::parse_from(vec![
        "code-mcp",
        "run",
        "s",
        "--timeout",
        "99999999999999999999999999"
    ])
    .is_none());
}
