use debugger_core::debug_format::{
    AttachConfig, CustomArgs, DebugAdapterKind, DebugConnectionType, DebugRequestType,
    DebugShellTask, Ipv4Address, TCPHost,
};

#[test]
fn test_attach_config_of_request_type() {
    assert_eq!(DebugRequestType::Launch.attach_config(), None);
    let cfg = AttachConfig { process_id: Some(42) };
    assert_eq!(DebugRequestType::Attach(cfg).attach_config(), Some(cfg));
    assert_eq!(DebugRequestType::default(), DebugRequestType::Launch);
    assert_eq!(AttachConfig::default().process_id, None);
}

#[test]
fn test_tcp_host_falls_back_to_loopback() {
    let bare = TCPHost::default();
    assert_eq!(bare.port, None);
    assert_eq!(bare.timeout, None);
    assert_eq!(bare.host(), Ipv4Address { octets: [127, 0, 0, 1] });
    let fixed = TCPHost {
        port: Some(4711),
        host: Some(Ipv4Address { octets: [10, 0, 0, 7] }),
        timeout: Some(2000),
    };
    assert_eq!(fixed.host(), Ipv4Address { octets: [10, 0, 0, 7] });
}

#[test]
fn test_connection_type_default_is_tcp() {
    assert_eq!(DebugConnectionType::default(), DebugConnectionType::TCP(TCPHost::default()));
}

#[test]
fn test_display_names() {
    let host = TCPHost::default();
    let custom = CustomArgs {
        connection: DebugConnectionType::STDIO,
        command: "adapter".to_string(),
        args: None,
        envs: None,
    };
    assert_eq!(DebugAdapterKind::Custom(custom).display_name(), "Custom");
    assert_eq!(DebugAdapterKind::Python(host).display_name(), "Python");
    assert_eq!(DebugAdapterKind::Php(host).display_name(), "PHP");
    assert_eq!(DebugAdapterKind::Javascript(host).display_name(), "JavaScript");
    assert_eq!(DebugAdapterKind::Go(host).display_name(), "Go");
    assert_eq!(DebugAdapterKind::Lldb.display_name(), "LLDB");
    assert_eq!(DebugAdapterKind::Gdb.display_name(), "GDB");
}

#[test]
fn test_shell_task_holds_plain_values() {
    let task = DebugShellTask {
        command: "cargo".to_string(),
        args: Some(vec!["build".to_string()]),
        envs: None,
    };
    assert_eq!(task.command, "cargo");
    assert_eq!(task.args.as_deref(), Some(&["build".to_string()][..]));
    assert!(task.envs.is_none());
}
