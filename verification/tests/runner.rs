use flatkvm_qemu::runner::{QemuRunner, QemuSharedDirType};

#[test]
fn new_runner_defaults() {
    let r = QemuRunner::new("editor".to_string());
    assert_eq!(r.get_name(), "editor");
    assert_eq!(r.get_vcpu_num(), 1);
    assert_eq!(r.get_ram_mb(), 1024);
    assert_eq!(r.get_template_path(), "/usr/share/flatkvm/template.qcow2");
    assert_eq!(r.get_kernel(), "/usr/share/flatkvm/vmlinuz.flatkvm");
    assert_eq!(r.get_agent_sock_path(), &None);
    assert_eq!(r.get_qmp_sock_path(), &None);
    assert!(r.get_network());
    assert!(r.get_audio());
    assert!(r.get_shared_dirs().is_empty());
}

#[test]
fn builder_setters() {
    let r = QemuRunner::new("editor".to_string())
        .vcpu_num(4)
        .ram_mb(2048)
        .agent_sock_path("/tmp/agent.sock".to_string())
        .qmp_sock_path("/tmp/qmp.sock".to_string())
        .audio(false)
        .network(false);
    assert_eq!(r.get_vcpu_num(), 4);
    assert_eq!(r.get_ram_mb(), 2048);
    assert_eq!(r.get_agent_sock_path(), &Some("/tmp/agent.sock".to_string()));
    assert_eq!(r.get_qmp_sock_path(), &Some("/tmp/qmp.sock".to_string()));
    assert!(!r.get_network());
    assert!(!r.get_audio());
}

#[test]
fn shared_dir_tags_are_numbered_in_order() {
    let dirs = QemuRunner::new("editor".to_string())
        .shared_dir(
            QemuSharedDirType::FlatpakAppDir,
            "/home/u/Documents".to_string(),
            false,
        )
        .shared_dir(QemuSharedDirType::FlatpakUserDir, "/home/u".to_string(), true)
        .get_shared_dirs();
    assert_eq!(dirs.len(), 2);
    assert_eq!(dirs[0].tag, "shareddir0");
    assert_eq!(dirs[0].app_name, "editor");
    assert_eq!(dirs[0].source, "/home/u/Documents");
    assert!(!dirs[0].readonly);
    assert!(matches!(dirs[0].dir_type, QemuSharedDirType::FlatpakAppDir));
    assert_eq!(dirs[1].tag, "shareddir1");
    assert_eq!(dirs[1].app_name, "editor");
    assert!(dirs[1].readonly);
}
