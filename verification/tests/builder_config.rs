use doors::build_config::{
    CdConfiguration, Disk, DiskImageConfigurationCommon, DiskImageConfigurationUnique, KernelConfig,
    LocalConfiguration, NetworkConfiguration, SerialConfig,
};

fn common(files: Vec<(String, String)>, grub: Option<&str>) -> DiskImageConfigurationCommon {
    DiskImageConfigurationCommon {
        output: "./build/disk image.iso".to_string(),
        disk_label: "doors".to_string(),
        config_files: files,
        grub_config: grub.map(|g| g.to_string()),
    }
}

fn bare_local() -> LocalConfiguration {
    LocalConfiguration {
        bochs_path: None,
        qemu_path: None,
        virtualbox_path: None,
        vboxmanage_path: None,
        gdb_path: None,
        net_devs: Vec::new(),
        serial_ports: Vec::new(),
        tftp_base: None,
        grub_source: "/usr/lib/grub/i386-pc".to_string(),
        target: "x86_64-unknown-linux-gnu".to_string(),
    }
}

#[test]
fn kernel_arch_from_machine() {
    let mut k = KernelConfig { machine_name: "pc64".to_string(), acpi: true, gdbstub: false };
    assert_eq!(k.get_arch(), "x86_64");
    k.machine_name = "stm32f769i-disco".to_string();
    assert_eq!(k.get_arch(), "arm");
    k.machine_name = "pc32".to_string();
    assert_eq!(k.get_arch(), "unknown");
}

#[test]
fn local_configuration_example() {
    let l = LocalConfiguration::default();
    assert_eq!(l.target, "x86_64-unknown-linux-gnu");
    assert_eq!(l.bochs_path(), "./optional/example/bochs/path/here");
    assert_eq!(l.gdb_path(), "./optional/example/gdb/path/here");
    assert_eq!(l.net_devs.len(), 2);
    assert_eq!(l.net_devs[1].qemu.as_ref().unwrap().dev_name, "tap1");
    assert_eq!(l.serial_ports.len(), 5);
    assert!(matches!(l.serial_ports[1], SerialConfig::TcpServer(1234)));
    assert!(matches!(l.serial_ports[4], SerialConfig::Nothing));
    assert_eq!(l.tftp_base.as_deref(), Some("./example/tftp/base"));
}

#[test]
fn local_paths_default_to_program_names() {
    let l = bare_local();
    assert_eq!(l.bochs_path(), "bochs");
    assert_eq!(l.qemu_path(), "qemu-system-x86_64");
    assert_eq!(l.virtualbox_path(), "VirtualBoxVM");
    assert_eq!(l.vboxmanage_path(), "VBoxManage");
    assert_eq!(l.gdb_path(), "gdb");
}

#[test]
fn escape_path_escapes_spaces_and_backslashes() {
    assert_eq!(LocalConfiguration::escape_path("a b\\c"), "a\\ b\\\\c");
    assert_eq!(LocalConfiguration::escape_path("plain"), "plain");
    assert_eq!(LocalConfiguration::escape_path(""), "");
}

#[test]
fn cd_image_rules() {
    let c = common(vec![("a.txt".to_string(), "./build/iso/a.txt".to_string())], None);
    let mut text = String::new();
    let r = CdConfiguration { kernel_path: "x86_64-unknown-none".to_string() }
        .build(&mut text, &c, "x86_64-unknown-none", &bare_local());
    assert!(matches!(r, Ok(Disk::Cd(ref p)) if p == "./build/disk image.iso"));
    let expected = "add_custom_target(\n\tboot_disk\n\tDEPENDS kernel\n\tBYPRODUCTS ./build/disk image.iso\n\
\tCOMMAND rm -rf ./build/iso\n\tCOMMAND mkdir -p ./build/iso/boot/grub\n\
\tCOMMAND cp grub2.lst ./build/iso/boot/grub/grub.cfg\n\
\tCOMMAND cp ./kernel/target/x86_64-unknown-none/release/kernel ./build/iso/boot/kernel\n\
\tCOMMAND rust-strip ./build/iso/boot/kernel\n\
\tCOMMAND cp \"a.txt\" \"./build/iso/a.txt\"\n\
\tCOMMAND grub-mkrescue -o ./build/disk\\ image.iso build/iso -- -volid \"doors\"\n\
\tCOMMAND rm -rf ./build/iso\n)\n";
    assert_eq!(text, expected);
}

#[test]
fn network_image_rules_and_deploy() {
    let c = common(Vec::new(), Some("my grub.cfg"));
    let mut local = bare_local();
    local.tftp_base = Some("/srv/tftp".to_string());
    let n = DiskImageConfigurationUnique::Network(NetworkConfiguration { tftp_relative: "doors".to_string() });
    let mut text = "# start\n".to_string();
    let r = n.build(&mut text, &c, "pc64", &local);
    assert!(matches!(r, Ok(Disk::Network(_))));
    let out = "./build/disk\\ image.iso";
    let expected = format!(
        "# start\nadd_custom_target(\n\tboot_disk\n\tDEPENDS kernel\n\tBYPRODUCTS ./build/disk image.iso\n\
\tCOMMAND mkdir -p ./build/net/boot\n\tCOMMAND cp /usr/lib/grub/i386-pc/* ./build/net\n\
\tCOMMAND grub-mknetdir --net-directory {out} --subdir=/boot/grub -d ./build/net\n\
\tCOMMAND cp ./kernel/target/pc64/release/kernel {out}/boot/kernel\n\
\tCOMMAND strip {out}/boot/kernel\n\
\tCOMMAND cp my\\ grub.cfg {out}/boot/grub/grub.cfg\n)\n"
    );
    assert_eq!(text, expected);
    let mut deploy = String::new();
    n.deploy(&local, &c, &mut deploy);
    assert_eq!(
        deploy,
        format!("add_custom_target(\n\tboot_disk_deploy\n\tDEPENDS boot_disk\n\tCOMMAND mkdir -p /srv/tftp/doors\n\tCOMMAND cp -r {out}/* /srv/tftp/doors\n)\n")
    );
    assert!(matches!(n.fetch(&c), Ok(Disk::Network(ref p)) if p == "./build/disk image.iso"));
}

#[test]
fn network_image_without_grub_override() {
    let c = common(Vec::new(), None);
    let mut text = String::new();
    NetworkConfiguration { tftp_relative: "x".to_string() }.build(&mut text, &c, "pc64", &bare_local()).unwrap();
    assert!(text.ends_with("\tCOMMAND cp grub2.lst ./build/disk\\ image.iso/boot/grub/grub.cfg\n)\n"));
}

#[test]
fn cd_image_has_nothing_to_deploy() {
    let c = common(Vec::new(), None);
    let cd = DiskImageConfigurationUnique::Cd(CdConfiguration { kernel_path: "k".to_string() });
    let mut text = "x".to_string();
    cd.deploy(&bare_local(), &c, &mut text);
    assert_eq!(text, "x");
    assert_eq!(c.get_config_files().len(), 0);
}
