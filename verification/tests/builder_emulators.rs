use doors::build_config::{Disk, LocalConfiguration, NetworkConfig, SerialConfig};
use doors::emulators::{Bochs, Emulation, EmulatorConfig, NoEmulator, Qemu, SetupAction, VirtualBox};

fn show(a: &SetupAction) -> String {
    match a {
        SetupAction::RemoveFile(f) => format!("rm {}", f),
        SetupAction::Run(words) => format!("run {}", words.join(" ")),
        SetupAction::WriteFile(f, c) => format!("write {}\n{}", f, c),
    }
}

fn local() -> LocalConfiguration {
    LocalConfiguration {
        bochs_path: Some("/opt/bochs bin/bochs".to_string()),
        qemu_path: None,
        virtualbox_path: None,
        vboxmanage_path: None,
        gdb_path: None,
        net_devs: vec![NetworkConfig { bochs: Some("tap0".to_string()), qemu: None, virtualbox: Some("vboxnet0".to_string()) }],
        serial_ports: vec![
            SerialConfig::File("serial.log".to_string()),
            SerialConfig::TcpServer(1234),
            SerialConfig::Real("/dev/ttyS0".to_string()),
            SerialConfig::Nothing,
        ],
        tftp_base: None,
        grub_source: String::new(),
        target: "x86_64-unknown-linux-gnu".to_string(),
    }
}

#[test]
fn bochs_configuration_file() {
    let common = EmulatorConfig { net_devs: vec![0], serial_ports: vec![0, 3, 2] };
    let l = local();
    let disk = Disk::Cd("cd64.iso".to_string());
    let acts = Bochs {}.build_config(&disk, &common, &l, "kernel");
    assert_eq!(acts.len(), 1);
    let expected = "write ./bochs_config.txt\n\
romimage: file=\"/usr/share/seabios/bios-256k.bin\"\n\
vgaromimage: file =\"/usr/share/seabios/vgabios-bochs-display.bin\"\n\
e1000: enabled=1, mac=52:54:00:12:34:56, ethmod=linux, ethdev=tap0\n\
com1: enabled=1, mode=file, dev=serial.log\n\
com3: enabled=1, mode=raw, dev=/dev/ttyS0\n\
debug_symbols: file=./symbols_bochs\n\
magic_break: enabled=1\n\
#debug: action=ignore, e1000a=report\n\
ata0-slave: type=cdrom, path=cd64.iso, status=inserted\n\
boot: cdrom\n";
    assert_eq!(show(&acts[0]), expected);
    assert_eq!(Bochs {}.simple_name(), "bochs");
}

#[test]
fn bochs_refuses_tcp_serial_ports() {
    let l = local();
    let tcp = EmulatorConfig { net_devs: vec![], serial_ports: vec![1] };
    assert!(!Emulation::Bochs(Bochs {}).supported(&tcp, &l));
    let unknown = EmulatorConfig { net_devs: vec![3], serial_ports: vec![] };
    assert!(!Emulation::Bochs(Bochs {}).supported(&unknown, &l));
    let fine = EmulatorConfig { net_devs: vec![0], serial_ports: vec![0] };
    assert!(Emulation::Bochs(Bochs {}).supported(&fine, &l));
    assert!(Emulation::Qemu(Qemu {}).supported(&tcp, &l));
}

#[test]
fn bochs_run_rule_escapes_the_binary() {
    let mut text = String::new();
    let common = EmulatorConfig { net_devs: vec![], serial_ports: vec![] };
    Emulation::Bochs(Bochs {}).run(&mut text, &common, &local(), "k");
    assert_eq!(
        text,
        "add_custom_target(\n\trun\n\tDEPENDS boot_disk disassemble debug_symbols_kernel\n\tCOMMAND /opt/bochs\\ bin/bochs -f bochs_config.txt -q\n)\n"
    );
    let mut sym = String::new();
    Emulation::Bochs(Bochs {}).custom_debug_symbols(&mut sym, "./kernel/target/k/release/kernel");
    assert_eq!(
        sym,
        "add_custom_target(\n\tdebug_symbols_kernel\n\tBYPRODUCTS target\n\tCOMMAND cargo +nightly run --bin bochs-debug -- --binary=./kernel/target/k/release/kernel --output=./symbols_bochs\n)\n"
    );
    let mut none = String::new();
    Emulation::Qemu(Qemu {}).custom_debug_symbols(&mut none, "k");
    assert_eq!(none, "");
}

#[test]
fn qemu_writes_gdb_scripts_and_rules() {
    let common = EmulatorConfig { net_devs: vec![], serial_ports: vec![] };
    let l = local();
    let acts = Qemu {}.build_config(&Disk::Cd("x".to_string()), &common, &l, "kernel.elf");
    assert_eq!(acts.len(), 2);
    assert_eq!(
        show(&acts[0]),
        "write ./gdb_config.gdb\nadd-symbol-file kernel.elf\ndefine exit\n\tmonitor quit\n\tquit\nend\ndisp /i $pc\ntarget remote :1234\n"
    );
    assert_eq!(show(&acts[1]), "write ./gdb_stub.gdb\nadd-symbol-file kernel.elf\ndisp /i $pc\ntarget remote :12345 \n");
    let run = Qemu {}.get_common_run(&l);
    assert_eq!(
        run,
        "qemu-system-x86_64 -cdrom cd64.iso -m 8 -serial file:serial.log -serial tcp::1234,server,nowait,nodelay -netdev user,id=u1 -device e1000,netdev=u1"
    );
    let mut text = String::new();
    Qemu {}.run(&mut text, &common, &l, "k");
    assert!(text.starts_with(&format!("add_custom_target(\n\trun\n\tDEPENDS boot_disk disassemble\n\tCOMMAND {}\n)\n", run)));
    assert!(text.contains(&format!("\tCOMMAND {} -s -S\n)\n", run)));
    assert!(text.ends_with("add_custom_target(\n\tgdb\n\tDEPENDS boot_disk disassemble\n\tCOMMAND gdb -x gdb_stub.gdb\n)\n"));
    assert_eq!(Qemu {}.simple_name(), "qemu");
}

#[test]
fn virtualbox_setup_commands() {
    assert_eq!(VirtualBox::get_serial_port_details(0), (0x3f8, 4));
    assert_eq!(VirtualBox::get_serial_port_details(1), (0x2f8, 3));
    assert_eq!(VirtualBox::get_serial_port_details(2), (0x3e8, 4));
    assert_eq!(VirtualBox::get_serial_port_details(3), (0x2e8, 3));
    let common = EmulatorConfig { net_devs: vec![0], serial_ports: vec![1] };
    let l = local();
    let acts = VirtualBox {}.build_config(&Disk::Cd("cd64.iso".to_string()), &common, &l, "kernel.elf", "/work");
    let shown: Vec<String> = acts.iter().map(show).collect();
    let expected = vec![
        "rm ./doors-os-64/doors-os-64.vbox".to_string(),
        "run VBoxManage createvm --name doors-os-64 --ostype \"Doors\" --register --basefolder /work".to_string(),
        "run VBoxManage modifyvm doors-os-64 --uart1 760 3 --uartmode1 tcpserver 1234".to_string(),
        "run VBoxManage modifyvm doors-os-64 --nic1 hostonly --hostonlyadapter1 vboxnet0".to_string(),
        "run VBoxManage modifyvm doors-os-64 --macaddress1 525400123456".to_string(),
        "run VBoxManage modifyvm doors-os-64 --nictype1 82540EM".to_string(),
        "run VBoxManage storagectl doors-os-64 --name \"IDE Controller\" --add ide --controller PIIX4".to_string(),
        "run VBoxManage storageattach doors-os-64 --storagectl \"IDE Controller\" --port 1 --device 0 --type dvddrive --medium cd64.iso".to_string(),
        "write ./gdb_config.gdb\nadd-symbol-file kernel.elf\ndisp /i $pc\ntarget remote :12345\n".to_string(),
    ];
    assert_eq!(shown, expected);
    let too_many = EmulatorConfig { net_devs: vec![], serial_ports: vec![0, 0, 0, 0] };
    assert!(!Emulation::VirtualBox(VirtualBox {}).supported(&too_many, &l));
    assert_eq!(VirtualBox {}.simple_name(), "virtualbox");
}

#[test]
fn no_emulator_does_nothing() {
    let common = EmulatorConfig { net_devs: vec![7], serial_ports: vec![9] };
    let l = local();
    let e = Emulation::NoEmulator(NoEmulator {});
    assert!(e.supported(&common, &l));
    assert!(e.build_config(&Disk::Network("n".to_string()), &common, &l, "k", "/w").is_empty());
    let mut text = "x".to_string();
    e.run(&mut text, &common, &l, "k");
    assert_eq!(text, "x");
}
