use doors::build_config::{
    CdConfiguration, Disk, DiskImageConfiguration, DiskImageConfigurationCommon, DiskImageConfigurationUnique,
    DoorsConfiguration, KernelConfig, LocalConfiguration, NetworkConfiguration,
};
use doors::cmake::{build_cmake_files, check_build_supported, vscode_settings, MasterConfig};
use doors::emulators::{Emulation, EmulatorCommon, EmulatorConfig, NoEmulator, Qemu};

fn local(tftp: Option<&str>) -> LocalConfiguration {
    LocalConfiguration {
        bochs_path: None,
        qemu_path: None,
        virtualbox_path: None,
        vboxmanage_path: None,
        gdb_path: None,
        net_devs: Vec::new(),
        serial_ports: Vec::new(),
        tftp_base: tftp.map(|t| t.to_string()),
        grub_source: "/grub".to_string(),
        target: "x86_64-unknown-linux-gnu".to_string(),
    }
}

fn os(unique: DiskImageConfigurationUnique, emulator: Emulation) -> DoorsConfiguration {
    DoorsConfiguration {
        kernel_config: KernelConfig { machine_name: "pc64".to_string(), acpi: true, gdbstub: false },
        kernel_machine: "x86_64-unknown-none".to_string(),
        user_machine: "x86_64-unknown-doors".to_string(),
        kernel_path: "x86_64-unknown-none".to_string(),
        disk: DiskImageConfiguration {
            unique,
            common: DiskImageConfigurationCommon {
                output: "./build/cd64.iso".to_string(),
                disk_label: "doors".to_string(),
                config_files: Vec::new(),
                grub_config: None,
            },
        },
        target: EmulatorCommon { emulator, config: EmulatorConfig { net_devs: Vec::new(), serial_ports: Vec::new() } },
        disassembly: true,
    }
}

#[test]
fn kernel_and_user_files() {
    let config = MasterConfig::build(
        local(None),
        os(DiskImageConfigurationUnique::Cd(CdConfiguration { kernel_path: "k".to_string() }), Emulation::NoEmulator(NoEmulator {})),
    );
    assert!(check_build_supported(&config));
    let files = build_cmake_files(&config, "/work");
    let kernel = "cmake_minimum_required(VERSION 3.22)\nproject(doors-kernel)\n\n\
add_custom_target(\n\tkernel\n\tDEPENDS user\n\tBYPRODUCTS target\n\tCOMMAND cargo +nightly build --release --target x86_64-unknown-none --bin kernel\n)\n\
add_custom_target(\n\tkernel_clippy\n\tBYPRODUCTS target\n\tCOMMAND cargo +nightly clippy --target x86_64-unknown-none\n)\n\
add_custom_target(\n\tkernel_fmt\n\tBYPRODUCTS target\n\tCOMMAND cargo +nightly fmt\n)\n\
add_custom_target(\n\tkernel_expand\n\tBYPRODUCTS target\n\tCOMMAND cargo +nightly expand > ../expanded.txt\n)\n\
add_custom_target(\n\tdisassemble\n\tDEPENDS kernel\n\tBYPRODUCTS ../disassemble.txt\n\tCOMMAND cargo objdump --release --target x86_64-unknown-none --bin kernel -q -- -d > ../disassemble.txt\n)\n";
    assert_eq!(files.kernel, kernel);
    let user = "add_custom_target(\n\tuser\n\tBYPRODUCTS target\n\tCOMMAND cargo build --release --target x86_64-unknown-doors\n)\n\
add_custom_target(\n\tuser_clippy\n\tBYPRODUCTS target\n\tCOMMAND cargo clippy --target x86_64-unknown-doors\n)\n\
add_custom_target(\n\tuser_fmt\n\tBYPRODUCTS target\n\tCOMMAND cargo fmt\n)\n";
    assert_eq!(files.user, user);
    assert!(matches!(files.disk, Disk::Cd(ref p) if p == "./build/cd64.iso"));
    assert!(files.setup.is_empty());
    assert!(files.top.starts_with("cmake_minimum_required(VERSION 3.22)\nproject(doors-os)\ninclude(ExternalProject)\nadd_subdirectory(kernel)\nadd_subdirectory(user)\nset(LOCAL_TARGET x86_64-unknown-linux-gnu)\nset(USER_TARGET x86_64-unknown-doors)\n"));
    assert!(files.top.contains("\tCOMMAND cargo run --bin kernel-stack-analysis -- --name ./kernel/target/x86_64-unknown-none/release/kernel\n)\n"));
    assert!(files.top.ends_with("\tCOMMAND rm -rf ./build/iso\n)\n"));
}

#[test]
fn top_file_with_qemu() {
    let config = MasterConfig::build(
        local(None),
        os(DiskImageConfigurationUnique::Cd(CdConfiguration { kernel_path: "k".to_string() }), Emulation::Qemu(Qemu {})),
    );
    let files = build_cmake_files(&config, "/work");
    assert_eq!(files.setup.len(), 2);
    assert!(files.top.contains("add_custom_target(\n\tboot_disk\n\tDEPENDS kernel\n"));
    assert!(files.top.ends_with("add_custom_target(\n\tgdb\n\tDEPENDS boot_disk disassemble\n\tCOMMAND gdb -x gdb_stub.gdb\n)\n"));
}

#[test]
fn network_image_needs_tftp_base() {
    let unique = || DiskImageConfigurationUnique::Network(NetworkConfiguration { tftp_relative: "doors".to_string() });
    let without = MasterConfig::build(local(None), os(unique(), Emulation::NoEmulator(NoEmulator {})));
    assert!(!check_build_supported(&without));
    let with = MasterConfig::build(local(Some("/srv/tftp")), os(unique(), Emulation::NoEmulator(NoEmulator {})));
    assert!(check_build_supported(&with));
    let files = build_cmake_files(&with, "/work");
    assert!(files.top.ends_with("add_custom_target(\n\tboot_disk_deploy\n\tDEPENDS boot_disk\n\tCOMMAND mkdir -p /srv/tftp/doors\n\tCOMMAND cp -r ./build/cd64.iso/* /srv/tftp/doors\n)\n"));
    assert!(matches!(with.os.fetch_image(), Ok(Disk::Network(_))));
}

#[test]
fn editor_settings_name_kernel_target() {
    let config = MasterConfig::build(
        local(None),
        os(DiskImageConfigurationUnique::Cd(CdConfiguration { kernel_path: "k".to_string() }), Emulation::NoEmulator(NoEmulator {})),
    );
    assert_eq!(
        vscode_settings(&config),
        "{\n\t\"rust-analyzer.cargo.allTargets\": false,\n\t\"rust-analyzer.cargo.target\": \"x86_64-unknown-none\",\n}\n"
    );
}
