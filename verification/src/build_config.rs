//! The configuration of a build of the operating system, and the build rules that it produces
//! for the kernel, the user programs and the disk images.

use vstd::prelude::*;
use crate::text::{escape_path, escaped, path_debug, path_debug_text, path_push, path_pushed};

verus! {

/// The configuration entries for the kernel.
pub struct KernelConfig {
    /// The name of the machine the kernel is built for
    pub machine_name: String,
    /// Is acpi support built in
    pub acpi: bool,
    /// Is the gdb stub built in
    pub gdbstub: bool,
}

/// The architecture that goes with a machine name.
pub open spec fn arch_of(machine: Seq<char>) -> Seq<char> {
    if machine == "stm32f769i-disco"@ {
        "arm"@
    } else if machine == "pc64"@ {
        "x86_64"@
    } else {
        "unknown"@
    }
}

impl KernelConfig {
    /// Returns the architecture that is supposed to be used for the machine
    pub fn get_arch(&self) -> (r: String)
        ensures
            r@ == arch_of(self.machine_name@),
    {
        if self.machine_name.eq(&String::from_str("stm32f769i-disco")) {
            String::from_str("arm")
        } else if self.machine_name.eq(&String::from_str("pc64")) {
            String::from_str("x86_64")
        } else {
            String::from_str("unknown")
        }
    }
}

/// The configuration for a qemu network
pub struct QemuNetworkConfig {
    /// The network type
    pub net_type: String,
    /// The device name
    pub dev_name: String,
}

/// A configuration for a single local network card used by an emulator
pub struct NetworkConfig {
    /// The configuration string for bochs
    pub bochs: Option<String>,
    /// The configuration string for qemu
    pub qemu: Option<QemuNetworkConfig>,
    /// The configuration string for virtualbox
    pub virtualbox: Option<String>,
}

/// A configuration for a single local serial port used by an emulator
pub enum SerialConfig {
    /// The serial port output goes to a file
    File(String),
    /// The serial port is made available by a tcp server on the specified port
    TcpServer(u16),
    /// The serial port is made available by a tcp client on the specified port
    TcpClient(u16),
    /// A physical serial port
    Real(String),
    /// A non-existant serial port that goes nowhere
    Nothing,
}

/// Configuration specific to the build machine
pub struct LocalConfiguration {
    /// The binary for bochs
    pub bochs_path: Option<String>,
    /// The binary for qemu
    pub qemu_path: Option<String>,
    /// The binary for virtualbox
    pub virtualbox_path: Option<String>,
    /// The binary for vboxmanage, to manage virtualbox images
    pub vboxmanage_path: Option<String>,
    /// The binary for gdb
    pub gdb_path: Option<String>,
    /// Network devices that can be used by emulators
    pub net_devs: Vec<NetworkConfig>,
    /// Serial ports that can be used by emulators
    pub serial_ports: Vec<SerialConfig>,
    /// Optional base path the tftp server for deploying network images
    pub tftp_base: Option<String>,
    /// where to find the files for the grub command to make the netboot image
    pub grub_source: String,
    /// The target for the local system
    pub target: String,
}

/// A configured program path, or the given name when none is configured.
pub open spec fn path_or(p: Option<String>, default: Seq<char>) -> Seq<char> {
    match p {
        Some(s) => s@,
        None => default,
    }
}

/// An optional string holds the given text.
pub open spec fn holds(o: Option<String>, text: Seq<char>) -> bool {
    o matches Some(s) && s@ == text
}

/// A serial port configuration that writes to the given file.
pub open spec fn serial_is_file(p: SerialConfig, name: Seq<char>) -> bool {
    p matches SerialConfig::File(f) && f@ == name
}

/// A serial port configuration of a physical port.
pub open spec fn serial_is_real(p: SerialConfig, name: Seq<char>) -> bool {
    p matches SerialConfig::Real(f) && f@ == name
}

/// A network card configuration with the given texts for each emulator.
pub open spec fn network_is(
    n: NetworkConfig,
    bochs: Seq<char>,
    net_type: Seq<char>,
    dev_name: Seq<char>,
    virtualbox: Seq<char>,
) -> bool {
    &&& holds(n.bochs, bochs)
    &&& n.qemu matches Some(q) && q.net_type@ == net_type && q.dev_name@ == dev_name
    &&& holds(n.virtualbox, virtualbox)
}

fn example_network(bochs: &str, dev_name: &str, virtualbox: &str) -> (r: NetworkConfig)
    ensures
        network_is(r, bochs@, "tap"@, dev_name@, virtualbox@),
{
    NetworkConfig {
        bochs: Some(String::from_str(bochs)),
        qemu: Some(
            QemuNetworkConfig {
                net_type: String::from_str("tap"),
                dev_name: String::from_str(dev_name),
            },
        ),
        virtualbox: Some(String::from_str(virtualbox)),
    }
}

impl Default for LocalConfiguration {
    /// An example configuration, written for a build machine that has none yet
    fn default() -> (r: Self)
        ensures
            r.target@ == "x86_64-unknown-linux-gnu"@,
            holds(r.bochs_path, "./optional/example/bochs/path/here"@),
            holds(r.qemu_path, "./optional/example/qemu/path/here"@),
            holds(r.virtualbox_path, "./optional/example/virtualbox/path/here"@),
            holds(r.vboxmanage_path, "./optional/example/vboxmanage/path/here"@),
            holds(r.gdb_path, "./optional/example/gdb/path/here"@),
            r.net_devs@.len() == 2,
            network_is(r.net_devs@[0], "bochs_net_config"@, "tap"@, "tap0"@, "virtualbox_net_config"@),
            network_is(r.net_devs@[1], "bochs_net_config2"@, "tap"@, "tap1"@, "virtualbox_net_config2"@),
            r.serial_ports@.len() == 5,
            serial_is_file(r.serial_ports@[0], "./example/serial/file.log"@),
            r.serial_ports@[1] == SerialConfig::TcpServer(1234),
            r.serial_ports@[2] == SerialConfig::TcpClient(1235),
            serial_is_real(r.serial_ports@[3], "/dev/fakeport0"@),
            r.serial_ports@[4] == SerialConfig::Nothing,
            holds(r.tftp_base, "./example/tftp/base"@),
            r.grub_source@ == "./example/grub/source"@,
    {
        let net_devs = vec![
            example_network("bochs_net_config", "tap0", "virtualbox_net_config"),
            example_network("bochs_net_config2", "tap1", "virtualbox_net_config2"),
        ];
        let serial_ports = vec![
            SerialConfig::File(String::from_str("./example/serial/file.log")),
            SerialConfig::TcpServer(1234),
            SerialConfig::TcpClient(1235),
            SerialConfig::Real(String::from_str("/dev/fakeport0")),
            SerialConfig::Nothing,
        ];
        Self {
            target: String::from_str("x86_64-unknown-linux-gnu"),
            bochs_path: Some(String::from_str("./optional/example/bochs/path/here")),
            qemu_path: Some(String::from_str("./optional/example/qemu/path/here")),
            virtualbox_path: Some(String::from_str("./optional/example/virtualbox/path/here")),
            vboxmanage_path: Some(String::from_str("./optional/example/vboxmanage/path/here")),
            gdb_path: Some(String::from_str("./optional/example/gdb/path/here")),
            net_devs,
            serial_ports,
            tftp_base: Some(String::from_str("./example/tftp/base")),
            grub_source: String::from_str("./example/grub/source"),
        }
    }
}

/// The configured path, or the default program name.
fn configured_or(p: &Option<String>, default: &str) -> (r: String)
    ensures
        r@ == path_or(*p, default@),
{
    match p {
        Some(s) => s.clone(),
        None => String::from_str(default),
    }
}

impl LocalConfiguration {
    /// Put escapes into a path containing \ and " "
    pub fn escape_path(path: &str) -> (r: String)
        ensures
            r@ == escaped(path@),
    {
        escape_path(path)
    }

    /// Get the path for the bochs binary
    pub fn bochs_path(&self) -> (r: String)
        ensures
            r@ == path_or(self.bochs_path, "bochs"@),
    {
        configured_or(&self.bochs_path, "bochs")
    }

    /// Get the path for the qemu binary
    pub fn qemu_path(&self) -> (r: String)
        ensures
            r@ == path_or(self.qemu_path, "qemu-system-x86_64"@),
    {
        configured_or(&self.qemu_path, "qemu-system-x86_64")
    }

    /// Get the path for the virtualbox binary
    pub fn virtualbox_path(&self) -> (r: String)
        ensures
            r@ == path_or(self.virtualbox_path, "VirtualBoxVM"@),
    {
        configured_or(&self.virtualbox_path, "VirtualBoxVM")
    }

    /// Get the path for the vboxmanage binary
    pub fn vboxmanage_path(&self) -> (r: String)
        ensures
            r@ == path_or(self.vboxmanage_path, "VBoxManage"@),
    {
        configured_or(&self.vboxmanage_path, "VBoxManage")
    }

    /// Get the path for the gdb binary
    pub fn gdb_path(&self) -> (r: String)
        ensures
            r@ == path_or(self.gdb_path, "gdb"@),
    {
        configured_or(&self.gdb_path, "gdb")
    }
}

/// A disk image that was built, by the path of its image
pub enum Disk {
    /// A standard bootable cd
    Cd(String),
    /// A pxe bootable network image
    Network(String),
}

/// A configuration for building a cd image
pub struct CdConfiguration {
    /// Where to put the kernel image
    pub kernel_path: String,
}

/// A configuration for building a network boot image
pub struct NetworkConfiguration {
    /// Where in the tftp to copy the image to
    pub tftp_relative: String,
}

/// The configuration required to build an operating system disk image
pub enum DiskImageConfigurationUnique {
    /// A bootable cd
    Cd(CdConfiguration),
    /// A network bootable image
    Network(NetworkConfiguration),
}

/// The configuration common to all disk images
pub struct DiskImageConfigurationCommon {
    /// Where to save the disk image
    pub output: String,
    /// What to label the disk image with
    pub disk_label: String,
    /// Generic files to put on the disk, source and destination names
    pub config_files: Vec<(String, String)>,
    /// Optional Grub config override for the source filename
    pub grub_config: Option<String>,
}

/// The configuration data required to build a disk image
pub struct DiskImageConfiguration {
    /// configuration data that varies between disk images
    pub unique: DiskImageConfigurationUnique,
    /// configuration data common to all disk images
    pub common: DiskImageConfigurationCommon,
}

/// The text of the build rules for the user programs, appended to `text`.
pub open spec fn user_rules(text: Seq<char>, target: Seq<char>) -> Seq<char> {
    text + "add_custom_target(\n"@ + "\tuser\n"@ + "\tBYPRODUCTS target\n"@
        + "\tCOMMAND cargo build --release --target "@ + target + "\n"@ + ")\n"@
        + "add_custom_target(\n"@ + "\tuser_clippy\n"@ + "\tBYPRODUCTS target\n"@
        + "\tCOMMAND cargo clippy --target "@ + target + "\n"@ + ")\n"@
        + "add_custom_target(\n"@ + "\tuser_fmt\n"@ + "\tBYPRODUCTS target\n"@
        + "\tCOMMAND cargo fmt\n"@ + ")\n"@
}

/// The text of the build rules for the kernel, appended to `text`.
pub open spec fn kernel_rules(text: Seq<char>, target: Seq<char>) -> Seq<char> {
    text + "add_custom_target(\n"@ + "\tkernel\n"@ + "\tDEPENDS user\n"@
        + "\tBYPRODUCTS target\n"@ + "\tCOMMAND cargo +nightly build --release --target "@
        + target + " --bin kernel\n"@ + ")\n"@
        + "add_custom_target(\n"@ + "\tkernel_clippy\n"@ + "\tBYPRODUCTS target\n"@
        + "\tCOMMAND cargo +nightly clippy --target "@ + target + "\n"@ + ")\n"@
        + "add_custom_target(\n"@ + "\tkernel_fmt\n"@ + "\tBYPRODUCTS target\n"@
        + "\tCOMMAND cargo +nightly fmt\n"@ + ")\n"@
        + "add_custom_target(\n"@ + "\tkernel_expand\n"@ + "\tBYPRODUCTS target\n"@
        + "\tCOMMAND cargo +nightly expand > ../expanded.txt\n"@ + ")\n"@
}

/// The text of the build rule for the kernel disassembly, appended to `text`.
pub open spec fn disassembly_rules(text: Seq<char>, target: Seq<char>) -> Seq<char> {
    text + "add_custom_target(\n"@ + "\tdisassemble\n"@ + "\tDEPENDS kernel\n"@
        + "\tBYPRODUCTS ../disassemble.txt\n"@ + "\tCOMMAND cargo objdump --release --target "@
        + target + " --bin kernel -q -- -d > ../disassemble.txt\n"@ + ")\n"@
}

/// The disk image that a disk configuration gives, by the path of its output.
pub open spec fn disk_of(unique: DiskImageConfigurationUnique, output: String) -> Disk {
    match unique {
        DiskImageConfigurationUnique::Cd(_) => Disk::Cd(output),
        DiskImageConfigurationUnique::Network(_) => Disk::Network(output),
    }
}

/// The commands that copy the configured files, appended to `text`.
pub open spec fn copy_lines(text: Seq<char>, files: Seq<(String, String)>) -> Seq<char>
    decreases files.len(),
{
    if files.len() == 0 {
        text
    } else {
        copy_lines(text, files.drop_last()) + "\tCOMMAND cp "@ + path_debug_text(files.last().0@)
            + " "@ + path_debug_text(files.last().1@) + "\n"@
    }
}

/// Append the commands that copy the configured files.
fn push_copy_lines(cmakelists: &mut String, files: &Vec<(String, String)>)
    ensures
        final(cmakelists)@ == copy_lines(old(cmakelists)@, files@),
{
    let ghost start = cmakelists@;
    let mut i: usize = 0;
    while i < files.len()
        invariant
            i <= files.len(),
            cmakelists@ == copy_lines(start, files@.take(i as int)),
        decreases files.len() - i,
    {
        assert(files@.take(i + 1).drop_last() =~= files@.take(i as int));
        cmakelists.append("\tCOMMAND cp ");
        cmakelists.append(&path_debug(files[i].0.as_str()));
        cmakelists.append(" ");
        cmakelists.append(&path_debug(files[i].1.as_str()));
        cmakelists.append("\n");
        i = i + 1;
    }
    assert(files@.take(files@.len() as int) =~= files@);
}

/// The rules that build a cd image, appended to `text`.
pub open spec fn cd_rules(
    text: Seq<char>,
    common: DiskImageConfigurationCommon,
    kernel_path: Seq<char>,
) -> Seq<char> {
    copy_lines(
        text + "add_custom_target(\n"@ + "\tboot_disk\n"@ + "\tDEPENDS kernel\n"@
            + "\tBYPRODUCTS "@ + common.output@ + "\n"@ + "\tCOMMAND rm -rf ./build/iso\n"@
            + "\tCOMMAND mkdir -p "@ + "./build/iso/boot/grub"@ + "\n"@
            + "\tCOMMAND cp grub2.lst ./build/iso/boot/grub/grub.cfg\n"@
            + "\tCOMMAND cp ./kernel/target/"@ + kernel_path
            + "/release/kernel ./build/iso/boot/kernel\n"@
            + "\tCOMMAND rust-strip ./build/iso/boot/kernel\n"@,
        common.config_files@,
    ) + "\tCOMMAND grub-mkrescue -o "@ + escaped(common.output@) + " build/iso -- -volid \""@
        + common.disk_label@ + "\"\n"@ + "\tCOMMAND rm -rf ./build/iso\n"@ + ")\n"@
}

/// The rules that build a network boot image, appended to `text`.
pub open spec fn network_rules(
    text: Seq<char>,
    common: DiskImageConfigurationCommon,
    kernel_path: Seq<char>,
    local: LocalConfiguration,
) -> Seq<char> {
    let out = escaped(common.output@);
    let copied = copy_lines(
        text + "add_custom_target(\n"@ + "\tboot_disk\n"@ + "\tDEPENDS kernel\n"@
            + "\tBYPRODUCTS "@ + common.output@ + "\n"@
            + "\tCOMMAND mkdir -p "@ + "./build/net/boot"@ + "\n"@
            + "\tCOMMAND cp "@ + local.grub_source@ + "/* ./build/net\n"@
            + "\tCOMMAND grub-mknetdir --net-directory "@ + out
            + " --subdir=/boot/grub -d ./build/net\n"@
            + "\tCOMMAND cp ./kernel/target/"@ + kernel_path + "/release/kernel "@ + out
            + "/boot/kernel\n"@ + "\tCOMMAND strip "@ + out + "/boot/kernel\n"@,
        common.config_files@,
    );
    match common.grub_config {
        Some(g) => copied + "\tCOMMAND cp "@ + escaped(g@) + " "@ + out
            + "/boot/grub/grub.cfg\n"@ + ")\n"@,
        None => copied + "\tCOMMAND cp grub2.lst "@ + out + "/boot/grub/grub.cfg\n"@ + ")\n"@,
    }
}

/// The rule that deploys a network boot image to the tftp server, appended to `text`.
pub open spec fn deploy_rules(
    text: Seq<char>,
    tftp: Seq<char>,
    common: DiskImageConfigurationCommon,
) -> Seq<char> {
    text + "add_custom_target(\n"@ + "\tboot_disk_deploy\n"@ + "\tDEPENDS boot_disk\n"@
        + "\tCOMMAND mkdir -p "@ + tftp + "\n"@ + "\tCOMMAND cp -r "@ + escaped(common.output@)
        + "/* "@ + tftp + "\n"@ + ")\n"@
}

impl DiskImageConfigurationCommon {
    /// Get the source and destination paths of the files to put on the disk
    pub fn get_config_files(&self) -> (r: Vec<(String, String)>)
        ensures
            r@ == self.config_files@,
    {
        let mut r: Vec<(String, String)> = Vec::new();
        let mut i: usize = 0;
        while i < self.config_files.len()
            invariant
                i <= self.config_files.len(),
                r@ == self.config_files@.take(i as int),
            decreases self.config_files.len() - i,
        {
            let a = &self.config_files[i];
            r.push((a.0.clone(), a.1.clone()));
            assert(r@ =~= self.config_files@.take(i + 1));
            i = i + 1;
        }
        assert(self.config_files@.take(self.config_files@.len() as int) =~= self.config_files@);
        r
    }
}

impl CdConfiguration {
    /// Nothing is deployed for a cd image
    pub fn deploy(
        &self,
        _local: &LocalConfiguration,
        _common: &DiskImageConfigurationCommon,
        _cmakelists: &mut String,
    )
        ensures
            *final(_cmakelists) == *old(_cmakelists),
    {
    }

    /// The cd image that was built before
    pub fn fetch(&self, common: &DiskImageConfigurationCommon) -> (r: Result<Disk, String>)
        ensures
            r == Ok::<Disk, String>(Disk::Cd(common.output)),
    {
        Ok(Disk::Cd(common.output.clone()))
    }

    /// Append the rules that build a bootable cd image
    pub fn build(
        &self,
        cmakelists: &mut String,
        common: &DiskImageConfigurationCommon,
        kernel_path: &str,
        _local: &LocalConfiguration,
    ) -> (r: Result<Disk, String>)
        ensures
            final(cmakelists)@ == cd_rules(old(cmakelists)@, *common, kernel_path@),
            r == Ok::<Disk, String>(Disk::Cd(common.output)),
    {
        cmakelists.append("add_custom_target(\n");
        cmakelists.append("\tboot_disk\n");
        cmakelists.append("\tDEPENDS kernel\n");
        cmakelists.append("\tBYPRODUCTS ");
        cmakelists.append(common.output.as_str());
        cmakelists.append("\n");
        cmakelists.append("\tCOMMAND rm -rf ./build/iso\n");
        cmakelists.append("\tCOMMAND mkdir -p ");
        cmakelists.append("./build/iso/boot/grub");
        cmakelists.append("\n");
        cmakelists.append("\tCOMMAND cp grub2.lst ./build/iso/boot/grub/grub.cfg\n");
        cmakelists.append("\tCOMMAND cp ./kernel/target/");
        cmakelists.append(kernel_path);
        cmakelists.append("/release/kernel ./build/iso/boot/kernel\n");
        cmakelists.append("\tCOMMAND rust-strip ./build/iso/boot/kernel\n");
        let files = common.get_config_files();
        push_copy_lines(cmakelists, &files);
        cmakelists.append("\tCOMMAND grub-mkrescue -o ");
        cmakelists.append(&escape_path(common.output.as_str()));
        cmakelists.append(" build/iso -- -volid \"");
        cmakelists.append(common.disk_label.as_str());
        cmakelists.append("\"\n");
        cmakelists.append("\tCOMMAND rm -rf ./build/iso\n");
        cmakelists.append(")\n");
        Ok(Disk::Cd(common.output.clone()))
    }
}

impl NetworkConfiguration {
    /// Append the rule that copies the network image into the tftp server
    pub fn deploy(
        &self,
        local: &LocalConfiguration,
        common: &DiskImageConfigurationCommon,
        cmakelists: &mut String,
    )
        requires
            local.tftp_base is Some,
        ensures
            final(cmakelists)@ == deploy_rules(
                old(cmakelists)@,
                path_pushed(local.tftp_base->0@, self.tftp_relative@),
                *common,
            ),
    {
        let base = match &local.tftp_base {
            Some(b) => b,
            None => { return; },
        };
        let pa = path_push(base.as_str(), self.tftp_relative.as_str());
        cmakelists.append("add_custom_target(\n");
        cmakelists.append("\tboot_disk_deploy\n");
        cmakelists.append("\tDEPENDS boot_disk\n");
        cmakelists.append("\tCOMMAND mkdir -p ");
        cmakelists.append(pa.as_str());
        cmakelists.append("\n");
        cmakelists.append("\tCOMMAND cp -r ");
        cmakelists.append(&escape_path(common.output.as_str()));
        cmakelists.append("/* ");
        cmakelists.append(pa.as_str());
        cmakelists.append("\n");
        cmakelists.append(")\n");
    }

    /// The network image that was built before
    pub fn fetch(&self, common: &DiskImageConfigurationCommon) -> (r: Result<Disk, String>)
        ensures
            r == Ok::<Disk, String>(Disk::Network(common.output)),
    {
        Ok(Disk::Network(common.output.clone()))
    }

    /// Append the rules that build a network boot image
    pub fn build(
        &self,
        cmakelists: &mut String,
        common: &DiskImageConfigurationCommon,
        kernel_path: &str,
        local: &LocalConfiguration,
    ) -> (r: Result<Disk, String>)
        ensures
            final(cmakelists)@ == network_rules(old(cmakelists)@, *common, kernel_path@, *local),
            r == Ok::<Disk, String>(Disk::Network(common.output)),
    {
        let out = escape_path(common.output.as_str());
        cmakelists.append("add_custom_target(\n");
        cmakelists.append("\tboot_disk\n");
        cmakelists.append("\tDEPENDS kernel\n");
        cmakelists.append("\tBYPRODUCTS ");
        cmakelists.append(common.output.as_str());
        cmakelists.append("\n");
        cmakelists.append("\tCOMMAND mkdir -p ");
        cmakelists.append("./build/net/boot");
        cmakelists.append("\n");
        cmakelists.append("\tCOMMAND cp ");
        cmakelists.append(local.grub_source.as_str());
        cmakelists.append("/* ./build/net\n");
        cmakelists.append("\tCOMMAND grub-mknetdir --net-directory ");
        cmakelists.append(out.as_str());
        cmakelists.append(" --subdir=/boot/grub -d ./build/net\n");
        cmakelists.append("\tCOMMAND cp ./kernel/target/");
        cmakelists.append(kernel_path);
        cmakelists.append("/release/kernel ");
        cmakelists.append(out.as_str());
        cmakelists.append("/boot/kernel\n");
        cmakelists.append("\tCOMMAND strip ");
        cmakelists.append(out.as_str());
        cmakelists.append("/boot/kernel\n");
        let files = common.get_config_files();
        push_copy_lines(cmakelists, &files);
        match &common.grub_config {
            Some(g) => {
                cmakelists.append("\tCOMMAND cp ");
                cmakelists.append(&escape_path(g.as_str()));
                cmakelists.append(" ");
                cmakelists.append(out.as_str());
                cmakelists.append("/boot/grub/grub.cfg\n");
                cmakelists.append(")\n");
            },
            None => {
                cmakelists.append("\tCOMMAND cp grub2.lst ");
                cmakelists.append(out.as_str());
                cmakelists.append("/boot/grub/grub.cfg\n");
                cmakelists.append(")\n");
            },
        }
        Ok(Disk::Network(common.output.clone()))
    }
}

/// The rules that a disk configuration appends to `text` to build its image.
pub open spec fn disk_rules(
    text: Seq<char>,
    unique: DiskImageConfigurationUnique,
    common: DiskImageConfigurationCommon,
    kernel_path: Seq<char>,
    local: LocalConfiguration,
) -> Seq<char> {
    match unique {
        DiskImageConfigurationUnique::Cd(_) => cd_rules(text, common, kernel_path),
        DiskImageConfigurationUnique::Network(_) => network_rules(text, common, kernel_path, local),
    }
}

/// A disk configuration can be deployed with the local configuration: a network image needs
/// a tftp base path.
pub open spec fn deploy_supported(
    unique: DiskImageConfigurationUnique,
    local: LocalConfiguration,
) -> bool {
    unique is Network ==> local.tftp_base is Some
}

/// The rules that a disk configuration appends to `text` to deploy its image.
pub open spec fn disk_deploy_rules(
    text: Seq<char>,
    unique: DiskImageConfigurationUnique,
    common: DiskImageConfigurationCommon,
    local: LocalConfiguration,
) -> Seq<char> {
    match unique {
        DiskImageConfigurationUnique::Cd(_) => text,
        DiskImageConfigurationUnique::Network(n) => deploy_rules(
            text,
            path_pushed(local.tftp_base->0@, n.tftp_relative@),
            common,
        ),
    }
}

impl DiskImageConfigurationUnique {
    /// Append the rules that build the disk image
    pub fn build(
        &self,
        cmakelists: &mut String,
        common: &DiskImageConfigurationCommon,
        kernel_machine: &str,
        local: &LocalConfiguration,
    ) -> (r: Result<Disk, String>)
        ensures
            final(cmakelists)@ == disk_rules(old(cmakelists)@, *self, *common, kernel_machine@, *local),
            r == Ok::<Disk, String>(disk_of(*self, common.output)),
    {
        match self {
            DiskImageConfigurationUnique::Cd(c) => c.build(cmakelists, common, kernel_machine, local),
            DiskImageConfigurationUnique::Network(n) => n.build(
                cmakelists,
                common,
                kernel_machine,
                local,
            ),
        }
    }

    /// Fetch an existing disk image
    pub fn fetch(&self, common: &DiskImageConfigurationCommon) -> (r: Result<Disk, String>)
        ensures
            r == Ok::<Disk, String>(disk_of(*self, common.output)),
    {
        match self {
            DiskImageConfigurationUnique::Cd(c) => c.fetch(common),
            DiskImageConfigurationUnique::Network(n) => n.fetch(common),
        }
    }

    /// Append the rules that deploy the disk image, where that applies
    pub fn deploy(
        &self,
        local: &LocalConfiguration,
        common: &DiskImageConfigurationCommon,
        cmakelists: &mut String,
    )
        requires
            deploy_supported(*self, *local),
        ensures
            final(cmakelists)@ == disk_deploy_rules(old(cmakelists)@, *self, *common, *local),
    {
        match self {
            DiskImageConfigurationUnique::Cd(c) => c.deploy(local, common, cmakelists),
            DiskImageConfigurationUnique::Network(n) => n.deploy(local, common, cmakelists),
        }
    }
}

/// The configuration for building doors
pub struct DoorsConfiguration {
    /// The configuration for the kernel
    pub kernel_config: KernelConfig,
    /// The machine name to use for building the kernel
    pub kernel_machine: String,
    /// The machine name to use for building user programs
    pub user_machine: String,
    /// The output path for the machine used to build the kernel
    pub kernel_path: String,
    /// The configuration required to build a disk image
    pub disk: DiskImageConfiguration,
    /// The target for running the final disk image
    pub target: crate::emulators::EmulatorCommon,
    /// Should the disassembly be created
    pub disassembly: bool,
}

impl DoorsConfiguration {
    /// Build the user code for the operating system
    pub fn build_user(&self, cmakelists: &mut String, target: &str)
        ensures
            final(cmakelists)@ == user_rules(old(cmakelists)@, target@),
    {
        cmakelists.append("add_custom_target(\n");
        cmakelists.append("\tuser\n");
        cmakelists.append("\tBYPRODUCTS target\n");
        cmakelists.append("\tCOMMAND cargo build --release --target ");
        cmakelists.append(target);
        cmakelists.append("\n");
        cmakelists.append(")\n");
        cmakelists.append("add_custom_target(\n");
        cmakelists.append("\tuser_clippy\n");
        cmakelists.append("\tBYPRODUCTS target\n");
        cmakelists.append("\tCOMMAND cargo clippy --target ");
        cmakelists.append(target);
        cmakelists.append("\n");
        cmakelists.append(")\n");
        cmakelists.append("add_custom_target(\n");
        cmakelists.append("\tuser_fmt\n");
        cmakelists.append("\tBYPRODUCTS target\n");
        cmakelists.append("\tCOMMAND cargo fmt\n");
        cmakelists.append(")\n");
    }

    /// Build the kernel for the operating system
    pub fn build_kernel(&self, cmakelists: &mut String, target: &str)
        ensures
            final(cmakelists)@ == kernel_rules(old(cmakelists)@, target@),
    {
        cmakelists.append("add_custom_target(\n");
        cmakelists.append("\tkernel\n");
        cmakelists.append("\tDEPENDS user\n");
        cmakelists.append("\tBYPRODUCTS target\n");
        cmakelists.append("\tCOMMAND cargo +nightly build --release --target ");
        cmakelists.append(target);
        cmakelists.append(" --bin kernel\n");
        cmakelists.append(")\n");
        cmakelists.append("add_custom_target(\n");
        cmakelists.append("\tkernel_clippy\n");
        cmakelists.append("\tBYPRODUCTS target\n");
        cmakelists.append("\tCOMMAND cargo +nightly clippy --target ");
        cmakelists.append(target);
        cmakelists.append("\n");
        cmakelists.append(")\n");
        cmakelists.append("add_custom_target(\n");
        cmakelists.append("\tkernel_fmt\n");
        cmakelists.append("\tBYPRODUCTS target\n");
        cmakelists.append("\tCOMMAND cargo +nightly fmt\n");
        cmakelists.append(")\n");
        cmakelists.append("add_custom_target(\n");
        cmakelists.append("\tkernel_expand\n");
        cmakelists.append("\tBYPRODUCTS target\n");
        cmakelists.append("\tCOMMAND cargo +nightly expand > ../expanded.txt\n");
        cmakelists.append(")\n");
    }

    /// Build the disassembly for the kernel
    pub fn build_kernel_disassembly(&self, cmakelists: &mut String, target: &str)
        ensures
            final(cmakelists)@ == disassembly_rules(old(cmakelists)@, target@),
    {
        cmakelists.append("add_custom_target(\n");
        cmakelists.append("\tdisassemble\n");
        cmakelists.append("\tDEPENDS kernel\n");
        cmakelists.append("\tBYPRODUCTS ../disassemble.txt\n");
        cmakelists.append("\tCOMMAND cargo objdump --release --target ");
        cmakelists.append(target);
        cmakelists.append(" --bin kernel -q -- -d > ../disassemble.txt\n");
        cmakelists.append(")\n");
    }

    /// Fetch the disk image for the operating system
    pub fn fetch_image(&self) -> (r: Result<Disk, String>)
        ensures
            r == Ok::<Disk, String>(disk_of(self.disk.unique, self.disk.common.output)),
    {
        self.disk.unique.fetch(&self.disk.common)
    }
}

} // verus!
