//! The emulators that run the operating system: the configuration files and commands that set
//! each one up, and the build rules that run it.

use vstd::prelude::*;
use crate::build_config::{Disk, LocalConfiguration, SerialConfig, path_or};
use crate::text::{decimal, decimal_string, escape_path, escaped, push_decimal};

verus! {

/// Common config for emulators
pub struct EmulatorConfig {
    /// The nodes to use for network devices in the emulator
    pub net_devs: Vec<usize>,
    /// The items to use for serial port emulation
    pub serial_ports: Vec<usize>,
}

/// The bochs emulator
pub struct Bochs {}

/// The qemu emulator
pub struct Qemu {}

/// The virtualbox emulator
pub struct VirtualBox {}

/// An emulation target that does nothing
pub struct NoEmulator {}

/// Specifies how the operating system is to be emulated or run
pub enum Emulation {
    /// The bochs emulator
    Bochs(Bochs),
    /// Qemu emulator
    Qemu(Qemu),
    /// Virtualbox emulator
    VirtualBox(VirtualBox),
    /// No emulator, do nothing (successfully)
    NoEmulator(NoEmulator),
}

/// The holder of the emulation enum and the common configuration for all emulator types
pub struct EmulatorCommon {
    /// The actual emulation implementation
    pub emulator: Emulation,
    /// Common config for all emulators
    pub config: EmulatorConfig,
}

/// One step of setting up an emulator on the build machine, in the order given.
pub enum SetupAction {
    /// Remove a file, if it is there
    RemoveFile(String),
    /// Run a program (the first item) with arguments (the rest)
    Run(Vec<String>),
    /// Write a file (its path, then its contents)
    WriteFile(String, String),
}

/// The text of a setup step.
pub enum ActionView {
    /// Remove the file at this path
    RemoveFile(Seq<char>),
    /// Run this program with these arguments
    Run(Seq<Seq<char>>),
    /// Write these contents to this path
    WriteFile(Seq<char>, Seq<char>),
}

impl View for SetupAction {
    type V = ActionView;

    open spec fn view(&self) -> ActionView {
        match self {
            SetupAction::RemoveFile(p) => ActionView::RemoveFile(p@),
            SetupAction::Run(v) => ActionView::Run(v.deep_view()),
            SetupAction::WriteFile(p, c) => ActionView::WriteFile(p@, c@),
        }
    }
}

/// The text of a list of setup steps.
pub open spec fn actions_view(a: Seq<SetupAction>) -> Seq<ActionView> {
    a.map_values(|x: SetupAction| x@)
}

proof fn lemma_actions_push(a: Seq<SetupAction>, x: SetupAction)
    ensures
        actions_view(a.push(x)) == actions_view(a).push(x@),
{
    assert(actions_view(a.push(x)) =~= actions_view(a).push(x@));
}

/// Append a step to a list of setup steps.
fn push_action(out: &mut Vec<SetupAction>, x: SetupAction)
    ensures
        actions_view(final(out)@) == actions_view(old(out)@).push(x@),
{
    proof {
        lemma_actions_push(out@, x);
    }
    out.push(x);
}

/// Every network card that the emulator uses is one of the local cards.
pub open spec fn nets_known(common: EmulatorConfig, local: LocalConfiguration) -> bool {
    forall|k: int| 0 <= k < common.net_devs@.len() ==> common.net_devs@[k] < local.net_devs@.len()
}

/// Every serial port that the emulator uses is one of the local ports.
pub open spec fn serials_known(common: EmulatorConfig, local: LocalConfiguration) -> bool {
    forall|k: int|
        0 <= k < common.serial_ports@.len() ==> common.serial_ports@[k] < local.serial_ports@.len()
}

/// The local serial port used as the emulator's `k`-th port.
pub open spec fn used_serial(
    common: EmulatorConfig,
    local: LocalConfiguration,
    k: int,
) -> SerialConfig {
    local.serial_ports@[common.serial_ports@[k] as int]
}

// ------------------------------------------------------------------------------------------
// bochs
// ------------------------------------------------------------------------------------------

/// The bochs lines for the network cards with these indices, appended to `text`.
pub open spec fn bochs_net_lines(
    text: Seq<char>,
    nets: Seq<usize>,
    local: LocalConfiguration,
) -> Seq<char>
    decreases nets.len(),
{
    if nets.len() == 0 {
        text
    } else {
        bochs_net_lines(text, nets.drop_last(), local)
            + "e1000: enabled=1, mac=52:54:00:12:34:56, ethmod=linux, ethdev="@
            + local.net_devs@[nets.last() as int].bochs->0@ + "\n"@
    }
}

/// The bochs lines for the serial ports with these indices, appended to `text`; ports are
/// numbered from one.
pub open spec fn bochs_serial_lines(
    text: Seq<char>,
    ports: Seq<usize>,
    local: LocalConfiguration,
) -> Seq<char>
    decreases ports.len(),
{
    if ports.len() == 0 {
        text
    } else {
        let prev = bochs_serial_lines(text, ports.drop_last(), local);
        let i = ports.len();
        match local.serial_ports@[ports.last() as int] {
            SerialConfig::File(f) => prev + "com"@ + decimal(i) + ": enabled=1, mode=file, dev="@
                + f@ + "\n"@,
            SerialConfig::Real(p) => prev + "com"@ + decimal(i) + ": enabled=1, mode=raw, dev="@
                + p@ + "\n"@,
            _ => prev,
        }
    }
}

/// Bochs can run with this configuration: the network cards it uses have a bochs setting,
/// and no serial port it uses is a tcp port.
pub open spec fn bochs_supported(common: EmulatorConfig, local: LocalConfiguration) -> bool {
    &&& nets_known(common, local)
    &&& serials_known(common, local)
    &&& forall|k: int|
        0 <= k < common.net_devs@.len() ==> (#[trigger] local.net_devs@[common.net_devs@[k] as int]).bochs is Some
    &&& forall|k: int|
        0 <= k < common.serial_ports@.len() ==> !(#[trigger] used_serial(common, local, k) is TcpServer)
            && !(used_serial(common, local, k) is TcpClient)
}

/// The bochs configuration file.
pub open spec fn bochs_config_text(
    disk: Disk,
    common: EmulatorConfig,
    local: LocalConfiguration,
) -> Seq<char> {
    let start = Seq::<char>::empty() + "romimage: file=\"/usr/share/seabios/bios-256k.bin\"\n"@
        + "vgaromimage: file =\"/usr/share/seabios/vgabios-bochs-display.bin\"\n"@;
    let with_ports = bochs_serial_lines(
        bochs_net_lines(start, common.net_devs@, local),
        common.serial_ports@,
        local,
    );
    let t = with_ports + "debug_symbols: file=./symbols_bochs\n"@ + "magic_break: enabled=1\n"@
        + "#debug: action=ignore, e1000a=report\n"@;
    match disk {
        Disk::Cd(p) => t + "ata0-slave: type=cdrom, path="@ + p@ + ", status=inserted\n"@
            + "boot: cdrom\n"@,
        Disk::Network(_) => t,
    }
}

/// The rule that builds the bochs debug symbols, appended to `text`.
pub open spec fn bochs_symbols_rules(text: Seq<char>, s: Seq<char>) -> Seq<char> {
    text + "add_custom_target(\n"@ + "\tdebug_symbols_kernel\n"@ + "\tBYPRODUCTS target\n"@
        + "\tCOMMAND cargo +nightly run --bin bochs-debug -- --binary="@ + s
        + " --output=./symbols_bochs\n"@ + ")\n"@
}

/// The rule that runs bochs, appended to `text`.
pub open spec fn bochs_run_rules(text: Seq<char>, local: LocalConfiguration) -> Seq<char> {
    text + "add_custom_target(\n"@ + "\trun\n"@
        + "\tDEPENDS boot_disk disassemble debug_symbols_kernel\n"@ + "\tCOMMAND "@
        + escaped(path_or(local.bochs_path, "bochs"@)) + " -f bochs_config.txt -q\n"@ + ")\n"@
}

impl Bochs {
    /// Append the rule that builds the debug symbols bochs reads
    pub fn custom_debug_symbols(&self, cmakelists: &mut String, s: &str)
        ensures
            final(cmakelists)@ == bochs_symbols_rules(old(cmakelists)@, s@),
    {
        cmakelists.append("add_custom_target(\n");
        cmakelists.append("\tdebug_symbols_kernel\n");
        cmakelists.append("\tBYPRODUCTS target\n");
        cmakelists.append("\tCOMMAND cargo +nightly run --bin bochs-debug -- --binary=");
        cmakelists.append(s);
        cmakelists.append(" --output=./symbols_bochs\n");
        cmakelists.append(")\n");
    }

    /// The bochs configuration file for a disk and the ports and cards it uses
    pub fn config_text(
        &self,
        disk: &Disk,
        common: &EmulatorConfig,
        local: &LocalConfiguration,
    ) -> (r: String)
        requires
            bochs_supported(*common, *local),
        ensures
            r@ == bochs_config_text(*disk, *common, *local),
    {
        let mut config = String::new();
        config.append("romimage: file=\"/usr/share/seabios/bios-256k.bin\"\n");
        config.append("vgaromimage: file =\"/usr/share/seabios/vgabios-bochs-display.bin\"\n");
        let ghost start = config@;
        let mut k: usize = 0;
        while k < common.net_devs.len()
            invariant
                bochs_supported(*common, *local),
                k <= common.net_devs.len(),
                config@ == bochs_net_lines(start, common.net_devs@.take(k as int), *local),
            decreases common.net_devs.len() - k,
        {
            let nid = common.net_devs[k];
            assert(common.net_devs@.take(k + 1).drop_last() =~= common.net_devs@.take(k as int));
            let ghost used = local.net_devs@[common.net_devs@[k as int] as int];
            assert(used.bochs is Some);
            match &local.net_devs[nid].bochs {
                Some(name) => {
                    config.append("e1000: enabled=1, mac=52:54:00:12:34:56, ethmod=linux, ethdev=");
                    config.append(name.as_str());
                    config.append("\n");
                },
                None => {},
            }
            k = k + 1;
        }
        assert(common.net_devs@.take(common.net_devs@.len() as int) =~= common.net_devs@);
        let ghost after_nets = config@;
        let mut k: usize = 0;
        while k < common.serial_ports.len()
            invariant
                bochs_supported(*common, *local),
                k <= common.serial_ports.len(),
                config@ == bochs_serial_lines(after_nets, common.serial_ports@.take(k as int), *local),
            decreases common.serial_ports.len() - k,
        {
            let sid = common.serial_ports[k];
            assert(common.serial_ports@.take(k + 1).drop_last() =~= common.serial_ports@.take(
                k as int,
            ));
            assert(common.serial_ports@.take(k + 1).len() == k + 1);
            let ghost _u = used_serial(*common, *local, k as int);
            match &local.serial_ports[sid] {
                SerialConfig::File(f) => {
                    config.append("com");
                    push_decimal(&mut config, (k + 1) as u64);
                    config.append(": enabled=1, mode=file, dev=");
                    config.append(f.as_str());
                    config.append("\n");
                },
                SerialConfig::Real(p) => {
                    config.append("com");
                    push_decimal(&mut config, (k + 1) as u64);
                    config.append(": enabled=1, mode=raw, dev=");
                    config.append(p.as_str());
                    config.append("\n");
                },
                _ => {},
            }
            k = k + 1;
        }
        assert(common.serial_ports@.take(common.serial_ports@.len() as int)
            =~= common.serial_ports@);
        config.append("debug_symbols: file=./symbols_bochs\n");
        config.append("magic_break: enabled=1\n");
        config.append("#debug: action=ignore, e1000a=report\n");
        match disk {
            Disk::Cd(p) => {
                config.append("ata0-slave: type=cdrom, path=");
                config.append(p.as_str());
                config.append(", status=inserted\n");
                config.append("boot: cdrom\n");
            },
            Disk::Network(_p) => {},
        }
        config
    }

    /// The steps that set bochs up: writing its configuration file
    pub fn build_config(
        &self,
        disk: &Disk,
        common: &EmulatorConfig,
        local: &LocalConfiguration,
        _s: &str,
    ) -> (r: Vec<SetupAction>)
        requires
            bochs_supported(*common, *local),
        ensures
            actions_view(r@) == seq![
                ActionView::WriteFile(
                    "./bochs_config.txt"@,
                    bochs_config_text(*disk, *common, *local),
                ),
            ],
    {
        let config = self.config_text(disk, common, local);
        let mut r: Vec<SetupAction> = Vec::new();
        push_action(&mut r, SetupAction::WriteFile(String::from_str("./bochs_config.txt"), config));
        assert(actions_view(Seq::<SetupAction>::empty()) =~= Seq::<ActionView>::empty());
        r
    }

    /// Append the rule that runs bochs
    pub fn run(
        &self,
        cmakelists: &mut String,
        _common: &EmulatorConfig,
        local: &LocalConfiguration,
        _s: &str,
    )
        ensures
            final(cmakelists)@ == bochs_run_rules(old(cmakelists)@, *local),
    {
        cmakelists.append("add_custom_target(\n");
        cmakelists.append("\trun\n");
        cmakelists.append("\tDEPENDS boot_disk disassemble debug_symbols_kernel\n");
        cmakelists.append("\tCOMMAND ");
        cmakelists.append(&LocalConfiguration::escape_path(local.bochs_path().as_str()));
        cmakelists.append(" -f bochs_config.txt -q\n");
        cmakelists.append(")\n");
    }

    /// The short name of this emulator
    pub fn simple_name(&self) -> (r: &'static str)
        ensures
            r@ == "bochs"@,
    {
        "bochs"
    }
}

// ------------------------------------------------------------------------------------------
// qemu
// ------------------------------------------------------------------------------------------

/// The command line that runs qemu, without the debug options.
pub open spec fn qemu_common_run(local: LocalConfiguration) -> Seq<char> {
    Seq::<char>::empty() + escaped(path_or(local.qemu_path, "qemu-system-x86_64"@)) + " "@
        + "-cdrom cd64.iso -m 8 -serial file:serial.log -serial tcp::1234,server,nowait,nodelay -netdev user,id=u1 -device e1000,netdev=u1"@
}

/// The gdb script that connects to the qemu gdb stub.
pub open spec fn qemu_gdb_config(s: Seq<char>) -> Seq<char> {
    Seq::<char>::empty() + "add-symbol-file "@ + s + "\n"@
        + "define exit\n\tmonitor quit\n\tquit\nend\n"@ + "disp /i $pc\n"@
        + "target remote :1234\n"@
}

/// The gdb script that connects to the kernel's own gdb stub.
pub open spec fn qemu_gdb_stub(s: Seq<char>) -> Seq<char> {
    Seq::<char>::empty() + "add-symbol-file "@ + s + "\n"@ + "disp /i $pc\n"@
        + "target remote :12345 \n"@
}

/// The files that setting qemu up writes: the two gdb scripts.
pub open spec fn qemu_setup(s: Seq<char>) -> Seq<ActionView> {
    seq![
        ActionView::WriteFile("./gdb_config.gdb"@, qemu_gdb_config(s)),
        ActionView::WriteFile("./gdb_stub.gdb"@, qemu_gdb_stub(s)),
    ]
}

/// The rule that runs gdb with the script `script` as the target `name`.
pub open spec fn gdb_rule(name: Seq<char>, gdb: Seq<char>, script: Seq<char>) -> Seq<char> {
    "\t"@ + name + "\n"@ + "\tDEPENDS boot_disk disassemble\n"@ + "\tCOMMAND "@ + gdb + " -x "@ + script
        + "\n"@
}

/// `a` is where `b` begins.
pub proof fn lemma_prefix_of_add(a: Seq<char>, b: Seq<char>)
    ensures
        a.is_prefix_of(a + b),
{
    assert((a + b).subrange(0, a.len() as int) =~= a);
}

/// Where a sequence begins, a longer one that begins with it begins too.
pub proof fn lemma_prefix_trans(a: Seq<char>, b: Seq<char>, c: Seq<char>)
    requires
        a.is_prefix_of(b),
        b.is_prefix_of(c),
    ensures
        a.is_prefix_of(c),
{
    assert(c.subrange(0, a.len() as int) =~= b.subrange(0, a.len() as int));
}

/// A sequence that begins with `pre + block` is `pre`, then `block`, then the rest.
pub proof fn lemma_split_at_prefix(whole: Seq<char>, pre: Seq<char>, block: Seq<char>)
    requires
        (pre + block).is_prefix_of(whole),
    ensures
        whole == pre + block + whole.skip((pre + block).len() as int),
{
    assert(whole =~= pre + block + whole.skip((pre + block).len() as int));
}

/// The debug2 target of qemu's run rules runs gdb with the script, among those that setting
/// qemu up writes, whose last command attaches to port 1234: the gdb server of the qemu that
/// the debug target starts halted (`-s -S`).
pub proof fn lemma_qemu_debug2_attaches(text: Seq<char>, local: LocalConfiguration, s: Seq<char>)
    ensures
        exists|k: int, script: Seq<char>, body: Seq<char>, pre: Seq<char>, post: Seq<char>|
            0 <= k < qemu_setup(s).len() && qemu_setup(s)[k] == ActionView::WriteFile(
                "./"@ + script,
                body + "target remote :1234\n"@,
            ) && qemu_run_rules(text, local) == pre + gdb_rule(
                "debug2"@,
                escaped(path_or(local.gdb_path, "gdb"@)),
                script,
            ) + post,
{
    let rules = qemu_run_rules(text, local);
    let gdb = escaped(path_or(local.gdb_path, "gdb"@));
    let run = qemu_common_run(local);
    let cfg = "gdb_config.gdb"@;
    lemma_debug2_names();
    let pre = text + "add_custom_target(\n"@ + "\trun\n"@ + "\tDEPENDS boot_disk disassemble\n"@
        + (Seq::<char>::empty() + "\tCOMMAND "@ + run) + "\n)\n"@ + "add_custom_target(\n"@
        + "\tdebug\n"@ + "\tDEPENDS boot_disk disassemble\n"@ + (Seq::<char>::empty()
        + "\tCOMMAND "@ + run + " -s -S"@) + "\n)\n"@ + "add_custom_target(\n"@;
    let x = pre + "\tdebug2\n"@ + "\tDEPENDS boot_disk disassemble\n"@ + "\tCOMMAND "@ + gdb
        + " -x gdb_config.gdb\n"@;
    let x1 = x + ")\n"@;
    let x2 = x1 + "add_custom_target(\n"@;
    let x3 = x2 + "\tgdb\n"@;
    let x4 = x3 + "\tDEPENDS boot_disk disassemble\n"@;
    let x5 = x4 + "\tCOMMAND "@;
    let x6 = x5 + gdb;
    let x7 = x6 + " -x gdb_stub.gdb\n"@;
    assert(rules == x7 + ")\n"@);
    lemma_prefix_of_add(x, ")\n"@);
    lemma_prefix_of_add(x1, "add_custom_target(\n"@);
    lemma_prefix_of_add(x2, "\tgdb\n"@);
    lemma_prefix_of_add(x3, "\tDEPENDS boot_disk disassemble\n"@);
    lemma_prefix_of_add(x4, "\tCOMMAND "@);
    lemma_prefix_of_add(x5, gdb);
    lemma_prefix_of_add(x6, " -x gdb_stub.gdb\n"@);
    lemma_prefix_of_add(x7, ")\n"@);
    lemma_prefix_trans(x, x1, x2);
    lemma_prefix_trans(x, x2, x3);
    lemma_prefix_trans(x, x3, x4);
    lemma_prefix_trans(x, x4, x5);
    lemma_prefix_trans(x, x5, x6);
    lemma_prefix_trans(x, x6, x7);
    lemma_prefix_trans(x, x7, rules);
    let block = gdb_rule("debug2"@, gdb, cfg);
    assert(x =~= pre + block);
    lemma_split_at_prefix(rules, pre, block);
    let c1 = Seq::<char>::empty() + "add-symbol-file "@ + s + "\n"@
        + "define exit\n\tmonitor quit\n\tquit\nend\n"@ + "disp /i $pc\n"@;
    assert(qemu_setup(s)[0] == ActionView::WriteFile("./"@ + cfg, c1 + "target remote :1234\n"@));
}

/// The gdb target of qemu's run rules runs gdb with the script, among those that setting qemu
/// up writes, whose last command attaches to the kernel's own gdb stub on port 12345.
pub proof fn lemma_qemu_gdb_attaches_stub(text: Seq<char>, local: LocalConfiguration, s: Seq<char>)
    ensures
        exists|k: int, script: Seq<char>, body: Seq<char>, pre: Seq<char>, post: Seq<char>|
            0 <= k < qemu_setup(s).len() && qemu_setup(s)[k] == ActionView::WriteFile(
                "./"@ + script,
                body + "target remote :12345 \n"@,
            ) && qemu_run_rules(text, local) == pre + gdb_rule(
                "gdb"@,
                escaped(path_or(local.gdb_path, "gdb"@)),
                script,
            ) + post,
{
    let rules = qemu_run_rules(text, local);
    let gdb = escaped(path_or(local.gdb_path, "gdb"@));
    let run = qemu_common_run(local);
    let stub = "gdb_stub.gdb"@;
    lemma_gdb_names();
    let pre = text + "add_custom_target(\n"@ + "\trun\n"@ + "\tDEPENDS boot_disk disassemble\n"@
        + (Seq::<char>::empty() + "\tCOMMAND "@ + run) + "\n)\n"@ + "add_custom_target(\n"@
        + "\tdebug\n"@ + "\tDEPENDS boot_disk disassemble\n"@ + (Seq::<char>::empty()
        + "\tCOMMAND "@ + run + " -s -S"@) + "\n)\n"@ + "add_custom_target(\n"@
        + "\tdebug2\n"@ + "\tDEPENDS boot_disk disassemble\n"@ + "\tCOMMAND "@ + gdb
        + " -x gdb_config.gdb\n"@ + ")\n"@ + "add_custom_target(\n"@;
    let x = pre + "\tgdb\n"@ + "\tDEPENDS boot_disk disassemble\n"@ + "\tCOMMAND "@ + gdb
        + " -x gdb_stub.gdb\n"@;
    assert(rules == x + ")\n"@);
    lemma_prefix_of_add(x, ")\n"@);
    let block = gdb_rule("gdb"@, gdb, stub);
    assert(x =~= pre + block);
    lemma_split_at_prefix(rules, pre, block);
    let c2 = Seq::<char>::empty() + "add-symbol-file "@ + s + "\n"@ + "disp /i $pc\n"@;
    assert(qemu_setup(s)[1] == ActionView::WriteFile("./"@ + stub, c2 + "target remote :12345 \n"@));
}

/// What the names of the stub script and of the gdb target are made of.
proof fn lemma_gdb_names()
    ensures
        "./gdb_stub.gdb"@ == "./"@ + "gdb_stub.gdb"@,
        " -x gdb_stub.gdb\n"@ == " -x "@ + "gdb_stub.gdb"@ + "\n"@,
        "\tgdb\n"@ == "\t"@ + "gdb"@ + "\n"@,
{
    reveal_strlit("./gdb_stub.gdb");
    reveal_strlit("./");
    reveal_strlit("gdb_stub.gdb");
    reveal_strlit(" -x gdb_stub.gdb\n");
    reveal_strlit(" -x ");
    reveal_strlit("\n");
    reveal_strlit("\tgdb\n");
    reveal_strlit("\t");
    reveal_strlit("gdb");
    assert("./gdb_stub.gdb"@ =~= "./"@ + "gdb_stub.gdb"@);
    assert(" -x gdb_stub.gdb\n"@ =~= " -x "@ + "gdb_stub.gdb"@ + "\n"@);
    assert("\tgdb\n"@ =~= "\t"@ + "gdb"@ + "\n"@);
}

/// What the names of the gdb scripts and targets are made of.
proof fn lemma_debug2_names()
    ensures
        "./gdb_config.gdb"@ == "./"@ + "gdb_config.gdb"@,
        " -x gdb_config.gdb\n"@ == " -x "@ + "gdb_config.gdb"@ + "\n"@,
        "\tdebug2\n"@ == "\t"@ + "debug2"@ + "\n"@,
{
    reveal_strlit("./gdb_config.gdb");
    reveal_strlit("./");
    reveal_strlit("gdb_config.gdb");
    reveal_strlit(" -x gdb_config.gdb\n");
    reveal_strlit(" -x ");
    reveal_strlit("\n");
    reveal_strlit("\tdebug2\n");
    reveal_strlit("\t");
    reveal_strlit("debug2");
    assert("./gdb_config.gdb"@ =~= "./"@ + "gdb_config.gdb"@);
    assert(" -x gdb_config.gdb\n"@ =~= " -x "@ + "gdb_config.gdb"@ + "\n"@);
    assert("\tdebug2\n"@ =~= "\t"@ + "debug2"@ + "\n"@);
}

/// The rules that run qemu and the debuggers, appended to `text`.
pub open spec fn qemu_run_rules(text: Seq<char>, local: LocalConfiguration) -> Seq<char> {
    let gdb = escaped(path_or(local.gdb_path, "gdb"@));
    text + "add_custom_target(\n"@ + "\trun\n"@ + "\tDEPENDS boot_disk disassemble\n"@
        + (Seq::<char>::empty() + "\tCOMMAND "@ + qemu_common_run(local)) + "\n)\n"@
        + "add_custom_target(\n"@ + "\tdebug\n"@ + "\tDEPENDS boot_disk disassemble\n"@
        + (Seq::<char>::empty() + "\tCOMMAND "@ + qemu_common_run(local) + " -s -S"@)
        + "\n)\n"@ + "add_custom_target(\n"@ + "\tdebug2\n"@
        + "\tDEPENDS boot_disk disassemble\n"@ + "\tCOMMAND "@ + gdb + " -x gdb_config.gdb\n"@
        + ")\n"@ + "add_custom_target(\n"@ + "\tgdb\n"@ + "\tDEPENDS boot_disk disassemble\n"@
        + "\tCOMMAND "@ + gdb + " -x gdb_stub.gdb\n"@ + ")\n"@
}

impl Qemu {
    /// The command line that runs qemu
    pub fn get_common_run(&self, local: &LocalConfiguration) -> (r: String)
        ensures
            r@ == qemu_common_run(*local),
    {
        let mut qemu = String::new();
        qemu.append(&LocalConfiguration::escape_path(local.qemu_path().as_str()));
        qemu.append(" ");
        qemu.append(
            "-cdrom cd64.iso -m 8 -serial file:serial.log -serial tcp::1234,server,nowait,nodelay -netdev user,id=u1 -device e1000,netdev=u1",
        );
        qemu
    }

    /// The steps that set qemu up: writing the two gdb scripts
    pub fn build_config(
        &self,
        _disk: &Disk,
        _common: &EmulatorConfig,
        _local: &LocalConfiguration,
        s: &str,
    ) -> (r: Vec<SetupAction>)
        ensures
            actions_view(r@) == qemu_setup(s@),
    {
        let mut config = String::new();
        config.append("add-symbol-file ");
        config.append(s);
        config.append("\n");
        config.append("define exit\n\tmonitor quit\n\tquit\nend\n");
        config.append("disp /i $pc\n");
        config.append("target remote :1234\n");
        let mut stub = String::new();
        stub.append("add-symbol-file ");
        stub.append(s);
        stub.append("\n");
        stub.append("disp /i $pc\n");
        stub.append("target remote :12345 \n");
        let mut r: Vec<SetupAction> = Vec::new();
        push_action(&mut r, SetupAction::WriteFile(String::from_str("./gdb_config.gdb"), config));
        push_action(&mut r, SetupAction::WriteFile(String::from_str("./gdb_stub.gdb"), stub));
        assert(actions_view(Seq::<SetupAction>::empty()) =~= Seq::<ActionView>::empty());
        r
    }

    /// Append the rules that run qemu, with and without the debugger
    pub fn run(
        &self,
        cmakelists: &mut String,
        _common: &EmulatorConfig,
        local: &LocalConfiguration,
        _s: &str,
    )
        ensures
            final(cmakelists)@ == qemu_run_rules(old(cmakelists)@, *local),
    {
        let mut qemu = String::new();
        qemu.append("\tCOMMAND ");
        qemu.append(&self.get_common_run(local));
        cmakelists.append("add_custom_target(\n");
        cmakelists.append("\trun\n");
        cmakelists.append("\tDEPENDS boot_disk disassemble\n");
        cmakelists.append(&qemu);
        cmakelists.append("\n)\n");
        let mut qemu = String::new();
        qemu.append("\tCOMMAND ");
        qemu.append(&self.get_common_run(local));
        qemu.append(" -s -S");
        cmakelists.append("add_custom_target(\n");
        cmakelists.append("\tdebug\n");
        cmakelists.append("\tDEPENDS boot_disk disassemble\n");
        cmakelists.append(&qemu);
        cmakelists.append("\n)\n");
        let gdb = LocalConfiguration::escape_path(local.gdb_path().as_str());
        cmakelists.append("add_custom_target(\n");
        cmakelists.append("\tdebug2\n");
        cmakelists.append("\tDEPENDS boot_disk disassemble\n");
        cmakelists.append("\tCOMMAND ");
        cmakelists.append(gdb.as_str());
        cmakelists.append(" -x gdb_config.gdb\n");
        cmakelists.append(")\n");
        cmakelists.append("add_custom_target(\n");
        cmakelists.append("\tgdb\n");
        cmakelists.append("\tDEPENDS boot_disk disassemble\n");
        cmakelists.append("\tCOMMAND ");
        cmakelists.append(gdb.as_str());
        cmakelists.append(" -x gdb_stub.gdb\n");
        cmakelists.append(")\n");
    }

    /// The short name of this emulator
    pub fn simple_name(&self) -> (r: &'static str)
        ensures
            r@ == "qemu"@,
    {
        "qemu"
    }
}

// ------------------------------------------------------------------------------------------
// virtualbox
// ------------------------------------------------------------------------------------------

/// The io port and irq of the serial ports that virtualbox emulates, by number.
pub open spec fn serial_port_details(port: int) -> (u16, u8) {
    if port == 0 {
        (0x3f8, 4)
    } else if port == 1 {
        (0x2f8, 3)
    } else if port == 2 {
        (0x3e8, 4)
    } else {
        (0x2e8, 3)
    }
}

/// The name of the virtual machine.
pub open spec fn vm_name() -> Seq<char> {
    "doors-os-64"@
}

/// The command that creates the virtual machine, in the given folder.
pub open spec fn vbox_create(vbm: Seq<char>, cwd: Seq<char>) -> ActionView {
    ActionView::Run(
        seq![
            vbm,
            "createvm"@,
            "--name"@,
            "doors-os-64"@,
            "--ostype"@,
            "\"Doors\""@,
            "--register"@,
            "--basefolder"@,
            cwd,
        ],
    )
}

/// The command that sets up serial port `i` (numbered from one) of the virtual machine.
pub open spec fn vbox_serial_actions_one(vbm: Seq<char>, i: nat, port: SerialConfig) -> Seq<
    ActionView,
> {
    let (io, irq) = serial_port_details(i as int);
    let head = seq![
        vbm,
        "modifyvm"@,
        "doors-os-64"@,
        "--uart"@ + decimal(i),
        decimal(io as nat),
        decimal(irq as nat),
        "--uartmode"@ + decimal(i),
    ];
    match port {
        SerialConfig::File(f) => seq![ActionView::Run(head + seq!["file"@, f@])],
        SerialConfig::TcpServer(p) => seq![ActionView::Run(head + seq!["tcpserver"@, decimal(p as nat)])],
        SerialConfig::TcpClient(p) => seq![ActionView::Run(head + seq!["tcpclient"@, decimal(p as nat)])],
        SerialConfig::Real(p) => seq![ActionView::Run(head + seq![p@])],
        SerialConfig::Nothing => Seq::empty(),
    }
}

/// The commands that set up the serial ports with these indices.
pub open spec fn vbox_serial_actions(
    vbm: Seq<char>,
    ports: Seq<usize>,
    local: LocalConfiguration,
) -> Seq<ActionView>
    decreases ports.len(),
{
    if ports.len() == 0 {
        Seq::empty()
    } else {
        vbox_serial_actions(vbm, ports.drop_last(), local) + vbox_serial_actions_one(
            vbm,
            ports.len(),
            local.serial_ports@[ports.last() as int],
        )
    }
}

/// The commands that set up network card `n` (numbered from one) of the virtual machine.
pub open spec fn vbox_net_actions_one(vbm: Seq<char>, n: nat, name: Seq<char>) -> Seq<ActionView> {
    seq![
        ActionView::Run(
            seq![
                vbm,
                "modifyvm"@,
                "doors-os-64"@,
                "--nic"@ + decimal(n),
                "hostonly"@,
                "--hostonlyadapter"@ + decimal(n),
                name,
            ],
        ),
        ActionView::Run(
            seq![vbm, "modifyvm"@, "doors-os-64"@, "--macaddress"@ + decimal(n), "525400123456"@],
        ),
        ActionView::Run(
            seq![vbm, "modifyvm"@, "doors-os-64"@, "--nictype"@ + decimal(n), "82540EM"@],
        ),
    ]
}

/// The commands that set up the network cards with these indices.
pub open spec fn vbox_net_actions(
    vbm: Seq<char>,
    nets: Seq<usize>,
    local: LocalConfiguration,
) -> Seq<ActionView>
    decreases nets.len(),
{
    if nets.len() == 0 {
        Seq::empty()
    } else {
        vbox_net_actions(vbm, nets.drop_last(), local) + vbox_net_actions_one(
            vbm,
            nets.len(),
            local.net_devs@[nets.last() as int].virtualbox->0@,
        )
    }
}

/// The commands that attach the disk image to the virtual machine.
pub open spec fn vbox_disk_actions(vbm: Seq<char>, disk: Disk) -> Seq<ActionView> {
    match disk {
        Disk::Network(_) => Seq::empty(),
        Disk::Cd(p) => seq![
            ActionView::Run(
                seq![
                    vbm,
                    "storagectl"@,
                    "doors-os-64"@,
                    "--name"@,
                    "\"IDE Controller\""@,
                    "--add"@,
                    "ide"@,
                    "--controller"@,
                    "PIIX4"@,
                ],
            ),
            ActionView::Run(
                seq![
                    vbm,
                    "storageattach"@,
                    "doors-os-64"@,
                    "--storagectl"@,
                    "\"IDE Controller\""@,
                    "--port"@,
                    "1"@,
                    "--device"@,
                    "0"@,
                    "--type"@,
                    "dvddrive"@,
                    "--medium"@,
                    p@,
                ],
            ),
        ],
    }
}

/// The gdb script that connects to the virtualbox debugger.
pub open spec fn vbox_gdb_config(s: Seq<char>) -> Seq<char> {
    Seq::<char>::empty() + "add-symbol-file "@ + s + "\n"@ + "disp /i $pc\n"@
        + "target remote :12345\n"@
}

/// All the steps that set up the virtual machine.
pub open spec fn vbox_actions(
    disk: Disk,
    common: EmulatorConfig,
    local: LocalConfiguration,
    s: Seq<char>,
    cwd: Seq<char>,
) -> Seq<ActionView> {
    let vbm = path_or(local.vboxmanage_path, "VBoxManage"@);
    seq![ActionView::RemoveFile("./doors-os-64/doors-os-64.vbox"@), vbox_create(vbm, cwd)]
        + vbox_serial_actions(vbm, common.serial_ports@, local) + vbox_net_actions(
        vbm,
        common.net_devs@,
        local,
    ) + vbox_disk_actions(vbm, disk) + seq![
        ActionView::WriteFile("./gdb_config.gdb"@, vbox_gdb_config(s)),
    ]
}

/// Virtualbox can run with this configuration: it emulates at most three serial ports, and
/// the network cards it uses have a virtualbox setting.
pub open spec fn vbox_supported(common: EmulatorConfig, local: LocalConfiguration) -> bool {
    &&& nets_known(common, local)
    &&& serials_known(common, local)
    &&& common.serial_ports@.len() <= 3
    &&& forall|k: int|
        0 <= k < common.net_devs@.len() ==> (#[trigger] local.net_devs@[common.net_devs@[k] as int]).virtualbox is Some
}

/// The rules that run virtualbox and the debugger, appended to `text`.
pub open spec fn vbox_run_rules(text: Seq<char>, local: LocalConfiguration) -> Seq<char> {
    let vbox = escaped(path_or(local.virtualbox_path, "VirtualBoxVM"@));
    text + "add_custom_target(\n"@ + "\trun\n"@ + "\tDEPENDS boot_disk\n"@ + "\tCOMMAND "@ + vbox
        + " --startvm doors-os-64\n"@ + ")\n"@ + "add_custom_target(\n"@ + "\tdebug\n"@
        + "\tDEPENDS boot_disk disassemble\n"@ + "\tCOMMAND "@ + vbox
        + " --startvm doors-os-64 --dbg --debug\n"@ + ")\n"@ + "add_custom_target(\n"@
        + "\tgdb\n"@ + "\tDEPENDS boot_disk disassemble\n"@ + "\tCOMMAND "@ + escaped(
        path_or(local.gdb_path, "gdb"@),
    ) + " -x gdb_config.gdb\n"@ + ")\n"@
}

/// A text made of a prefix and a number.
fn numbered(prefix: &str, n: u64) -> (r: String)
    ensures
        r@ == prefix@ + decimal(n as nat),
{
    let mut r = String::from_str(prefix);
    push_decimal(&mut r, n);
    r
}

/// A command of the virtual machine manager, from its words.
fn command(words: Vec<String>) -> (r: SetupAction)
    ensures
        r@ == ActionView::Run(words.deep_view()),
{
    SetupAction::Run(words)
}

/// Taking one more element of a sequence adds that element at the end.
proof fn lemma_take_last<T>(s: Seq<T>, k: int)
    requires
        0 <= k < s.len(),
    ensures
        s.take(k + 1).drop_last() == s.take(k),
        s.take(k + 1).last() == s[k],
        s.take(k + 1).len() == k + 1,
{
    assert(s.take(k + 1).drop_last() =~= s.take(k));
}

impl VirtualBox {
    /// Get the port and irq for serial ports used
    pub fn get_serial_port_details(port: u8) -> (r: (u16, u8))
        requires
            port < 4,
        ensures
            r == serial_port_details(port as int),
    {
        match port {
            0 => (0x3f8, 4),
            1 => (0x2f8, 3),
            2 => (0x3e8, 4),
            _ => (0x2e8, 3),
        }
    }

    /// The command that sets up one serial port, numbered from one, if it is used
    fn serial_action(vbm: &String, i: u8, port: &SerialConfig, out: &mut Vec<SetupAction>)
        requires
            1 <= i <= 3,
        ensures
            actions_view(final(out)@) == actions_view(old(out)@) + vbox_serial_actions_one(
                vbm@,
                i as nat,
                *port,
            ),
    {
        let (io, irq) = Self::get_serial_port_details(i);
        let ghost before = actions_view(out@);
        let ghost head = seq![
            vbm@,
            "modifyvm"@,
            "doors-os-64"@,
            "--uart"@ + decimal(i as nat),
            decimal(io as nat),
            decimal(irq as nat),
            "--uartmode"@ + decimal(i as nat),
        ];
        let mut words: Vec<String> = Vec::new();
        words.push(vbm.clone());
        words.push(String::from_str("modifyvm"));
        words.push(String::from_str("doors-os-64"));
        words.push(numbered("--uart", i as u64));
        words.push(decimal_string(io as u64));
        words.push(decimal_string(irq as u64));
        words.push(numbered("--uartmode", i as u64));
        assert(words.deep_view() =~= head);
        match port {
            SerialConfig::File(f) => {
                words.push(String::from_str("file"));
                words.push(f.clone());
                assert(words.deep_view() =~= head + seq!["file"@, f@]);
            },
            SerialConfig::TcpServer(p) => {
                words.push(String::from_str("tcpserver"));
                words.push(decimal_string(*p as u64));
                assert(words.deep_view() =~= head + seq!["tcpserver"@, decimal(*p as nat)]);
            },
            SerialConfig::TcpClient(p) => {
                words.push(String::from_str("tcpclient"));
                words.push(decimal_string(*p as u64));
                assert(words.deep_view() =~= head + seq!["tcpclient"@, decimal(*p as nat)]);
            },
            SerialConfig::Real(p) => {
                words.push(p.clone());
                assert(words.deep_view() =~= head + seq![p@]);
            },
            SerialConfig::Nothing => {
                assert(before + Seq::<ActionView>::empty() =~= before);
                return;
            },
        }
        push_action(out, command(words));
        assert(actions_view(out@) =~= before + vbox_serial_actions_one(vbm@, i as nat, *port));
    }

    /// The commands that set up one network card, numbered from one
    fn net_actions(vbm: &String, n: u64, name: &String, out: &mut Vec<SetupAction>)
        ensures
            actions_view(final(out)@) == actions_view(old(out)@) + vbox_net_actions_one(
                vbm@,
                n as nat,
                name@,
            ),
    {
        let ghost before = actions_view(out@);
        let mut words: Vec<String> = Vec::new();
        words.push(vbm.clone());
        words.push(String::from_str("modifyvm"));
        words.push(String::from_str("doors-os-64"));
        words.push(numbered("--nic", n));
        words.push(String::from_str("hostonly"));
        words.push(numbered("--hostonlyadapter", n));
        words.push(name.clone());
        assert(words.deep_view() =~= seq![
            vbm@,
            "modifyvm"@,
            "doors-os-64"@,
            "--nic"@ + decimal(n as nat),
            "hostonly"@,
            "--hostonlyadapter"@ + decimal(n as nat),
            name@,
        ]);
        push_action(out, command(words));
        let mut words: Vec<String> = Vec::new();
        words.push(vbm.clone());
        words.push(String::from_str("modifyvm"));
        words.push(String::from_str("doors-os-64"));
        words.push(numbered("--macaddress", n));
        words.push(String::from_str("525400123456"));
        assert(words.deep_view() =~= seq![
            vbm@,
            "modifyvm"@,
            "doors-os-64"@,
            "--macaddress"@ + decimal(n as nat),
            "525400123456"@,
        ]);
        push_action(out, command(words));
        let mut words: Vec<String> = Vec::new();
        words.push(vbm.clone());
        words.push(String::from_str("modifyvm"));
        words.push(String::from_str("doors-os-64"));
        words.push(numbered("--nictype", n));
        words.push(String::from_str("82540EM"));
        assert(words.deep_view() =~= seq![
            vbm@,
            "modifyvm"@,
            "doors-os-64"@,
            "--nictype"@ + decimal(n as nat),
            "82540EM"@,
        ]);
        push_action(out, command(words));
        assert(actions_view(out@) =~= before + vbox_net_actions_one(vbm@, n as nat, name@));
    }

    /// The commands that attach the disk image
    fn disk_actions(vbm: &String, disk: &Disk, out: &mut Vec<SetupAction>)
        ensures
            actions_view(final(out)@) == actions_view(old(out)@) + vbox_disk_actions(vbm@, *disk),
    {
        let ghost before = actions_view(out@);
        match disk {
            Disk::Network(_p) => {
                assert(before + Seq::<ActionView>::empty() =~= before);
            },
            Disk::Cd(p) => {
                let mut words: Vec<String> = Vec::new();
                words.push(vbm.clone());
                words.push(String::from_str("storagectl"));
                words.push(String::from_str("doors-os-64"));
                words.push(String::from_str("--name"));
                words.push(String::from_str("\"IDE Controller\""));
                words.push(String::from_str("--add"));
                words.push(String::from_str("ide"));
                words.push(String::from_str("--controller"));
                words.push(String::from_str("PIIX4"));
                assert(words.deep_view() =~= seq![
                    vbm@,
                    "storagectl"@,
                    "doors-os-64"@,
                    "--name"@,
                    "\"IDE Controller\""@,
                    "--add"@,
                    "ide"@,
                    "--controller"@,
                    "PIIX4"@,
                ]);
                push_action(out, command(words));
                let mut words: Vec<String> = Vec::new();
                words.push(vbm.clone());
                words.push(String::from_str("storageattach"));
                words.push(String::from_str("doors-os-64"));
                words.push(String::from_str("--storagectl"));
                words.push(String::from_str("\"IDE Controller\""));
                words.push(String::from_str("--port"));
                words.push(String::from_str("1"));
                words.push(String::from_str("--device"));
                words.push(String::from_str("0"));
                words.push(String::from_str("--type"));
                words.push(String::from_str("dvddrive"));
                words.push(String::from_str("--medium"));
                words.push(p.clone());
                assert(words.deep_view() =~= seq![
                    vbm@,
                    "storageattach"@,
                    "doors-os-64"@,
                    "--storagectl"@,
                    "\"IDE Controller\""@,
                    "--port"@,
                    "1"@,
                    "--device"@,
                    "0"@,
                    "--type"@,
                    "dvddrive"@,
                    "--medium"@,
                    p@,
                ]);
                push_action(out, command(words));
                assert(actions_view(out@) =~= before + vbox_disk_actions(vbm@, *disk));
            },
        }
    }

    /// The steps that set the virtual machine up: create it in the folder `cwd`, attach its
    /// serial ports, network cards and disk, and write the gdb script
    pub fn build_config(
        &self,
        disk: &Disk,
        common: &EmulatorConfig,
        local: &LocalConfiguration,
        s: &str,
        cwd: &str,
    ) -> (r: Vec<SetupAction>)
        requires
            vbox_supported(*common, *local),
        ensures
            actions_view(r@) == vbox_actions(*disk, *common, *local, s@, cwd@),
    {
        let vbm = local.vboxmanage_path();
        let mut out: Vec<SetupAction> = Vec::new();
        assert(actions_view(out@) =~= Seq::<ActionView>::empty());
        push_action(
            &mut out,
            SetupAction::RemoveFile(String::from_str("./doors-os-64/doors-os-64.vbox")),
        );
        let mut words: Vec<String> = Vec::new();
        words.push(vbm.clone());
        words.push(String::from_str("createvm"));
        words.push(String::from_str("--name"));
        words.push(String::from_str("doors-os-64"));
        words.push(String::from_str("--ostype"));
        words.push(String::from_str("\"Doors\""));
        words.push(String::from_str("--register"));
        words.push(String::from_str("--basefolder"));
        words.push(String::from_str(cwd));
        assert(words.deep_view() =~= seq![
            vbm@,
            "createvm"@,
            "--name"@,
            "doors-os-64"@,
            "--ostype"@,
            "\"Doors\""@,
            "--register"@,
            "--basefolder"@,
            cwd@,
        ]);
        push_action(&mut out, command(words));
        let ghost start = actions_view(out@);
        assert(start =~= seq![
            ActionView::RemoveFile("./doors-os-64/doors-os-64.vbox"@),
            vbox_create(vbm@, cwd@),
        ]);
        let mut k: usize = 0;
        while k < common.serial_ports.len()
            invariant
                vbox_supported(*common, *local),
                k <= common.serial_ports.len(),
                actions_view(out@) == start + vbox_serial_actions(
                    vbm@,
                    common.serial_ports@.take(k as int),
                    *local,
                ),
            decreases common.serial_ports.len() - k,
        {
            proof {
                lemma_take_last(common.serial_ports@, k as int);
            }
            let sid = common.serial_ports[k];
            let ghost before = actions_view(out@);
            Self::serial_action(&vbm, (k + 1) as u8, &local.serial_ports[sid], &mut out);
            assert(actions_view(out@) =~= start + vbox_serial_actions(
                vbm@,
                common.serial_ports@.take(k + 1),
                *local,
            ));
            k = k + 1;
        }
        assert(common.serial_ports@.take(common.serial_ports@.len() as int)
            =~= common.serial_ports@);
        let ghost after_serial = actions_view(out@);
        let mut k: usize = 0;
        while k < common.net_devs.len()
            invariant
                vbox_supported(*common, *local),
                k <= common.net_devs.len(),
                actions_view(out@) == after_serial + vbox_net_actions(
                    vbm@,
                    common.net_devs@.take(k as int),
                    *local,
                ),
            decreases common.net_devs.len() - k,
        {
            proof {
                lemma_take_last(common.net_devs@, k as int);
            }
            let nid = common.net_devs[k];
            let ghost used = local.net_devs@[common.net_devs@[k as int] as int];
            assert(used.virtualbox is Some);
            match &local.net_devs[nid].virtualbox {
                Some(name) => {
                    Self::net_actions(&vbm, (k + 1) as u64, name, &mut out);
                },
                None => {},
            }
            assert(actions_view(out@) =~= after_serial + vbox_net_actions(
                vbm@,
                common.net_devs@.take(k + 1),
                *local,
            ));
            k = k + 1;
        }
        assert(common.net_devs@.take(common.net_devs@.len() as int) =~= common.net_devs@);
        Self::disk_actions(&vbm, disk, &mut out);
        let mut config = String::new();
        config.append("add-symbol-file ");
        config.append(s);
        config.append("\n");
        config.append("disp /i $pc\n");
        config.append("target remote :12345\n");
        let ghost before_gdb = actions_view(out@);
        push_action(&mut out, SetupAction::WriteFile(String::from_str("./gdb_config.gdb"), config));
        assert(actions_view(out@) =~= vbox_actions(*disk, *common, *local, s@, cwd@));
        out
    }

    /// Append the rules that run virtualbox, with and without its debugger
    pub fn run(
        &self,
        cmakelists: &mut String,
        _common: &EmulatorConfig,
        local: &LocalConfiguration,
        _s: &str,
    )
        ensures
            final(cmakelists)@ == vbox_run_rules(old(cmakelists)@, *local),
    {
        let vbox = LocalConfiguration::escape_path(local.virtualbox_path().as_str());
        cmakelists.append("add_custom_target(\n");
        cmakelists.append("\trun\n");
        cmakelists.append("\tDEPENDS boot_disk\n");
        cmakelists.append("\tCOMMAND ");
        cmakelists.append(vbox.as_str());
        cmakelists.append(" --startvm doors-os-64\n");
        cmakelists.append(")\n");
        cmakelists.append("add_custom_target(\n");
        cmakelists.append("\tdebug\n");
        cmakelists.append("\tDEPENDS boot_disk disassemble\n");
        cmakelists.append("\tCOMMAND ");
        cmakelists.append(vbox.as_str());
        cmakelists.append(" --startvm doors-os-64 --dbg --debug\n");
        cmakelists.append(")\n");
        cmakelists.append("add_custom_target(\n");
        cmakelists.append("\tgdb\n");
        cmakelists.append("\tDEPENDS boot_disk disassemble\n");
        cmakelists.append("\tCOMMAND ");
        cmakelists.append(&LocalConfiguration::escape_path(local.gdb_path().as_str()));
        cmakelists.append(" -x gdb_config.gdb\n");
        cmakelists.append(")\n");
    }

    /// The short name of this emulator
    pub fn simple_name(&self) -> (r: &'static str)
        ensures
            r@ == "virtualbox"@,
    {
        "virtualbox"
    }
}

// ------------------------------------------------------------------------------------------
// any emulator
// ------------------------------------------------------------------------------------------

impl NoEmulator {
    /// Nothing is set up
    pub fn build_config(
        &self,
        _disk: &Disk,
        _common: &EmulatorConfig,
        _local: &LocalConfiguration,
        _s: &str,
    ) -> (r: Vec<SetupAction>)
        ensures
            r@.len() == 0,
    {
        Vec::new()
    }

    /// No rule is written
    pub fn run(
        &self,
        _cmakelists: &mut String,
        _common: &EmulatorConfig,
        _local: &LocalConfiguration,
        _s: &str,
    )
        ensures
            *final(_cmakelists) == *old(_cmakelists),
    {
    }
}

/// The emulator can run with this configuration.
pub open spec fn emulation_supported(
    e: Emulation,
    common: EmulatorConfig,
    local: LocalConfiguration,
) -> bool {
    match e {
        Emulation::Bochs(_) => bochs_supported(common, local),
        Emulation::VirtualBox(_) => vbox_supported(common, local),
        _ => true,
    }
}

/// The steps that set an emulator up.
pub open spec fn emulation_actions(
    e: Emulation,
    disk: Disk,
    common: EmulatorConfig,
    local: LocalConfiguration,
    s: Seq<char>,
    cwd: Seq<char>,
) -> Seq<ActionView> {
    match e {
        Emulation::Bochs(_) => seq![
            ActionView::WriteFile("./bochs_config.txt"@, bochs_config_text(disk, common, local)),
        ],
        Emulation::Qemu(_) => qemu_setup(s),
        Emulation::VirtualBox(_) => vbox_actions(disk, common, local, s, cwd),
        Emulation::NoEmulator(_) => Seq::empty(),
    }
}

/// The rules that run an emulator, appended to `text`.
pub open spec fn emulation_run_rules(
    text: Seq<char>,
    e: Emulation,
    local: LocalConfiguration,
) -> Seq<char> {
    match e {
        Emulation::Bochs(_) => bochs_run_rules(text, local),
        Emulation::Qemu(_) => qemu_run_rules(text, local),
        Emulation::VirtualBox(_) => vbox_run_rules(text, local),
        Emulation::NoEmulator(_) => text,
    }
}

/// The rules that build an emulator's own debug symbols, appended to `text`.
pub open spec fn emulation_symbols_rules(text: Seq<char>, e: Emulation, s: Seq<char>) -> Seq<
    char,
> {
    match e {
        Emulation::Bochs(_) => bochs_symbols_rules(text, s),
        _ => text,
    }
}

/// Check that every network card an emulator uses is known, and has a setting when `bochs`
/// or `virtualbox` asks for one.
fn check_nets(common: &EmulatorConfig, local: &LocalConfiguration, bochs: bool, virtualbox: bool) -> (r: bool)
    ensures
        r == (nets_known(*common, *local) && (bochs ==> forall|k: int|
            0 <= k < common.net_devs@.len() ==> (#[trigger] local.net_devs@[common.net_devs@[k] as int]).bochs is Some)
            && (virtualbox ==> forall|k: int|
            0 <= k < common.net_devs@.len() ==> (#[trigger] local.net_devs@[common.net_devs@[k] as int]).virtualbox is Some)),
{
    let mut k: usize = 0;
    while k < common.net_devs.len()
        invariant
            k <= common.net_devs.len(),
            forall|j: int| 0 <= j < k ==> common.net_devs@[j] < local.net_devs@.len(),
            bochs ==> forall|j: int|
                0 <= j < k ==> (#[trigger] local.net_devs@[common.net_devs@[j] as int]).bochs is Some,
            virtualbox ==> forall|j: int|
                0 <= j < k ==> (#[trigger] local.net_devs@[common.net_devs@[j] as int]).virtualbox is Some,
        decreases common.net_devs.len() - k,
    {
        let nid = common.net_devs[k];
        if nid >= local.net_devs.len() {
            return false;
        }
        if bochs && local.net_devs[nid].bochs.is_none() {
            return false;
        }
        if virtualbox && local.net_devs[nid].virtualbox.is_none() {
            return false;
        }
        k = k + 1;
    }
    true
}

/// Check that every serial port an emulator uses is known, and, when `no_tcp` is set, that
/// none of them is a tcp port.
fn check_serials(common: &EmulatorConfig, local: &LocalConfiguration, no_tcp: bool) -> (r: bool)
    ensures
        r == (serials_known(*common, *local) && (no_tcp ==> forall|k: int|
            0 <= k < common.serial_ports@.len() ==> !(#[trigger] used_serial(*common, *local, k) is TcpServer)
                && !(used_serial(*common, *local, k) is TcpClient))),
{
    let mut k: usize = 0;
    while k < common.serial_ports.len()
        invariant
            k <= common.serial_ports.len(),
            forall|j: int| 0 <= j < k ==> common.serial_ports@[j] < local.serial_ports@.len(),
            no_tcp ==> forall|j: int|
                0 <= j < k ==> !(#[trigger] used_serial(*common, *local, j) is TcpServer)
                    && !(used_serial(*common, *local, j) is TcpClient),
        decreases common.serial_ports.len() - k,
    {
        let sid = common.serial_ports[k];
        if sid >= local.serial_ports.len() {
            return false;
        }
        if no_tcp {
            assert(used_serial(*common, *local, k as int) == local.serial_ports@[sid as int]);
            match &local.serial_ports[sid] {
                SerialConfig::TcpServer(_) => {
                    return false;
                },
                SerialConfig::TcpClient(_) => {
                    return false;
                },
                _ => {},
            }
        }
        k = k + 1;
    }
    true
}

impl Emulation {
    /// Can the emulator run with this configuration of its ports and cards
    pub fn supported(&self, common: &EmulatorConfig, local: &LocalConfiguration) -> (r: bool)
        ensures
            r == emulation_supported(*self, *common, *local),
    {
        match self {
            Emulation::Bochs(_) => {
                check_nets(common, local, true, false) && check_serials(common, local, true)
            },
            Emulation::VirtualBox(_) => {
                check_nets(common, local, false, true) && check_serials(common, local, false)
                    && common.serial_ports.len() <= 3
            },
            _ => true,
        }
    }

    /// Append the rules that build any custom debug symbols the emulator needs
    pub fn custom_debug_symbols(&self, cmakelists: &mut String, s: &str)
        ensures
            final(cmakelists)@ == emulation_symbols_rules(old(cmakelists)@, *self, s@),
    {
        match self {
            Emulation::Bochs(b) => b.custom_debug_symbols(cmakelists, s),
            _ => {},
        }
    }

    /// The steps that set the emulator up
    pub fn build_config(
        &self,
        disk: &Disk,
        common: &EmulatorConfig,
        local: &LocalConfiguration,
        s: &str,
        cwd: &str,
    ) -> (r: Vec<SetupAction>)
        requires
            emulation_supported(*self, *common, *local),
        ensures
            actions_view(r@) == emulation_actions(*self, *disk, *common, *local, s@, cwd@),
    {
        match self {
            Emulation::Bochs(b) => b.build_config(disk, common, local, s),
            Emulation::Qemu(q) => q.build_config(disk, common, local, s),
            Emulation::VirtualBox(v) => v.build_config(disk, common, local, s, cwd),
            Emulation::NoEmulator(n) => {
                let r = n.build_config(disk, common, local, s);
                assert(actions_view(r@) =~= Seq::<ActionView>::empty());
                r
            },
        }
    }

    /// Append the rules that run the emulator
    pub fn run(
        &self,
        cmakelists: &mut String,
        common: &EmulatorConfig,
        local: &LocalConfiguration,
        s: &str,
    )
        ensures
            final(cmakelists)@ == emulation_run_rules(old(cmakelists)@, *self, *local),
    {
        match self {
            Emulation::Bochs(b) => b.run(cmakelists, common, local, s),
            Emulation::Qemu(q) => q.run(cmakelists, common, local, s),
            Emulation::VirtualBox(v) => v.run(cmakelists, common, local, s),
            Emulation::NoEmulator(n) => n.run(cmakelists, common, local, s),
        }
    }
}

} // verus!
