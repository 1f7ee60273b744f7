//! The cmake build files of the whole operating system, made from the local and the operating
//! system configuration.

use vstd::prelude::*;
use crate::build_config::{
    copy_lines,
    Disk,
    DiskImageConfigurationUnique,
    DoorsConfiguration,
    LocalConfiguration,
    deploy_supported,
    disassembly_rules,
    disk_deploy_rules,
    disk_of,
    disk_rules,
    kernel_rules,
    user_rules,
};
use crate::emulators::{
    lemma_prefix_trans,
    lemma_split_at_prefix,
    Emulation,
    ActionView,
    SetupAction,
    actions_view,
    emulation_actions,
    emulation_run_rules,
    emulation_supported,
    emulation_symbols_rules,
};

verus! {

/// Combined configuration structure of both local and operating system configuration
pub struct MasterConfig {
    /// The local configuration
    pub local: LocalConfiguration,
    /// The operating system config
    pub os: DoorsConfiguration,
}

impl MasterConfig {
    /// Construct a new Self from its members
    pub fn build(local: LocalConfiguration, os: DoorsConfiguration) -> (r: Self)
        ensures
            r.local == local,
            r.os == os,
    {
        Self { local, os }
    }
}

/// What building the cmake files gives: the three files, the disk image they build, and the
/// steps that set the emulator up on the build machine.
pub struct CmakeFiles {
    /// The top level CMakeLists.txt
    pub top: String,
    /// The CMakeLists.txt of the kernel
    pub kernel: String,
    /// The CMakeLists.txt of the user programs
    pub user: String,
    /// The disk image that the files build
    pub disk: Disk,
    /// The steps that set the emulator up, in order
    pub setup: Vec<SetupAction>,
}

/// The path of the kernel binary that a build produces.
pub open spec fn kernel_binary_path(kernel_path: Seq<char>) -> Seq<char> {
    "./kernel/target/"@ + kernel_path + "/release/kernel"@
}

/// The start of the top level file, up to the rules of the disk image.
pub open spec fn top_start(config: MasterConfig) -> Seq<char> {
    Seq::<char>::empty() + "cmake_minimum_required(VERSION 3.22)\n"@ + "project(doors-os)\n"@
        + "include(ExternalProject)\n"@ + "add_subdirectory(kernel)\n"@
        + "add_subdirectory(user)\n"@ + "set(LOCAL_TARGET "@ + config.local.target@ + ")\n"@
        + "set(USER_TARGET "@ + config.os.user_machine@ + ")\n"@
        + "configure_file(rust_bootstrap ./rust/bootstrap.toml)\n"@
        + "configure_file(rust_compiler_toolchain.toml ./rust/rustup-toolchain.toml COPYONLY)\n"@
        + "add_custom_target(\n"@ + "\tfmt\n"@ + "\tDEPENDS kernel_fmt user_fmt\n"@
        + "\tCOMMAND cargo fmt\n"@ + ")\n"@ + "add_custom_target(\n"@ + "\trust_compiler\n"@
        + "\tWORKING_DIRECTORY ./rust\n"@ + "\tCOMMAND python ./x.py build\n"@
        + "\tCOMMAND python ./x.py install\n"@
        + "\tCOMMAND rustup toolchain link doors-user ${CMAKE_CURRENT_BINARY_DIR}/rust-install\n"@
        + ")\n"@ + "add_custom_target(\n"@ + "\tstack\n"@ + "\tDEPENDS kernel\n"@
        + "\tCOMMAND cargo run --bin kernel-stack-analysis -- --name "@ + kernel_binary_path(
        config.os.kernel_path@,
    ) + "\n"@ + ")\n"@
}

/// The top level file.
pub open spec fn top_text(config: MasterConfig) -> Seq<char> {
    let os = config.os;
    let kbin = kernel_binary_path(os.kernel_path@);
    let with_disk = disk_rules(
        top_start(config),
        os.disk.unique,
        os.disk.common,
        os.kernel_path@,
        config.local,
    );
    let deployed = disk_deploy_rules(with_disk, os.disk.unique, os.disk.common, config.local);
    emulation_symbols_rules(
        emulation_run_rules(deployed, os.target.emulator, config.local),
        os.target.emulator,
        kbin,
    )
}

/// The file of the kernel.
pub open spec fn kernel_text(config: MasterConfig) -> Seq<char> {
    disassembly_rules(
        kernel_rules(
            Seq::<char>::empty() + "cmake_minimum_required(VERSION 3.22)\n"@
                + "project(doors-kernel)\n\n"@,
            config.os.kernel_machine@,
        ),
        config.os.kernel_machine@,
    )
}

/// The file of the user programs.
pub open spec fn user_text(config: MasterConfig) -> Seq<char> {
    user_rules(Seq::<char>::empty(), config.os.user_machine@)
}

/// The configuration can be built: the emulator supports the ports and cards it uses, and a
/// network image has somewhere to be deployed.
pub open spec fn build_supported(config: MasterConfig) -> bool {
    &&& emulation_supported(config.os.target.emulator, config.os.target.config, config.local)
    &&& deploy_supported(config.os.disk.unique, config.local)
}

/// Check that the configuration can be built
pub fn check_build_supported(config: &MasterConfig) -> (r: bool)
    ensures
        r == build_supported(*config),
{
    let deploy_ok = match &config.os.disk.unique {
        crate::build_config::DiskImageConfigurationUnique::Network(_) => config.local.tftp_base.is_some(),
        _ => true,
    };
    deploy_ok && config.os.target.emulator.supported(&config.os.target.config, &config.local)
}

/// Build the cmakelists files from the configuration; `cwd` is the folder the build runs in.
pub fn build_cmake_files(config: &MasterConfig, cwd: &str) -> (r: CmakeFiles)
    requires
        build_supported(*config),
    ensures
        r.top@ == top_text(*config),
        r.kernel@ == kernel_text(*config),
        r.user@ == user_text(*config),
        r.disk == disk_of(config.os.disk.unique, config.os.disk.common.output),
        actions_view(r.setup@) == emulation_actions(
            config.os.target.emulator,
            disk_of(config.os.disk.unique, config.os.disk.common.output),
            config.os.target.config,
            config.local,
            kernel_binary_path(config.os.kernel_path@),
            cwd@,
        ),
{
    let mut cmakelist = String::new();
    let mut kernel_cmakelist = String::new();
    let mut user_cmakelist = String::new();
    let mut kernel_binary_path = String::from_str("./kernel/target/");
    kernel_binary_path.append(config.os.kernel_path.as_str());
    kernel_binary_path.append("/release/kernel");
    cmakelist.append("cmake_minimum_required(VERSION 3.22)\n");
    cmakelist.append("project(doors-os)\n");
    cmakelist.append("include(ExternalProject)\n");
    cmakelist.append("add_subdirectory(kernel)\n");
    cmakelist.append("add_subdirectory(user)\n");
    cmakelist.append("set(LOCAL_TARGET ");
    cmakelist.append(config.local.target.as_str());
    cmakelist.append(")\n");
    cmakelist.append("set(USER_TARGET ");
    cmakelist.append(config.os.user_machine.as_str());
    cmakelist.append(")\n");
    cmakelist.append("configure_file(rust_bootstrap ./rust/bootstrap.toml)\n");
    cmakelist.append(
        "configure_file(rust_compiler_toolchain.toml ./rust/rustup-toolchain.toml COPYONLY)\n",
    );
    cmakelist.append("add_custom_target(\n");
    cmakelist.append("\tfmt\n");
    cmakelist.append("\tDEPENDS kernel_fmt user_fmt\n");
    cmakelist.append("\tCOMMAND cargo fmt\n");
    cmakelist.append(")\n");
    cmakelist.append("add_custom_target(\n");
    cmakelist.append("\trust_compiler\n");
    cmakelist.append("\tWORKING_DIRECTORY ./rust\n");
    cmakelist.append("\tCOMMAND python ./x.py build\n");
    cmakelist.append("\tCOMMAND python ./x.py install\n");
    cmakelist.append(
        "\tCOMMAND rustup toolchain link doors-user ${CMAKE_CURRENT_BINARY_DIR}/rust-install\n",
    );
    cmakelist.append(")\n");
    cmakelist.append("add_custom_target(\n");
    cmakelist.append("\tstack\n");
    cmakelist.append("\tDEPENDS kernel\n");
    cmakelist.append("\tCOMMAND cargo run --bin kernel-stack-analysis -- --name ");
    cmakelist.append(kernel_binary_path.as_str());
    cmakelist.append("\n");
    cmakelist.append(")\n");
    kernel_cmakelist.append("cmake_minimum_required(VERSION 3.22)\n");
    kernel_cmakelist.append("project(doors-kernel)\n\n");
    config.os.build_kernel(&mut kernel_cmakelist, config.os.kernel_machine.as_str());
    config.os.build_kernel_disassembly(&mut kernel_cmakelist, config.os.kernel_machine.as_str());
    config.os.build_user(&mut user_cmakelist, config.os.user_machine.as_str());
    let built = config.os.disk.unique.build(
        &mut cmakelist,
        &config.os.disk.common,
        config.os.kernel_path.as_str(),
        &config.local,
    );
    let disk = match built {
        Ok(d) => d,
        Err(_) => Disk::Cd(config.os.disk.common.output.clone()),
    };
    config.os.disk.unique.deploy(&config.local, &config.os.disk.common, &mut cmakelist);
    let setup = config.os.target.emulator.build_config(
        &disk,
        &config.os.target.config,
        &config.local,
        kernel_binary_path.as_str(),
        cwd,
    );
    config.os.target.emulator.run(
        &mut cmakelist,
        &config.os.target.config,
        &config.local,
        kernel_binary_path.as_str(),
    );
    config.os.target.emulator.custom_debug_symbols(&mut cmakelist, kernel_binary_path.as_str());
    CmakeFiles {
        top: cmakelist,
        kernel: kernel_cmakelist,
        user: user_cmakelist,
        disk,
        setup,
    }
}

/// The settings file of the editor for the kernel.
pub open spec fn vscode_settings_text(config: MasterConfig) -> Seq<char> {
    Seq::<char>::empty() + "{\n"@ + "\t\"rust-analyzer.cargo.allTargets\": false,\n"@
        + "\t\"rust-analyzer.cargo.target\": \""@ + config.os.kernel_machine@ + "\",\n"@ + "}\n"@
}

/// The contents of the editor settings written for the kernel
pub fn vscode_settings(config: &MasterConfig) -> (r: String)
    ensures
        r@ == vscode_settings_text(*config),
{
    let mut contents = String::new();
    contents.append("{\n");
    contents.append("\t\"rust-analyzer.cargo.allTargets\": false,\n");
    contents.append("\t\"rust-analyzer.cargo.target\": \"");
    contents.append(config.os.kernel_machine.as_str());
    contents.append("\",\n");
    contents.append("}\n");
    contents
}

/// The copy commands are appended to the text.
proof fn lemma_copy_lines_begin(text: Seq<char>, files: Seq<(String, String)>)
    ensures
        text.is_prefix_of(copy_lines(text, files)),
    decreases files.len(),
{
    if files.len() > 0 {
        lemma_copy_lines_begin(text, files.drop_last());
        let c = copy_lines(text, files.drop_last());
        assert(copy_lines(text, files).subrange(0, c.len() as int) =~= c);
        lemma_prefix_trans(text, c, copy_lines(text, files));
    }
}

/// The rules of a cd image are appended to the text.
#[verifier::spinoff_prover]
proof fn lemma_cd_rules_begin(
    t0: Seq<char>,
    common: crate::build_config::DiskImageConfigurationCommon,
    kernel_path: Seq<char>,
)
    ensures
        t0.is_prefix_of(crate::build_config::cd_rules(t0, common, kernel_path)),
{
    let t1 = crate::build_config::cd_rules(t0, common, kernel_path);
    let head = t0 + "add_custom_target(\n"@ + "\tboot_disk\n"@ + "\tDEPENDS kernel\n"@
        + "\tBYPRODUCTS "@ + common.output@ + "\n"@ + "\tCOMMAND rm -rf ./build/iso\n"@
        + "\tCOMMAND mkdir -p "@ + "./build/iso/boot/grub"@ + "\n"@
        + "\tCOMMAND cp grub2.lst ./build/iso/boot/grub/grub.cfg\n"@
        + "\tCOMMAND cp ./kernel/target/"@ + kernel_path
        + "/release/kernel ./build/iso/boot/kernel\n"@
        + "\tCOMMAND rust-strip ./build/iso/boot/kernel\n"@;
    assert(head.subrange(0, t0.len() as int) =~= t0);
    lemma_copy_lines_begin(head, common.config_files@);
    let c = copy_lines(head, common.config_files@);
    assert(t1.subrange(0, c.len() as int) =~= c);
    lemma_prefix_trans(t0, head, c);
    lemma_prefix_trans(t0, c, t1);
}

/// The rules of a network image are appended to the text.
#[verifier::spinoff_prover]
proof fn lemma_network_rules_begin(
    t0: Seq<char>,
    common: crate::build_config::DiskImageConfigurationCommon,
    kernel_path: Seq<char>,
    local: LocalConfiguration,
)
    ensures
        t0.is_prefix_of(crate::build_config::network_rules(t0, common, kernel_path, local)),
{
    let t1 = crate::build_config::network_rules(t0, common, kernel_path, local);
    let out = crate::text::escaped(common.output@);
    let head = t0 + "add_custom_target(\n"@ + "\tboot_disk\n"@ + "\tDEPENDS kernel\n"@
        + "\tBYPRODUCTS "@ + common.output@ + "\n"@
        + "\tCOMMAND mkdir -p "@ + "./build/net/boot"@ + "\n"@
        + "\tCOMMAND cp "@ + local.grub_source@ + "/* ./build/net\n"@
        + "\tCOMMAND grub-mknetdir --net-directory "@ + out
        + " --subdir=/boot/grub -d ./build/net\n"@
        + "\tCOMMAND cp ./kernel/target/"@ + kernel_path + "/release/kernel "@ + out
        + "/boot/kernel\n"@ + "\tCOMMAND strip "@ + out + "/boot/kernel\n"@;
    assert(head.subrange(0, t0.len() as int) =~= t0);
    lemma_copy_lines_begin(head, common.config_files@);
    let c = copy_lines(head, common.config_files@);
    assert(t1.subrange(0, c.len() as int) =~= c);
    lemma_prefix_trans(t0, head, c);
    lemma_prefix_trans(t0, c, t1);
}

/// The rules of a disk image are appended to the text.
proof fn lemma_disk_rules_begin(
    t0: Seq<char>,
    unique: DiskImageConfigurationUnique,
    common: crate::build_config::DiskImageConfigurationCommon,
    kernel_path: Seq<char>,
    local: LocalConfiguration,
)
    ensures
        t0.is_prefix_of(disk_rules(t0, unique, common, kernel_path, local)),
{
    match unique {
        DiskImageConfigurationUnique::Cd(_) => lemma_cd_rules_begin(t0, common, kernel_path),
        DiskImageConfigurationUnique::Network(_) => lemma_network_rules_begin(
            t0,
            common,
            kernel_path,
            local,
        ),
    }
}

/// The rules that deploy a disk image are appended to the text.
proof fn lemma_deploy_rules_begin(
    t1: Seq<char>,
    unique: DiskImageConfigurationUnique,
    common: crate::build_config::DiskImageConfigurationCommon,
    local: LocalConfiguration,
)
    ensures
        t1.is_prefix_of(disk_deploy_rules(t1, unique, common, local)),
{
    let t2 = disk_deploy_rules(t1, unique, common, local);
    assert(t2.subrange(0, t1.len() as int) =~= t1);
}

/// The rules that run an emulator are appended to the text.
proof fn lemma_run_rules_begin(t2: Seq<char>, e: Emulation, local: LocalConfiguration)
    ensures
        t2.is_prefix_of(emulation_run_rules(t2, e, local)),
{
    let t3 = emulation_run_rules(t2, e, local);
    assert(t3.subrange(0, t2.len() as int) =~= t2);
}

/// The rules of an emulator's symbols are appended to the text.
proof fn lemma_symbols_rules_begin(t3: Seq<char>, e: Emulation, s: Seq<char>)
    ensures
        t3.is_prefix_of(emulation_symbols_rules(t3, e, s)),
{
    let t4 = emulation_symbols_rules(t3, e, s);
    assert(t4.subrange(0, t3.len() as int) =~= t3);
}

/// The rules of the disk image, its deployment, the emulator's run rules and its symbol rules
/// are each appended to the text they are given.
proof fn lemma_rules_begin(config: MasterConfig)
    ensures
        top_start(config).is_prefix_of(top_text(config)),
{
    let os = config.os;
    let t0 = top_start(config);
    let t1 = disk_rules(t0, os.disk.unique, os.disk.common, os.kernel_path@, config.local);
    let t2 = disk_deploy_rules(t1, os.disk.unique, os.disk.common, config.local);
    let t3 = emulation_run_rules(t2, os.target.emulator, config.local);
    let t4 = emulation_symbols_rules(t3, os.target.emulator, kernel_binary_path(os.kernel_path@));
    lemma_disk_rules_begin(t0, os.disk.unique, os.disk.common, os.kernel_path@, config.local);
    lemma_deploy_rules_begin(t1, os.disk.unique, os.disk.common, config.local);
    lemma_run_rules_begin(t2, os.target.emulator, config.local);
    lemma_symbols_rules_begin(t3, os.target.emulator, kernel_binary_path(os.kernel_path@));
    lemma_prefix_trans(t0, t1, t2);
    lemma_prefix_trans(t0, t2, t3);
    lemma_prefix_trans(t0, t3, t4);
}

/// A cmake rule that defines the target `name`.
pub open spec fn target_defined(name: Seq<char>) -> Seq<char> {
    "add_custom_target(\n"@ + "\t"@ + name + "\n"@
}

/// The start of the rule of the target `fmt`, depending on the targets `k` and `u`.
pub open spec fn fmt_rule(k: Seq<char>, u: Seq<char>) -> Seq<char> {
    "add_custom_target(\n"@ + "\tfmt\n"@ + "\tDEPENDS "@ + k + " "@ + u + "\n"@
}

/// The text holds the piece somewhere.
pub open spec fn holds_piece(text: Seq<char>, piece: Seq<char>) -> bool {
    exists|i: int|
        0 <= i && i + piece.len() <= text.len() && #[trigger] text.subrange(i, i + piece.len())
            == piece
}

/// A text made of a piece between two others holds the piece.
proof fn lemma_holds_piece(text: Seq<char>, pre: Seq<char>, piece: Seq<char>, post: Seq<char>)
    requires
        text == pre + piece + post,
    ensures
        holds_piece(text, piece),
{
    assert(text.subrange(pre.len() as int, (pre.len() + piece.len()) as int) =~= piece);
}

/// The top level `fmt` target formats the kernel and the user programs: it depends on
/// `kernel_fmt`, a target that the kernel file defines, and on `user_fmt`, a target that the
/// user file defines.
pub proof fn lemma_fmt_formats_kernel_and_user(config: MasterConfig)
    ensures
        holds_piece(top_text(config), fmt_rule("kernel_fmt"@, "user_fmt"@)),
        holds_piece(kernel_text(config), target_defined("kernel_fmt"@)),
        holds_piece(user_text(config), target_defined("user_fmt"@)),
{
    lemma_fmt_names();
    lemma_fmt_in_top(config);
    lemma_fmt_in_kernel(config);
    lemma_fmt_in_user(config);
}

/// What the names of the fmt targets are made of.
proof fn lemma_fmt_names()
    ensures
        "kernel_fmt"@ == "kernel"@ + "_fmt"@,
        "user_fmt"@ == "user"@ + "_fmt"@,
        "\tDEPENDS kernel_fmt user_fmt\n"@ == "\tDEPENDS "@ + "kernel_fmt"@ + " "@ + "user_fmt"@
            + "\n"@,
        "\tkernel_fmt\n"@ == "\t"@ + "kernel_fmt"@ + "\n"@,
        "\tuser_fmt\n"@ == "\t"@ + "user_fmt"@ + "\n"@,
{
    reveal_strlit("kernel_fmt");
    reveal_strlit("kernel");
    reveal_strlit("_fmt");
    reveal_strlit("user_fmt");
    reveal_strlit("user");
    reveal_strlit("\tDEPENDS kernel_fmt user_fmt\n");
    reveal_strlit("\tDEPENDS ");
    reveal_strlit(" ");
    reveal_strlit("\n");
    reveal_strlit("\tkernel_fmt\n");
    reveal_strlit("\tuser_fmt\n");
    reveal_strlit("\t");
    assert("kernel_fmt"@ =~= "kernel"@ + "_fmt"@);
    assert("user_fmt"@ =~= "user"@ + "_fmt"@);
    assert("\tDEPENDS kernel_fmt user_fmt\n"@ =~= "\tDEPENDS "@ + "kernel_fmt"@ + " "@
        + "user_fmt"@ + "\n"@);
    assert("\tkernel_fmt\n"@ =~= "\t"@ + "kernel_fmt"@ + "\n"@);
    assert("\tuser_fmt\n"@ =~= "\t"@ + "user_fmt"@ + "\n"@);
}

/// The top level file holds the `fmt` rule on `kernel_fmt` and `user_fmt`.
proof fn lemma_fmt_in_top(config: MasterConfig)
    requires
        "\tDEPENDS kernel_fmt user_fmt\n"@ == "\tDEPENDS "@ + "kernel_fmt"@ + " "@ + "user_fmt"@
            + "\n"@,
    ensures
        holds_piece(top_text(config), fmt_rule("kernel_fmt"@, "user_fmt"@)),
{
    let pre = Seq::<char>::empty() + "cmake_minimum_required(VERSION 3.22)\n"@ + "project(doors-os)\n"@
        + "include(ExternalProject)\n"@ + "add_subdirectory(kernel)\n"@
        + "add_subdirectory(user)\n"@ + "set(LOCAL_TARGET "@ + config.local.target@ + ")\n"@
        + "set(USER_TARGET "@ + config.os.user_machine@ + ")\n"@
        + "configure_file(rust_bootstrap ./rust/bootstrap.toml)\n"@
        + "configure_file(rust_compiler_toolchain.toml ./rust/rustup-toolchain.toml COPYONLY)\n"@;
    let dep = "\tDEPENDS kernel_fmt user_fmt\n"@;
    let x = pre + "add_custom_target(\n"@ + "\tfmt\n"@ + dep;
    let block = fmt_rule("kernel_fmt"@, "user_fmt"@);
    assert(x =~= pre + block);
    let t = top_start(config);
    assert(t.subrange(0, x.len() as int) =~= x);
    lemma_rules_begin(config);
    lemma_prefix_trans(x, t, top_text(config));
    lemma_split_at_prefix(top_text(config), pre, block);
    lemma_holds_piece(top_text(config), pre, block, top_text(config).skip((pre + block).len() as int));
}

/// The kernel file defines the target `kernel_fmt`.
proof fn lemma_fmt_in_kernel(config: MasterConfig)
    requires
        "\tkernel_fmt\n"@ == "\t"@ + "kernel_fmt"@ + "\n"@,
    ensures
        holds_piece(kernel_text(config), target_defined("kernel_fmt"@)),
{
    let m = config.os.kernel_machine@;
    let h = Seq::<char>::empty() + "cmake_minimum_required(VERSION 3.22)\n"@
        + "project(doors-kernel)\n\n"@;
    let pre = h + "add_custom_target(\n"@ + "\tkernel\n"@ + "\tDEPENDS user\n"@
        + "\tBYPRODUCTS target\n"@ + "\tCOMMAND cargo +nightly build --release --target "@
        + m + " --bin kernel\n"@ + ")\n"@
        + "add_custom_target(\n"@ + "\tkernel_clippy\n"@ + "\tBYPRODUCTS target\n"@
        + "\tCOMMAND cargo +nightly clippy --target "@ + m + "\n"@ + ")\n"@;
    let x = pre + "add_custom_target(\n"@ + "\tkernel_fmt\n"@;
    assert(x =~= pre + target_defined("kernel_fmt"@));
    let kr = kernel_rules(h, m);
    assert(kr.subrange(0, x.len() as int) =~= x);
    let kt = kernel_text(config);
    assert(kt.subrange(0, kr.len() as int) =~= kr);
    lemma_prefix_trans(x, kr, kt);
    lemma_split_at_prefix(kt, pre, target_defined("kernel_fmt"@));
    lemma_holds_piece(kt, pre, target_defined("kernel_fmt"@), kt.skip((pre + target_defined("kernel_fmt"@)).len() as int));
}

/// The user file defines the target `user_fmt`.
proof fn lemma_fmt_in_user(config: MasterConfig)
    requires
        "\tuser_fmt\n"@ == "\t"@ + "user_fmt"@ + "\n"@,
    ensures
        holds_piece(user_text(config), target_defined("user_fmt"@)),
{
    let m = config.os.user_machine@;
    let pre = Seq::<char>::empty() + "add_custom_target(\n"@ + "\tuser\n"@ + "\tBYPRODUCTS target\n"@
        + "\tCOMMAND cargo build --release --target "@ + m + "\n"@ + ")\n"@
        + "add_custom_target(\n"@ + "\tuser_clippy\n"@ + "\tBYPRODUCTS target\n"@
        + "\tCOMMAND cargo clippy --target "@ + m + "\n"@ + ")\n"@;
    let x = pre + "add_custom_target(\n"@ + "\tuser_fmt\n"@;
    assert(x =~= pre + target_defined("user_fmt"@));
    let ut = user_text(config);
    assert(ut.subrange(0, x.len() as int) =~= x);
    lemma_split_at_prefix(ut, pre, target_defined("user_fmt"@));
    lemma_holds_piece(ut, pre, target_defined("user_fmt"@), ut.skip((pre + target_defined("user_fmt"@)).len() as int));
}

} // verus!
