//! The commands the engine runs to provision and manage enclaves, the
//! system files it edits, and how it reads the outcome of each command.

use vstd::prelude::*;
use crate::deps::str_views;
use crate::engine::{
    ConfidentialConfig, EnclaveError, GpuConfig, HugepagesConfig, NitroConfig, QemuConfig, TeeType,
};
use crate::text::{concat2, concat3, decimal, u64_to_decimal};
use crate::textscan::{
    contains_text, contains_text_spec, find_from, lemma_find_from, occurs_at, find_text, join_lines, joined_lines,
    lines_containing, lines_with, text_lines,
};

verus! {

/// How a command that was run ended: it could not be started (with the
/// error's message), or it finished with a success flag, its exit status as
/// text, and what it printed.
#[derive(Debug, Clone)]
pub enum CommandRun {
    Failed(String),
    Finished { success: bool, status: String, stdout: String, stderr: String },
}

fn push_text(v: &mut Vec<String>, s: String)
    ensures
        str_views(final(v)@) == str_views(old(v)@).push(s@),
{
    let ghost before = v@;
    let ghost t = s@;
    v.push(s);
    proof {
        assert(str_views(v@) =~= str_views(before).push(t));
    }
}

fn append_texts(v: &mut Vec<String>, w: Vec<String>)
    ensures
        str_views(final(v)@) == str_views(old(v)@) + str_views(w@),
{
    let ghost before = v@;
    let mut w = w;
    let ghost wv = w@;
    v.append(&mut w);
    proof {
        assert(str_views(v@) =~= str_views(before) + str_views(wv));
    }
}

/// The QEMU program used when the configuration names none.
pub const DEFAULT_QEMU_BINARY: &'static str = "/usr/bin/qemu-system-x86_64";

/// The arguments that set up the VM itself.
pub open spec fn qemu_base_args(c: QemuConfig) -> Seq<Seq<char>> {
    seq![
        "-name"@,
        c.vm.name@,
        "-m"@,
        decimal(c.vm.memory as nat),
        "-smp"@,
        "cpus="@ + decimal(c.vm.cpus as nat),
        "-nographic"@,
        "-nodefaults"@,
        "-serial"@,
        "stdio"@,
        "-drive"@,
        "file="@ + c.vm.disk@ + ",if=virtio,format=qcow2"@,
        "-kernel"@,
        c.vm.kernel@,
        "-initrd"@,
        c.vm.initrd@,
        "-append"@,
        c.vm.cmdline@,
        "-netdev"@,
        "user,id=net0"@,
        "-device"@,
        "virtio-net-pci,netdev=net0"@,
    ]
}

/// The firmware argument, when a firmware is named.
pub open spec fn bios_args(firmware: Seq<char>) -> Seq<Seq<char>> {
    if firmware.len() > 0 {
        seq!["-bios"@, firmware]
    } else {
        Seq::empty()
    }
}

/// The SEV guest object.
pub open spec fn sev_object(c: ConfidentialConfig) -> Seq<char> {
    (if c.technology == TeeType::AmdSevSnp {
        "sev-snp-guest"@
    } else {
        "sev-guest"@
    }) + ",id=sev0,cbitpos=51,reduced-phys-bits=1"@ + match c.id_key {
        Some(k) => ",kernel-hashes=on,id-key="@ + k@,
        None => Seq::empty(),
    }
}

/// The arguments of the confidential-computing technology.
pub open spec fn tee_args(c: QemuConfig) -> Seq<Seq<char>> {
    match c.confidential.technology {
        TeeType::IntelTdx => bios_args(c.confidential.firmware@) + seq![
            "-object"@,
            "tdx-guest,id=tdx0,sept-ve-disable=on"@,
            "-machine"@,
            "q35,kernel_irqchip=split,confidential-guest-support=tdx0"@,
            "-cpu"@,
            "host,-kvm-steal-time,pmu=off"@,
        ],
        _ => bios_args(c.confidential.firmware@) + seq![
            "-object"@,
            sev_object(c.confidential),
            "-machine"@,
            "q35,confidential-guest-support=sev0,memory-backend=mem0"@,
            "-object"@,
            "memory-backend-memfd,id=mem0,size="@ + decimal(c.vm.memory as nat) + "M,share=true"@,
            "-cpu"@,
            "EPYC-v4"@,
        ],
    }
}

/// The pass-through arguments of the first `k` GPUs of `devices`.
pub open spec fn gpu_device_args(devices: Seq<Seq<char>>, k: int) -> Seq<Seq<char>>
    decreases k,
{
    if k <= 0 {
        Seq::empty()
    } else {
        gpu_device_args(devices, k - 1) + seq![
            "-device"@,
            "vfio-pci,host="@ + devices[k - 1] + ",id=gpu"@ + decimal((k - 1) as nat),
        ] + if devices.len() > 1 {
            seq!["-device"@, "vfio-pci,host="@ + devices[k - 1] + ",multifunction=on"@]
        } else {
            Seq::empty()
        }
    }
}

/// The GPU pass-through arguments, when GPUs are enabled.
pub open spec fn gpu_args(g: Option<GpuConfig>) -> Seq<Seq<char>> {
    match g {
        Some(gc) => if gc.enable {
            gpu_device_args(str_views(gc.devices@), gc.devices@.len() as int) + seq![
                "-machine"@,
                "iommu=on"@,
            ]
        } else {
            Seq::empty()
        },
        None => Seq::empty(),
    }
}

/// The arguments QEMU is started with.
pub open spec fn qemu_args(c: QemuConfig) -> Seq<Seq<char>> {
    qemu_base_args(c) + tee_args(c) + gpu_args(c.gpu)
}

/// The `nitro-cli` arguments that run an enclave.
pub open spec fn nitro_args(c: NitroConfig) -> Seq<Seq<char>> {
    seq![
        "run-enclave"@,
        "--enclave-name"@,
        c.enclave_name@,
        "--cpu-count"@,
        decimal(c.cpu_count as nat),
        "--memory"@,
        decimal(c.memory_mib as nat),
        "--eif-path"@,
        c.eif_path@,
        "--enclave-cid"@,
        decimal(c.vsock.cid as nat),
    ] + if c.debug_mode {
        seq!["--debug-mode"@]
    } else {
        Seq::empty()
    }
}

/// Provisions and manages QEMU confidential VMs.
#[derive(Debug, Clone, Copy)]
pub struct QemuBackend;

impl QemuBackend {
    pub fn new() -> (b: Self) {
        QemuBackend
    }

    /// The QEMU program to run.
    pub fn binary(&self, config: &QemuConfig) -> (s: String)
        ensures
            config.vm.qemu_binary@.len() == 0 ==> s@ == DEFAULT_QEMU_BINARY@,
            config.vm.qemu_binary@.len() > 0 ==> s@ == config.vm.qemu_binary@,
    {
        broadcast use vstd::string::group_string_axioms;

        if config.vm.qemu_binary.as_str().is_empty() {
            DEFAULT_QEMU_BINARY.to_string()
        } else {
            config.vm.qemu_binary.clone()
        }
    }

    fn base_args(config: &QemuConfig) -> (v: Vec<String>)
        ensures
            str_views(v@) == qemu_base_args(*config),
    {
        broadcast use vstd::string::group_string_axioms;

        let mut v: Vec<String> = Vec::new();
        push_text(&mut v, "-name".to_string());
        push_text(&mut v, config.vm.name.clone());
        push_text(&mut v, "-m".to_string());
        push_text(&mut v, u64_to_decimal(config.vm.memory));
        push_text(&mut v, "-smp".to_string());
        push_text(&mut v, concat2("cpus=", u64_to_decimal(config.vm.cpus as u64).as_str()));
        push_text(&mut v, "-nographic".to_string());
        push_text(&mut v, "-nodefaults".to_string());
        push_text(&mut v, "-serial".to_string());
        push_text(&mut v, "stdio".to_string());
        push_text(&mut v, "-drive".to_string());
        push_text(&mut v, concat3("file=", config.vm.disk.as_str(), ",if=virtio,format=qcow2"));
        push_text(&mut v, "-kernel".to_string());
        push_text(&mut v, config.vm.kernel.clone());
        push_text(&mut v, "-initrd".to_string());
        push_text(&mut v, config.vm.initrd.clone());
        push_text(&mut v, "-append".to_string());
        push_text(&mut v, config.vm.cmdline.clone());
        push_text(&mut v, "-netdev".to_string());
        push_text(&mut v, "user,id=net0".to_string());
        push_text(&mut v, "-device".to_string());
        push_text(&mut v, "virtio-net-pci,netdev=net0".to_string());
        proof {
            assert(str_views(v@) =~= qemu_base_args(*config));
        }
        v
    }

    fn sev_object_text(c: &ConfidentialConfig) -> (s: String)
        ensures
            s@ == sev_object(*c),
    {
        let head = if c.technology == TeeType::AmdSevSnp {
            "sev-snp-guest"
        } else {
            "sev-guest"
        };
        let mut s = concat2(head, ",id=sev0,cbitpos=51,reduced-phys-bits=1");
        match &c.id_key {
            Some(k) => {
                s.append(",kernel-hashes=on,id-key=");
                s.append(k.as_str());
            },
            None => {},
        }
        proof {
            assert(s@ =~= sev_object(*c));
        }
        s
    }

    fn tee_args_of(config: &QemuConfig) -> (v: Vec<String>)
        ensures
            str_views(v@) == tee_args(*config),
    {
        broadcast use vstd::string::group_string_axioms;

        let mut v: Vec<String> = Vec::new();
        if !config.confidential.firmware.as_str().is_empty() {
            push_text(&mut v, "-bios".to_string());
            push_text(&mut v, config.confidential.firmware.clone());
        }
        proof {
            assert(str_views(v@) =~= bios_args(config.confidential.firmware@));
        }
        match config.confidential.technology {
            TeeType::IntelTdx => {
                push_text(&mut v, "-object".to_string());
                push_text(&mut v, "tdx-guest,id=tdx0,sept-ve-disable=on".to_string());
                push_text(&mut v, "-machine".to_string());
                push_text(&mut v, "q35,kernel_irqchip=split,confidential-guest-support=tdx0".to_string());
                push_text(&mut v, "-cpu".to_string());
                push_text(&mut v, "host,-kvm-steal-time,pmu=off".to_string());
            },
            _ => {
                push_text(&mut v, "-object".to_string());
                push_text(&mut v, Self::sev_object_text(&config.confidential));
                push_text(&mut v, "-machine".to_string());
                push_text(&mut v, "q35,confidential-guest-support=sev0,memory-backend=mem0".to_string());
                push_text(&mut v, "-object".to_string());
                push_text(
                    &mut v,
                    concat3(
                        "memory-backend-memfd,id=mem0,size=",
                        u64_to_decimal(config.vm.memory).as_str(),
                        "M,share=true",
                    ),
                );
                push_text(&mut v, "-cpu".to_string());
                push_text(&mut v, "EPYC-v4".to_string());
            },
        }
        proof {
            assert(str_views(v@) =~= tee_args(*config));
        }
        v
    }

    fn gpu_args_of(gpu: &GpuConfig) -> (v: Vec<String>)
        ensures
            str_views(v@) == gpu_args(Some(*gpu)),
    {
        broadcast use vstd::string::group_string_axioms;

        let mut v: Vec<String> = Vec::new();
        if !gpu.enable {
            proof {
                assert(str_views(v@) =~= Seq::<Seq<char>>::empty());
            }
            return v;
        }
        let ghost devs = str_views(gpu.devices@);
        let n = gpu.devices.len();
        let mut k: usize = 0;
        while k < n
            invariant
                n == gpu.devices@.len(),
                devs == str_views(gpu.devices@),
                k <= n,
                str_views(v@) == gpu_device_args(devs, k as int),
            decreases n - k,
        {
            let bdf = gpu.devices[k].as_str();
            let idx = u64_to_decimal(k as u64);
            push_text(&mut v, "-device".to_string());
            let mut dev = concat3("vfio-pci,host=", bdf, ",id=gpu");
            dev.append(idx.as_str());
            push_text(&mut v, dev);
            if n > 1 {
                push_text(&mut v, "-device".to_string());
                push_text(&mut v, concat3("vfio-pci,host=", bdf, ",multifunction=on"));
            }
            proof {
                assert(devs[k as int] == bdf@);
                assert(str_views(v@) =~= gpu_device_args(devs, k + 1));
            }
            k = k + 1;
        }
        push_text(&mut v, "-machine".to_string());
        push_text(&mut v, "iommu=on".to_string());
        proof {
            assert(str_views(v@) =~= gpu_args(Some(*gpu)));
        }
        v
    }

    /// The arguments QEMU is started with.
    pub fn command_args(&self, config: &QemuConfig) -> (v: Vec<String>)
        ensures
            str_views(v@) == qemu_args(*config),
    {
        let mut v = Self::base_args(config);
        append_texts(&mut v, Self::tee_args_of(config));
        match &config.gpu {
            Some(g) => append_texts(&mut v, Self::gpu_args_of(g)),
            None => {},
        }
        proof {
            assert(str_views(v@) =~= qemu_args(*config));
        }
        v
    }

    /// The outcome of provisioning from how QEMU ended: the VM's name, or
    /// the error.
    pub fn provision_result(&self, name: &String, run: CommandRun) -> (r: Result<String, EnclaveError>)
        ensures
            match run {
                CommandRun::Failed(e) => r matches Err(EnclaveError::Qemu(m)) && m@ == "QEMU execution failed: "@ + e@,
                CommandRun::Finished { success, status, stdout, stderr } => if success {
                    r == Ok::<String, EnclaveError>(*name)
                } else {
                    r matches Err(EnclaveError::Qemu(m)) && m@ == "QEMU failed with status "@ + status@ + ": "@ + stderr@
                },
            },
    {
        match run {
            CommandRun::Failed(e) => Err(EnclaveError::Qemu(concat2("QEMU execution failed: ", e.as_str()))),
            CommandRun::Finished { success, status, stdout, stderr } => {
                if success {
                    Ok(name.clone())
                } else {
                    let mut m = concat3("QEMU failed with status ", status.as_str(), ": ");
                    m.append(stderr.as_str());
                    Err(EnclaveError::Qemu(m))
                }
            },
        }
    }

    /// The `pkill` and `pgrep` pattern that finds the VM's process.
    pub fn process_pattern(&self, name: &str) -> (v: Vec<String>)
        ensures
            str_views(v@) == seq!["-f"@, "-name "@ + name@],
    {
        broadcast use vstd::string::group_string_axioms;

        let mut v: Vec<String> = Vec::new();
        push_text(&mut v, "-f".to_string());
        push_text(&mut v, concat2("-name ", name));
        proof {
            assert(str_views(v@) =~= seq!["-f"@, "-name "@ + name@]);
        }
        v
    }

    /// The outcome of stopping the VM from how `pkill` ended.
    pub fn stop_result(&self, name: &str, run: CommandRun) -> (r: Result<(), EnclaveError>)
        ensures
            match run {
                CommandRun::Failed(e) => r matches Err(EnclaveError::Qemu(m)) && m@ == "Failed to stop QEMU: "@ + e@,
                CommandRun::Finished { success, .. } => if success {
                    r is Ok
                } else {
                    r matches Err(EnclaveError::Qemu(m)) && m@ == "Failed to stop QEMU CVM "@ + name@
                },
            },
    {
        match run {
            CommandRun::Failed(e) => Err(EnclaveError::Qemu(concat2("Failed to stop QEMU: ", e.as_str()))),
            CommandRun::Finished { success, .. } => {
                if success {
                    Ok(())
                } else {
                    Err(EnclaveError::Qemu(concat2("Failed to stop QEMU CVM ", name)))
                }
            },
        }
    }

    /// Whether the VM runs, from how `pgrep` ended.
    pub fn status_result(&self, run: CommandRun) -> (r: Result<bool, EnclaveError>)
        ensures
            match run {
                CommandRun::Failed(e) => r matches Err(EnclaveError::Qemu(m)) && m@ == "Failed to check status: "@ + e@,
                CommandRun::Finished { success, .. } => r == Ok::<bool, EnclaveError>(success),
            },
    {
        match run {
            CommandRun::Failed(e) => Err(EnclaveError::Qemu(concat2("Failed to check status: ", e.as_str()))),
            CommandRun::Finished { success, .. } => Ok(success),
        }
    }
}

/// Provisions and manages AWS Nitro enclaves through `nitro-cli`.
#[derive(Debug, Clone, Copy)]
pub struct NitroBackend;

impl NitroBackend {
    pub fn new() -> (b: Self) {
        NitroBackend
    }

    /// The `nitro-cli` arguments that run the enclave.
    pub fn command_args(&self, config: &NitroConfig) -> (v: Vec<String>)
        ensures
            str_views(v@) == nitro_args(*config),
    {
        broadcast use vstd::string::group_string_axioms;

        let mut v: Vec<String> = Vec::new();
        push_text(&mut v, "run-enclave".to_string());
        push_text(&mut v, "--enclave-name".to_string());
        push_text(&mut v, config.enclave_name.clone());
        push_text(&mut v, "--cpu-count".to_string());
        push_text(&mut v, u64_to_decimal(config.cpu_count as u64));
        push_text(&mut v, "--memory".to_string());
        push_text(&mut v, u64_to_decimal(config.memory_mib));
        push_text(&mut v, "--eif-path".to_string());
        push_text(&mut v, config.eif_path.clone());
        push_text(&mut v, "--enclave-cid".to_string());
        push_text(&mut v, u64_to_decimal(config.vsock.cid as u64));
        if config.debug_mode {
            push_text(&mut v, "--debug-mode".to_string());
        }
        proof {
            assert(str_views(v@) =~= nitro_args(*config));
        }
        v
    }

    /// The allocator settings written before the enclave is run.
    pub fn allocator_config(&self, config: &NitroConfig) -> (s: String)
        ensures
            s@ == "cpu_count: "@ + decimal(config.cpu_count as nat) + "\nmemory_mib: "@ + decimal(
                config.memory_mib as nat,
            ),
    {
        let mut s = concat3("cpu_count: ", u64_to_decimal(config.cpu_count as u64).as_str(), "\nmemory_mib: ");
        s.append(u64_to_decimal(config.memory_mib).as_str());
        s
    }

    /// The outcome of restarting the allocator service.
    pub fn allocate_result(&self, run: CommandRun) -> (r: Result<(), EnclaveError>)
        ensures
            match run {
                CommandRun::Failed(e) => r matches Err(EnclaveError::Nitro(m)) && m@ == "Failed to restart allocator: "@ + e@,
                CommandRun::Finished { success, stderr, .. } => if success {
                    r is Ok
                } else {
                    r matches Err(EnclaveError::Nitro(m)) && m@ == "Failed to restart allocator service: "@ + stderr@
                },
            },
    {
        match run {
            CommandRun::Failed(e) => Err(EnclaveError::Nitro(concat2("Failed to restart allocator: ", e.as_str()))),
            CommandRun::Finished { success, stderr, .. } => {
                if success {
                    Ok(())
                } else {
                    Err(EnclaveError::Nitro(concat2("Failed to restart allocator service: ", stderr.as_str())))
                }
            },
        }
    }

    /// The outcome of provisioning from how `nitro-cli` ended: the
    /// enclave's name, or the error.
    pub fn provision_result(&self, name: &String, run: CommandRun) -> (r: Result<String, EnclaveError>)
        ensures
            match run {
                CommandRun::Failed(e) => r matches Err(EnclaveError::Nitro(m)) && m@ == "Nitro CLI execution failed: "@ + e@,
                CommandRun::Finished { success, status, stdout, stderr } => if success {
                    r == Ok::<String, EnclaveError>(*name)
                } else {
                    r matches Err(EnclaveError::Nitro(m)) && m@ == "Nitro CLI failed with status "@ + status@ + ": "@ + stderr@
                },
            },
    {
        match run {
            CommandRun::Failed(e) => Err(EnclaveError::Nitro(concat2("Nitro CLI execution failed: ", e.as_str()))),
            CommandRun::Finished { success, status, stdout, stderr } => {
                if success {
                    Ok(name.clone())
                } else {
                    let mut m = concat3("Nitro CLI failed with status ", status.as_str(), ": ");
                    m.append(stderr.as_str());
                    Err(EnclaveError::Nitro(m))
                }
            },
        }
    }

    /// The `nitro-cli` arguments that terminate the enclave.
    pub fn stop_args(&self, name: &str) -> (v: Vec<String>)
        ensures
            str_views(v@) == seq!["terminate-enclave"@, "--enclave-name"@, name@],
    {
        broadcast use vstd::string::group_string_axioms;

        let mut v: Vec<String> = Vec::new();
        push_text(&mut v, "terminate-enclave".to_string());
        push_text(&mut v, "--enclave-name".to_string());
        push_text(&mut v, name.to_string());
        proof {
            assert(str_views(v@) =~= seq!["terminate-enclave"@, "--enclave-name"@, name@]);
        }
        v
    }

    /// The outcome of terminating the enclave.
    pub fn stop_result(&self, name: &str, run: CommandRun) -> (r: Result<(), EnclaveError>)
        ensures
            match run {
                CommandRun::Failed(e) => r matches Err(EnclaveError::Nitro(m)) && m@ == "Failed to stop enclave: "@ + e@,
                CommandRun::Finished { success, stderr, .. } => if success {
                    r is Ok
                } else {
                    r matches Err(EnclaveError::Nitro(m)) && m@ == "Failed to stop enclave "@ + name@ + ": "@ + stderr@
                },
            },
    {
        match run {
            CommandRun::Failed(e) => Err(EnclaveError::Nitro(concat2("Failed to stop enclave: ", e.as_str()))),
            CommandRun::Finished { success, stderr, .. } => {
                if success {
                    Ok(())
                } else {
                    let mut m = concat3("Failed to stop enclave ", name, ": ");
                    m.append(stderr.as_str());
                    Err(EnclaveError::Nitro(m))
                }
            },
        }
    }

    /// Whether the enclave runs, from what `describe-enclaves` printed.
    pub fn status_result(&self, name: &str, run: CommandRun) -> (r: Result<String, EnclaveError>)
        ensures
            match run {
                CommandRun::Failed(e) => r matches Err(EnclaveError::Nitro(m)) && m@ == "Failed to get status: "@ + e@,
                CommandRun::Finished { success, stdout, .. } => if !success {
                    r matches Err(EnclaveError::Nitro(m)) && m@ == "Failed to describe enclaves"@
                } else if contains_text_spec(stdout@, name@) {
                    r matches Ok(s) && s@ == "Enclave "@ + name@ + " is running"@
                } else {
                    r matches Ok(s) && s@ == "Enclave "@ + name@ + " is not running"@
                },
            },
    {
        broadcast use vstd::string::group_string_axioms;

        match run {
            CommandRun::Failed(e) => Err(EnclaveError::Nitro(concat2("Failed to get status: ", e.as_str()))),
            CommandRun::Finished { success, stdout, .. } => {
                if !success {
                    Err(EnclaveError::Nitro("Failed to describe enclaves".to_string()))
                } else if contains_text(stdout.as_str(), name) {
                    Ok(concat3("Enclave ", name, " is running"))
                } else {
                    Ok(concat3("Enclave ", name, " is not running"))
                }
            },
        }
    }

    /// The enclaves listed by `describe-enclaves`: its lines that name one.
    pub fn list_result(&self, run: CommandRun) -> (r: Result<Vec<String>, EnclaveError>)
        ensures
            match run {
                CommandRun::Failed(e) => r matches Err(EnclaveError::Nitro(m)) && m@ == "Failed to list enclaves: "@ + e@,
                CommandRun::Finished { success, stdout, .. } => if !success {
                    r matches Err(EnclaveError::Nitro(m)) && m@ == "Failed to list enclaves"@
                } else {
                    r matches Ok(v) && str_views(v@) == lines_with(text_lines(stdout@), "EnclaveName"@)
                },
            },
    {
        broadcast use vstd::string::group_string_axioms;

        match run {
            CommandRun::Failed(e) => Err(EnclaveError::Nitro(concat2("Failed to list enclaves: ", e.as_str()))),
            CommandRun::Finished { success, stdout, .. } => {
                if !success {
                    Err(EnclaveError::Nitro("Failed to list enclaves".to_string()))
                } else {
                    Ok(lines_containing(stdout.as_str(), "EnclaveName"))
                }
            },
        }
    }
}

/// Where the kernel takes the number of 2 MiB huge pages.
pub const HUGEPAGES_2MB_PATH: &'static str = "/sys/kernel/mm/hugepages/hugepages-2048kB/nr_hugepages";
/// Where the kernel takes the number of 1 GiB huge pages.
pub const HUGEPAGES_1GB_PATH: &'static str = "/sys/kernel/mm/hugepages/hugepages-1048576kB/nr_hugepages";

/// The setting appended to the kernel parameters.
pub open spec fn sysctl_entry(num_pages: u64) -> Seq<char> {
    "\n# Hugepages configuration\nvm.nr_hugepages = "@ + decimal(num_pages as nat) + "\n"@
}

/// Reserves huge pages.
#[derive(Debug, Clone, Copy)]
pub struct HugepagesManager;

impl HugepagesManager {
    pub fn new() -> (m: Self) {
        HugepagesManager
    }

    /// The kernel file that holds the number of pages of the configured size.
    pub fn sysfs_path(&self, config: &HugepagesConfig) -> (r: Result<&'static str, EnclaveError>)
        ensures
            config.page_size_kb == 2048 ==> r == Ok::<&'static str, EnclaveError>(HUGEPAGES_2MB_PATH),
            config.page_size_kb == 1048576 ==> r == Ok::<&'static str, EnclaveError>(HUGEPAGES_1GB_PATH),
            config.page_size_kb != 2048 && config.page_size_kb != 1048576 ==> (r matches Err(EnclaveError::Hugepages(m))
                && m@ == "Unsupported hugepage size: "@ + decimal(config.page_size_kb as nat) + " KB"@),
    {
        if config.page_size_kb == 2048 {
            Ok(HUGEPAGES_2MB_PATH)
        } else if config.page_size_kb == 1048576 {
            Ok(HUGEPAGES_1GB_PATH)
        } else {
            Err(EnclaveError::Hugepages(concat3(
                "Unsupported hugepage size: ",
                u64_to_decimal(config.page_size_kb).as_str(),
                " KB",
            )))
        }
    }

    /// Whether the kernel supports huge pages, from `/proc/meminfo`.
    pub fn check_support(&self, meminfo: &str) -> (r: Result<(), EnclaveError>)
        ensures
            contains_text_spec(meminfo@, "Hugepagesize"@) ==> r is Ok,
            !contains_text_spec(meminfo@, "Hugepagesize"@) ==> (r matches Err(EnclaveError::Hugepages(m))
                && m@ == "Hugepages not supported by kernel"@),
    {
        broadcast use vstd::string::group_string_axioms;

        if contains_text(meminfo, "Hugepagesize") {
            Ok(())
        } else {
            Err(EnclaveError::Hugepages("Hugepages not supported by kernel".to_string()))
        }
    }

    /// The kernel parameters with the huge-page count appended, unless they
    /// already set one.
    pub fn sysctl_update(&self, content: &str, config: &HugepagesConfig) -> (r: Option<String>)
        ensures
            !config.enable || contains_text_spec(content@, "vm.nr_hugepages"@) ==> r is None,
            config.enable && !contains_text_spec(content@, "vm.nr_hugepages"@) ==> (r matches Some(s) && s@
                == content@ + sysctl_entry(config.num_pages)),
    {
        if !config.enable || contains_text(content, "vm.nr_hugepages") {
            return None;
        }
        let mut s = content.to_string();
        s.append(concat3(
            "\n# Hugepages configuration\nvm.nr_hugepages = ",
            u64_to_decimal(config.num_pages).as_str(),
            "\n",
        ).as_str());
        proof {
            assert(s@ =~= content@ + sysctl_entry(config.num_pages));
        }
        Some(s)
    }

    /// The `mount` arguments that mount `hugetlbfs` at `mount_point`.
    pub fn mount_args(&self, mount_point: &str, page_size_kb: u64) -> (v: Vec<String>)
        ensures
            str_views(v@) == seq![
                "-t"@,
                "hugetlbfs"@,
                "-o"@,
                "pagesize="@ + decimal(page_size_kb as nat) + "K"@,
                "none"@,
                mount_point@,
            ],
    {
        broadcast use vstd::string::group_string_axioms;

        let mut v: Vec<String> = Vec::new();
        push_text(&mut v, "-t".to_string());
        push_text(&mut v, "hugetlbfs".to_string());
        push_text(&mut v, "-o".to_string());
        push_text(&mut v, concat3("pagesize=", u64_to_decimal(page_size_kb).as_str(), "K"));
        push_text(&mut v, "none".to_string());
        push_text(&mut v, mount_point.to_string());
        proof {
            assert(str_views(v@) =~= seq![
                "-t"@,
                "hugetlbfs"@,
                "-o"@,
                "pagesize="@ + decimal(page_size_kb as nat) + "K"@,
                "none"@,
                mount_point@,
            ]);
        }
        v
    }

    /// The huge-page lines of `/proc/meminfo`.
    pub fn hugepage_info(&self, meminfo: &str) -> (s: String)
        ensures
            s@ == joined_lines(lines_with(text_lines(meminfo@), "Huge"@)),
    {
        join_lines(&lines_containing(meminfo, "Huge"))
    }
}

/// The text that marks the kernel command line in the GRUB defaults.
pub open spec fn grub_key() -> Seq<char> {
    "GRUB_CMDLINE_LINUX="@
}

/// Inserting into the kernel command line cannot panic: the character
/// after `GRUB_CMDLINE_LINUX=` exists and is a single byte.
pub open spec fn grub_insertable(content: Seq<char>) -> bool {
    match find_from(content, grub_key(), 0) {
        Some(p) => p + 19 < content.len() && (content[p + 19] as u32) < 128,
        None => true,
    }
}

/// The GRUB defaults with NUMA turned on.
pub open spec fn grub_with_numa(content: Seq<char>) -> Seq<char> {
    match find_from(content, grub_key(), 0) {
        Some(p) => content.take(p + 20) + "numa=on "@ + content.skip(p + 20),
        None => content + "\nGRUB_CMDLINE_LINUX=\"numa=on\"\n"@,
    }
}

/// Turning NUMA on in the GRUB defaults leaves text that sets `numa=`, so a
/// second update of that text changes nothing.
pub proof fn lemma_grub_update_once(content: Seq<char>)
    requires
        grub_insertable(content),
    ensures
        contains_text_spec(grub_with_numa(content), "numa="@),
{
    reveal_strlit("numa=");
    reveal_strlit("numa=on ");
    reveal_strlit("\nGRUB_CMDLINE_LINUX=\"numa=on\"\n");
    let g = grub_with_numa(content);
    match find_from(content, grub_key(), 0) {
        Some(p) => {
            lemma_find_from(content, grub_key(), 0);
            let at = p + 20;
            assert(0 <= p && p + 19 < content.len());
            let pre = content.take(at);
            assert(pre.len() == at);
            assert(g == pre + "numa=on "@ + content.skip(at));
            assert(g.subrange(at, at + 5) =~= "numa="@);
            assert(occurs_at(g, "numa="@, at));
        },
        None => {
            let at: int = content.len() as int + 21;
            assert(g.subrange(at, at + 5) =~= "numa="@);
            assert(occurs_at(g, "numa="@, at));
        },
    }
}

/// Configures NUMA.
#[derive(Debug, Clone, Copy)]
pub struct NumaManager;

impl NumaManager {
    pub fn new() -> (m: Self) {
        NumaManager
    }

    /// The GRUB defaults with `numa=on` added to the kernel command line,
    /// unless NUMA is disabled or the file already sets `numa=`.
    pub fn grub_update(&self, content: &str, enable: bool) -> (r: Option<String>)
        requires
            enable && !contains_text_spec(content@, "numa="@) ==> grub_insertable(content@),
        ensures
            !enable || contains_text_spec(content@, "numa="@) ==> r is None,
            enable && !contains_text_spec(content@, "numa="@) ==> (r matches Some(s) && s@ == grub_with_numa(content@)),
    {
        broadcast use vstd::string::group_string_axioms;

        if !enable || contains_text(content, "numa=") {
            return None;
        }
        proof {
            reveal_strlit("GRUB_CMDLINE_LINUX=");
        }
        let n = content.unicode_len();
        match find_text(content, "GRUB_CMDLINE_LINUX=") {
            Some(p) => {
                proof {
                    assert(find_from(content@, grub_key(), 0) == Some(p as int));
                    assert(p + 19 < n);
                }
                let at = p + 20;
                let mut s = content.substring_char(0, at).to_string();
                s.append("numa=on ");
                s.append(content.substring_char(at, n));
                proof {
                    assert(s@ =~= grub_with_numa(content@));
                }
                Some(s)
            },
            None => {
                let mut s = content.to_string();
                s.append("\nGRUB_CMDLINE_LINUX=\"numa=on\"\n");
                proof {
                    assert(s@ =~= grub_with_numa(content@));
                }
                Some(s)
            },
        }
    }
}

} // verus!
