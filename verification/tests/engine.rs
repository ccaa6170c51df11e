use enclave_tools::engine::{
    default_backend, BackendType, ConfidentialConfig, EnclaveError, EnclaveRegistry, EnclaveStatus, GeneralConfig,
    GpuConfig, GpuVendor, HugepagesConfig, NitroConfig, QemuConfig, TeeType, VmConfig, VsockConfig,
};
use enclave_tools::engine_cmds::{CommandRun, HugepagesManager, NitroBackend, NumaManager, QemuBackend};

fn qemu(tech: TeeType) -> QemuConfig {
    QemuConfig {
        vm: VmConfig { qemu_binary: String::new(), ..VmConfig::default() },
        confidential: ConfidentialConfig {
            technology: tech,
            firmware: String::new(),
            id_key: None,
            measurement: None,
        },
        gpu: None,
    }
}

#[test]
fn qemu_arguments_for_tdx() {
    let b = QemuBackend::new();
    let c = qemu(TeeType::IntelTdx);
    assert_eq!(b.binary(&c), "/usr/bin/qemu-system-x86_64");
    let args = b.command_args(&c);
    assert_eq!(&args[0..6], &["-name", "default-vm", "-m", "4096", "-smp", "cpus=4"]);
    assert_eq!(args[11], "file=/path/to/disk.qcow2,if=virtio,format=qcow2");
    assert_eq!(args.len(), 28);
    assert_eq!(args[27], "host,-kvm-steal-time,pmu=off");
}

#[test]
fn qemu_arguments_for_sev_snp_with_gpus() {
    let b = QemuBackend::new();
    let mut c = qemu(TeeType::AmdSevSnp);
    c.confidential.firmware = "/fw.bin".to_string();
    c.confidential.id_key = Some("/key".to_string());
    c.gpu = Some(GpuConfig {
        enable: true,
        vendor: GpuVendor::Nvidia,
        devices: vec!["0000:01:00.0".to_string(), "0000:02:00.0".to_string()],
    });
    let args = b.command_args(&c);
    let tail: Vec<&str> = args[22..].iter().map(|s| s.as_str()).collect();
    assert_eq!(
        tail,
        vec![
            "-bios",
            "/fw.bin",
            "-object",
            "sev-snp-guest,id=sev0,cbitpos=51,reduced-phys-bits=1,kernel-hashes=on,id-key=/key",
            "-machine",
            "q35,confidential-guest-support=sev0,memory-backend=mem0",
            "-object",
            "memory-backend-memfd,id=mem0,size=4096M,share=true",
            "-cpu",
            "EPYC-v4",
            "-device",
            "vfio-pci,host=0000:01:00.0,id=gpu0",
            "-device",
            "vfio-pci,host=0000:01:00.0,multifunction=on",
            "-device",
            "vfio-pci,host=0000:02:00.0,id=gpu1",
            "-device",
            "vfio-pci,host=0000:02:00.0,multifunction=on",
            "-machine",
            "iommu=on",
        ]
    );
}

#[test]
fn qemu_outcomes() {
    let b = QemuBackend::new();
    let name = "vm".to_string();
    let ok = CommandRun::Finished { success: true, status: "0".into(), stdout: String::new(), stderr: String::new() };
    assert_eq!(b.provision_result(&name, ok), Ok("vm".to_string()));
    let bad = CommandRun::Finished {
        success: false,
        status: "exit status: 1".into(),
        stdout: String::new(),
        stderr: "boom".into(),
    };
    assert_eq!(
        b.provision_result(&name, bad),
        Err(EnclaveError::Qemu("QEMU failed with status exit status: 1: boom".to_string()))
    );
    assert_eq!(b.process_pattern("vm"), vec!["-f".to_string(), "-name vm".to_string()]);
    assert_eq!(b.status_result(CommandRun::Failed("x".into())), Err(EnclaveError::Qemu("Failed to check status: x".into())));
}

#[test]
fn nitro_commands() {
    let n = NitroBackend::new();
    let c = NitroConfig {
        enclave_name: "e1".to_string(),
        cpu_count: 2,
        memory_mib: 512,
        eif_path: "/img.eif".to_string(),
        vsock: VsockConfig { cid: 16, port: 5000 },
        debug_mode: true,
    };
    assert_eq!(
        n.command_args(&c),
        vec![
            "run-enclave", "--enclave-name", "e1", "--cpu-count", "2", "--memory", "512", "--eif-path", "/img.eif",
            "--enclave-cid", "16", "--debug-mode"
        ]
    );
    assert_eq!(n.allocator_config(&c), "cpu_count: 2\nmemory_mib: 512");
    let listing = CommandRun::Finished {
        success: true,
        status: "0".into(),
        stdout: "[\n  {\"EnclaveName\": \"e1\",\r\n  \"State\": \"RUNNING\"\n]".into(),
        stderr: String::new(),
    };
    assert_eq!(n.list_result(listing.clone()), Ok(vec!["  {\"EnclaveName\": \"e1\",".to_string()]));
    assert_eq!(n.status_result("e1", listing), Ok("Enclave e1 is running".to_string()));
    assert_eq!(n.stop_args("e1"), vec!["terminate-enclave", "--enclave-name", "e1"]);
}

#[test]
fn hugepages_and_numa_files() {
    let h = HugepagesManager::new();
    let mut c = HugepagesConfig { enable: true, page_size_kb: 2048, num_pages: 64, mount_point: None };
    assert_eq!(h.sysfs_path(&c), Ok("/sys/kernel/mm/hugepages/hugepages-2048kB/nr_hugepages"));
    c.page_size_kb = 4;
    assert_eq!(h.sysfs_path(&c), Err(EnclaveError::Hugepages("Unsupported hugepage size: 4 KB".to_string())));
    assert_eq!(
        h.sysctl_update("a=1", &c),
        Some("a=1\n# Hugepages configuration\nvm.nr_hugepages = 64\n".to_string())
    );
    assert_eq!(h.sysctl_update("vm.nr_hugepages = 2", &c), None);
    assert!(h.check_support("Hugepagesize: 2048 kB").is_ok());
    assert!(h.check_support("MemTotal: 1 kB").is_err());
    assert_eq!(h.hugepage_info("MemTotal: 1\nHugePages_Total: 4\nHugepagesize: 2048 kB\n"), "HugePages_Total: 4\nHugepagesize: 2048 kB");
    assert_eq!(h.mount_args("/mnt/h", 2048), vec!["-t", "hugetlbfs", "-o", "pagesize=2048K", "none", "/mnt/h"]);
    let n = NumaManager::new();
    assert_eq!(
        n.grub_update("GRUB_CMDLINE_LINUX=\"quiet\"\n", true),
        Some("GRUB_CMDLINE_LINUX=\"numa=on quiet\"\n".to_string())
    );
    assert_eq!(n.grub_update("X=1", true), Some("X=1\nGRUB_CMDLINE_LINUX=\"numa=on\"\n".to_string()));
    assert_eq!(n.grub_update("numa=off", true), None);
    assert_eq!(n.grub_update("X=1", false), None);
    let once = n.grub_update("GRUB_CMDLINE_LINUX=\"quiet\"\n", true).unwrap();
    assert_eq!(n.grub_update(&once, true), None);
    let appended = n.grub_update("X=1", true).unwrap();
    assert_eq!(n.grub_update(&appended, true), None);
}

#[test]
fn enclave_registry() {
    let mut r = EnclaveRegistry::new();
    assert!(r.register("id1".to_string(), "e1".to_string(), BackendType::Nitro).is_ok());
    assert_eq!(
        r.register("id2".to_string(), "e1".to_string(), BackendType::Qemu),
        Err(EnclaveError::AlreadyExists("e1".to_string()))
    );
    let id = r.register_new("e2".to_string(), default_backend()).unwrap();
    assert!(!id.is_empty());
    let cs: Vec<char> = id.chars().collect();
    assert_eq!(cs.len(), 36);
    for (i, c) in cs.iter().enumerate() {
        if i == 8 || i == 13 || i == 18 || i == 23 {
            assert_eq!(*c, '-');
        } else {
            assert!(c.is_ascii_digit() || ('a'..='f').contains(c));
        }
    }
    assert_eq!(cs[14], '4');
    assert!(['8', '9', 'a', 'b'].contains(&cs[19]));
    assert_eq!(r.status("e2").unwrap().id, id);
    assert_eq!(r.status("e1").unwrap().status, EnclaveStatus::Provisioning);
    r.set_status("e1", EnclaveStatus::Running);
    assert_eq!(r.status("e1").unwrap().status, EnclaveStatus::Running);
    assert_eq!(r.backend_of("e2"), Ok(BackendType::Qemu));
    assert_eq!(r.list().len(), 2);
    assert!(r.remove("e1").is_ok());
    assert_eq!(r.status("e1").unwrap_err(), EnclaveError::NotFound("e1".to_string()));
    assert_eq!(r.remove("e1"), Err(EnclaveError::NotFound("e1".to_string())));
    assert_eq!(EnclaveError::NotFound("x".into()).message(), "Enclave not found: x");
    assert_eq!(GeneralConfig::default().name, "default-enclave");
}

#[test]
fn provisioning_outcome_sets_the_status() {
    let mut r = EnclaveRegistry::new();
    assert!(r.register("id1".to_string(), "ok".to_string(), BackendType::Qemu).is_ok());
    assert!(r.register("id2".to_string(), "bad".to_string(), BackendType::Nitro).is_ok());
    r.finish_provision("ok", &Ok("ok".to_string()));
    r.finish_provision("bad", &Err(EnclaveError::Nitro("boom".to_string())));
    r.finish_provision("absent", &Ok("absent".to_string()));
    assert_eq!(r.status("ok").unwrap().status, EnclaveStatus::Running);
    assert_eq!(r.status("bad").unwrap().status, EnclaveStatus::Failed);
    assert_eq!(r.list().len(), 2);
}
