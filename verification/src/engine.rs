//! The enclave engine's configuration, its errors, and its registry of
//! provisioned enclaves.

use vstd::prelude::*;
use crate::text::concat2;

verus! {

/// Which technology runs an enclave.
#[derive(Debug, Clone, Copy, PartialEq, Eq, Structural)]
pub enum BackendType {
    Qemu,
    Nitro,
}

/// The backend of a configuration that names none.
pub fn default_backend() -> (b: BackendType)
    ensures
        b == BackendType::Qemu,
{
    BackendType::Qemu
}

/// The enclave's name and backend.
#[derive(Debug, Clone)]
pub struct GeneralConfig {
    pub name: String,
    pub backend: BackendType,
}

impl Default for GeneralConfig {
    fn default() -> (c: Self)
        ensures
            c.name@ == "default-enclave"@,
            c.backend == BackendType::Qemu,
    {
        broadcast use vstd::string::group_string_axioms;

        GeneralConfig { name: "default-enclave".to_string(), backend: BackendType::Qemu }
    }
}

/// The confidential-computing technology of a QEMU guest.
#[derive(Debug, Clone, Copy, PartialEq, Eq, Structural)]
pub enum TeeType {
    IntelTdx,
    AmdSev,
    AmdSevSnp,
}

/// Maker of a passed-through GPU.
#[derive(Debug, Clone, Copy, PartialEq, Eq, Structural)]
pub enum GpuVendor {
    Nvidia,
    Amd,
}

/// The virtual machine of a QEMU enclave; paths are kept as text.
#[derive(Debug, Clone)]
pub struct VmConfig {
    pub name: String,
    /// Memory in MiB.
    pub memory: u64,
    pub cpus: u32,
    pub disk: String,
    pub kernel: String,
    pub initrd: String,
    pub cmdline: String,
    /// The QEMU program; empty for the default one.
    pub qemu_binary: String,
}

impl Default for VmConfig {
    fn default() -> (c: Self)
        ensures
            c.name@ == "default-vm"@,
            c.memory == 4096,
            c.cpus == 4,
            c.disk@ == "/path/to/disk.qcow2"@,
            c.kernel@ == "/path/to/kernel"@,
            c.initrd@ == "/path/to/initrd"@,
            c.cmdline@ == "console=ttyS0"@,
            c.qemu_binary@ == "/usr/bin/qemu-system-x86_64"@,
    {
        broadcast use vstd::string::group_string_axioms;

        VmConfig {
            name: "default-vm".to_string(),
            memory: 4096,
            cpus: 4,
            disk: "/path/to/disk.qcow2".to_string(),
            kernel: "/path/to/kernel".to_string(),
            initrd: "/path/to/initrd".to_string(),
            cmdline: "console=ttyS0".to_string(),
            qemu_binary: "/usr/bin/qemu-system-x86_64".to_string(),
        }
    }
}

/// The confidential-computing settings of a QEMU guest.
#[derive(Debug, Clone)]
pub struct ConfidentialConfig {
    pub technology: TeeType,
    /// Firmware image; empty for none.
    pub firmware: String,
    pub id_key: Option<String>,
    pub measurement: Option<String>,
}

/// GPUs passed through to a QEMU guest, by PCI address.
#[derive(Debug, Clone)]
pub struct GpuConfig {
    pub enable: bool,
    pub vendor: GpuVendor,
    pub devices: Vec<String>,
}

/// A QEMU confidential VM.
#[derive(Debug, Clone)]
pub struct QemuConfig {
    pub vm: VmConfig,
    pub confidential: ConfidentialConfig,
    pub gpu: Option<GpuConfig>,
}

/// The VSock address of a Nitro enclave.
#[derive(Debug, Clone, Copy, PartialEq, Eq, Structural)]
pub struct VsockConfig {
    pub cid: u32,
    pub port: u32,
}

/// An AWS Nitro enclave.
#[derive(Debug, Clone)]
pub struct NitroConfig {
    pub enclave_name: String,
    pub cpu_count: u32,
    pub memory_mib: u64,
    /// The enclave image file.
    pub eif_path: String,
    pub vsock: VsockConfig,
    pub debug_mode: bool,
}

/// One NUMA node and what is bound to it.
#[derive(Debug, Clone)]
pub struct NumaNode {
    pub node_id: u32,
    pub cpus: Vec<u32>,
    pub memory_gb: u64,
    pub gpus: Vec<String>,
}

/// The NUMA layout to configure.
#[derive(Debug, Clone)]
pub struct NumaConfig {
    pub enable: bool,
    pub nodes: Vec<NumaNode>,
}

/// The huge pages to reserve.
#[derive(Debug, Clone)]
pub struct HugepagesConfig {
    pub enable: bool,
    /// Page size in KiB: 2048 (2 MiB) or 1048576 (1 GiB).
    pub page_size_kb: u64,
    pub num_pages: u64,
    pub mount_point: Option<String>,
}

/// Everything needed to provision one enclave.
#[derive(Debug, Clone)]
pub struct EnclaveConfig {
    pub general: GeneralConfig,
    pub qemu: Option<QemuConfig>,
    pub nitro: Option<NitroConfig>,
    pub numa: Option<NumaConfig>,
    pub hugepages: Option<HugepagesConfig>,
}

/// What went wrong in the engine. Errors of the operating system and of the
/// YAML reader are carried as their messages.
#[derive(Debug, Clone, PartialEq, Eq)]
pub enum EnclaveError {
    Config(String),
    Qemu(String),
    Nitro(String),
    Numa(String),
    Hugepages(String),
    Gpu(String),
    CommandExec(String),
    Io(String),
    Yaml(String),
    NotFound(String),
    AlreadyExists(String),
}

/// The message of an error, as its `Display` writes it.
pub open spec fn enclave_error_text(e: EnclaveError) -> Seq<char> {
    match e {
        EnclaveError::Config(m) => "Configuration error: "@ + m@,
        EnclaveError::Qemu(m) => "QEMU provisioning error: "@ + m@,
        EnclaveError::Nitro(m) => "Nitro provisioning error: "@ + m@,
        EnclaveError::Numa(m) => "NUMA configuration error: "@ + m@,
        EnclaveError::Hugepages(m) => "Hugepages configuration error: "@ + m@,
        EnclaveError::Gpu(m) => "GPU passthrough error: "@ + m@,
        EnclaveError::CommandExec(m) => "Command execution error: "@ + m@,
        EnclaveError::Io(m) => "IO error: "@ + m@,
        EnclaveError::Yaml(m) => "YAML parsing error: "@ + m@,
        EnclaveError::NotFound(m) => "Enclave not found: "@ + m@,
        EnclaveError::AlreadyExists(m) => "Enclave already exists: "@ + m@,
    }
}

impl EnclaveError {
    /// The error's message.
    pub fn message(&self) -> (s: String)
        ensures
            s@ == enclave_error_text(*self),
    {
        match self {
            EnclaveError::Config(m) => concat2("Configuration error: ", m.as_str()),
            EnclaveError::Qemu(m) => concat2("QEMU provisioning error: ", m.as_str()),
            EnclaveError::Nitro(m) => concat2("Nitro provisioning error: ", m.as_str()),
            EnclaveError::Numa(m) => concat2("NUMA configuration error: ", m.as_str()),
            EnclaveError::Hugepages(m) => concat2("Hugepages configuration error: ", m.as_str()),
            EnclaveError::Gpu(m) => concat2("GPU passthrough error: ", m.as_str()),
            EnclaveError::CommandExec(m) => concat2("Command execution error: ", m.as_str()),
            EnclaveError::Io(m) => concat2("IO error: ", m.as_str()),
            EnclaveError::Yaml(m) => concat2("YAML parsing error: ", m.as_str()),
            EnclaveError::NotFound(m) => concat2("Enclave not found: ", m.as_str()),
            EnclaveError::AlreadyExists(m) => concat2("Enclave already exists: ", m.as_str()),
        }
    }
}

/// Where a registered enclave is in its life.
#[derive(Debug, Clone, Copy, PartialEq, Eq, Structural)]
pub enum EnclaveStatus {
    Provisioning,
    Running,
    Stopped,
    Failed,
}

/// A registered enclave.
#[derive(Debug)]
pub struct EnclaveInstance {
    pub id: String,
    pub name: String,
    pub backend: BackendType,
    pub status: EnclaveStatus,
}

impl EnclaveInstance {
    /// A copy of the record.
    pub fn duplicate(&self) -> (c: Self)
        ensures
            c == *self,
    {
        EnclaveInstance {
            id: self.id.clone(),
            name: self.name.clone(),
            backend: self.backend,
            status: self.status,
        }
    }
}

/// A lowercase hexadecimal digit.
pub open spec fn is_lower_hex(c: char) -> bool {
    ('0' <= c && c <= '9') || ('a' <= c && c <= 'f')
}

/// The text form of a version-4 UUID: 36 characters, hyphens at positions
/// 8, 13, 18 and 23, lowercase hexadecimal digits elsewhere, the version
/// digit `4` at position 14 and the variant digit (8, 9, a or b) at 19.
pub open spec fn uuid_v4_text(s: Seq<char>) -> bool {
    &&& s.len() == 36
    &&& forall|i: int|
        0 <= i < 36 ==> if i == 8 || i == 13 || i == 18 || i == 23 {
            #[trigger] s[i] == '-'
        } else {
            is_lower_hex(s[i])
        }
    &&& s[14] == '4'
    &&& (s[19] == '8' || s[19] == '9' || s[19] == 'a' || s[19] == 'b')
}

/// A fresh random enclave id: `uuid::Uuid::new_v4`, written as text by its
/// `Display`, which writes the lowercase hyphenated form. The digits are
/// random; only the form, and the version and variant digits that `new_v4`
/// sets, are stated.
#[verifier::external_body]
fn new_enclave_id() -> (s: String)
    ensures
        uuid_v4_text(s@),
{
    uuid::Uuid::new_v4().to_string()
}

/// The names of the enclaves, in order.
pub open spec fn instance_names(v: Seq<EnclaveInstance>) -> Seq<Seq<char>> {
    v.map_values(|e: EnclaveInstance| e.name@)
}

/// The enclaves known to the engine, each under a distinct name.
pub struct EnclaveRegistry {
    enclaves: Vec<EnclaveInstance>,
}

impl EnclaveRegistry {
    #[verifier::type_invariant]
    spec fn names_unique(self) -> bool {
        instance_names(self.enclaves@).no_duplicates()
    }

    /// The enclaves, in the order they were registered.
    pub closed spec fn instances(self) -> Seq<EnclaveInstance> {
        self.enclaves@
    }

    /// The position of the enclave called `name`, if there is one.
    pub open spec fn lookup(self, name: Seq<char>) -> Option<int> {
        if instance_names(self.instances()).contains(name) {
            Some(instance_names(self.instances()).index_of(name))
        } else {
            None
        }
    }

    /// An empty registry.
    pub fn new() -> (r: Self)
        ensures
            r.instances().len() == 0,
    {
        let r = EnclaveRegistry { enclaves: Vec::new() };
        assert(instance_names(r.enclaves@) =~= Seq::<Seq<char>>::empty());
        r
    }

    fn find(&self, name: &str) -> (r: Option<usize>)
        ensures
            match r {
                Some(i) => self.lookup(name@) == Some(i as int),
                None => self.lookup(name@) is None,
            },
    {
        broadcast use vstd::string::group_string_axioms;

        proof {
            use_type_invariant(self);
        }
        let target = name.to_string();
        let ghost names = instance_names(self.enclaves@);
        let mut i: usize = 0;
        while i < self.enclaves.len()
            invariant
                i <= self.enclaves@.len(),
                names == instance_names(self.enclaves@),
                names.no_duplicates(),
                target@ == name@,
                forall|j: int| 0 <= j < i ==> names[j] != name@,
            decreases self.enclaves@.len() - i,
        {
            if self.enclaves[i].name == target {
                proof {
                    assert(names[i as int] == name@);
                    assert(names.contains(name@));
                    let k = names.index_of(name@);
                    assert(names[k] == name@);
                }
                return Some(i);
            }
            i = i + 1;
        }
        None
    }

    /// Registers an enclave as being provisioned; a name already taken is
    /// an `AlreadyExists` error.
    pub fn register(&mut self, id: String, name: String, backend: BackendType) -> (r: Result<(), EnclaveError>)
        ensures
            old(self).lookup(name@) is Some ==> r == Err::<(), EnclaveError>(EnclaveError::AlreadyExists(name))
                && final(self).instances() == old(self).instances(),
            old(self).lookup(name@) is None ==> r is Ok && final(self).instances() == old(self).instances().push(
                EnclaveInstance { id, name, backend, status: EnclaveStatus::Provisioning },
            ),
    {
        proof {
            use_type_invariant(&*self);
        }
        if self.find(name.as_str()).is_some() {
            return Err(EnclaveError::AlreadyExists(name));
        }
        let ghost before = self.enclaves@;
        let inst = EnclaveInstance { id, name, backend, status: EnclaveStatus::Provisioning };
        let ghost nm = inst.name@;
        let mut v: Vec<EnclaveInstance> = Vec::new();
        std::mem::swap(&mut v, &mut self.enclaves);
        v.push(inst);
        proof {
            let old_names = instance_names(before);
            let nn = instance_names(v@);
            assert(nn =~= old_names.push(nm));
            assert(!old_names.contains(nm));
            assert(nn.no_duplicates()) by {
                assert forall|a: int, b: int| 0 <= a < nn.len() && 0 <= b < nn.len() && a != b implies nn[a] != nn[b] by {
                    if a < old_names.len() && b < old_names.len() {
                        assert(nn[a] == old_names[a]);
                        assert(nn[b] == old_names[b]);
                    } else if a < old_names.len() {
                        assert(nn[a] == old_names[a]);
                    } else if b < old_names.len() {
                        assert(nn[b] == old_names[b]);
                    }
                }
            }
        }
        self.enclaves = v;
        Ok(())
    }

    /// Registers an enclave under a fresh random id; answers the id.
    pub fn register_new(&mut self, name: String, backend: BackendType) -> (r: Result<String, EnclaveError>)
        ensures
            old(self).lookup(name@) is Some ==> r == Err::<String, EnclaveError>(EnclaveError::AlreadyExists(name))
                && final(self).instances() == old(self).instances(),
            old(self).lookup(name@) is None ==> (r matches Ok(id) && final(self).instances() == old(self).instances().push(
                EnclaveInstance { id, name, backend, status: EnclaveStatus::Provisioning },
            )),
            r matches Ok(id) ==> uuid_v4_text(id@),
    {
        let id = new_enclave_id();
        let kept = id.clone();
        match self.register(id, name, backend) {
            Ok(()) => Ok(kept),
            Err(e) => Err(e),
        }
    }

    /// Records how provisioning the enclave called `name` ended: `Running`
    /// when the backend succeeded, `Failed` otherwise.
    pub fn finish_provision(&mut self, name: &str, result: &Result<String, EnclaveError>)
        ensures
            final(self).instances().len() == old(self).instances().len(),
            match old(self).lookup(name@) {
                None => final(self).instances() == old(self).instances(),
                Some(i) => final(self).instances() == old(self).instances().update(
                    i,
                    EnclaveInstance {
                        status: if result is Ok { EnclaveStatus::Running } else { EnclaveStatus::Failed },
                        ..old(self).instances()[i]
                    },
                ),
            },
    {
        let status = match result {
            Ok(_) => EnclaveStatus::Running,
            Err(_) => EnclaveStatus::Failed,
        };
        self.set_status(name, status);
    }

    /// Sets the status of the enclave called `name`, if there is one.
    pub fn set_status(&mut self, name: &str, status: EnclaveStatus)
        ensures
            final(self).instances().len() == old(self).instances().len(),
            match old(self).lookup(name@) {
                None => final(self).instances() == old(self).instances(),
                Some(i) => final(self).instances() == old(self).instances().update(
                    i,
                    EnclaveInstance { status, ..old(self).instances()[i] },
                ),
            },
    {
        proof {
            use_type_invariant(&*self);
        }
        match self.find(name) {
            None => {},
            Some(i) => {
                let mut v: Vec<EnclaveInstance> = Vec::new();
                proof {
                    assert(instance_names(v@) =~= Seq::<Seq<char>>::empty());
                }
                std::mem::swap(&mut v, &mut self.enclaves);
                let ghost before = v@;
                let mut inst = v.remove(i);
                inst.status = status;
                v.insert(i, inst);
                proof {
                    assert(v@ =~= before.update(i as int, inst));
                    assert(instance_names(v@) =~= instance_names(before));
                }
                self.enclaves = v;
            },
        }
    }

    /// The backend of the enclave called `name`; an unknown name is a
    /// `NotFound` error.
    pub fn backend_of(&self, name: &str) -> (r: Result<BackendType, EnclaveError>)
        ensures
            match self.lookup(name@) {
                Some(i) => r == Ok::<BackendType, EnclaveError>(self.instances()[i].backend),
                None => r matches Err(EnclaveError::NotFound(m)) && m@ == name@,
            },
    {
        match self.find(name) {
            Some(i) => Ok(self.enclaves[i].backend),
            None => Err(EnclaveError::NotFound(name.to_string())),
        }
    }

    /// The record of the enclave called `name`; an unknown name is a
    /// `NotFound` error.
    pub fn status(&self, name: &str) -> (r: Result<EnclaveInstance, EnclaveError>)
        ensures
            match self.lookup(name@) {
                Some(i) => r == Ok::<EnclaveInstance, EnclaveError>(self.instances()[i]),
                None => r matches Err(EnclaveError::NotFound(m)) && m@ == name@,
            },
    {
        match self.find(name) {
            Some(i) => Ok(self.enclaves[i].duplicate()),
            None => Err(EnclaveError::NotFound(name.to_string())),
        }
    }

    /// The records of all enclaves, in registration order.
    pub fn list(&self) -> (v: Vec<EnclaveInstance>)
        ensures
            v@ == self.instances(),
    {
        let mut v: Vec<EnclaveInstance> = Vec::new();
        let mut i: usize = 0;
        while i < self.enclaves.len()
            invariant
                i <= self.enclaves@.len(),
                v@ == self.enclaves@.take(i as int),
            decreases self.enclaves@.len() - i,
        {
            v.push(self.enclaves[i].duplicate());
            proof {
                assert(self.enclaves@.take(i + 1) =~= self.enclaves@.take(i as int).push(self.enclaves@[i as int]));
            }
            i = i + 1;
        }
        proof {
            assert(self.enclaves@.take(i as int) =~= self.enclaves@);
        }
        v
    }

    /// Removes the enclave called `name`; an unknown name is a `NotFound`
    /// error.
    pub fn remove(&mut self, name: &str) -> (r: Result<(), EnclaveError>)
        ensures
            match old(self).lookup(name@) {
                Some(i) => r is Ok && final(self).instances() == old(self).instances().remove(i),
                None => (r matches Err(EnclaveError::NotFound(m)) && m@ == name@) && final(self).instances()
                    == old(self).instances(),
            },
            final(self).lookup(name@) is None,
    {
        proof {
            use_type_invariant(&*self);
        }
        match self.find(name) {
            None => Err(EnclaveError::NotFound(name.to_string())),
            Some(i) => {
                let mut v: Vec<EnclaveInstance> = Vec::new();
                proof {
                    assert(instance_names(v@) =~= Seq::<Seq<char>>::empty());
                }
                std::mem::swap(&mut v, &mut self.enclaves);
                let ghost before = v@;
                let ghost old_names = instance_names(before);
                v.remove(i);
                proof {
                    let nn = instance_names(v@);
                    assert(nn =~= old_names.remove(i as int));
                    assert(nn.no_duplicates()) by {
                        assert forall|a: int, b: int| 0 <= a < nn.len() && 0 <= b < nn.len() && a != b implies nn[a] != nn[b] by {
                            let a2 = if a < i { a } else { a + 1 };
                            let b2 = if b < i { b } else { b + 1 };
                            assert(nn[a] == old_names[a2]);
                            assert(nn[b] == old_names[b2]);
                        }
                    }
                    assert(!nn.contains(name@)) by {
                        if nn.contains(name@) {
                            let k = choose|k: int| 0 <= k < nn.len() && nn[k] == name@;
                            let k2 = if k < i { k } else { k + 1 };
                            assert(old_names[k2] == name@);
                            assert(old_names[i as int] == name@);
                        }
                    }
                }
                self.enclaves = v;
                Ok(())
            },
        }
    }
}

/// Provisioning an enclave under a name no enclave has: registering it adds
/// it, as provisioning, after the others (`register_new`), and recording
/// the backend's outcome (`finish_provision`) leaves it `Running` when the
/// backend succeeded and `Failed` otherwise, the others untouched. (A name
/// already taken is refused by `register_new` with the registry unchanged.)
pub proof fn lemma_provision_outcome(
    r0: EnclaveRegistry,
    r1: EnclaveRegistry,
    r2: EnclaveRegistry,
    id: String,
    name: String,
    backend: BackendType,
    result: Result<String, EnclaveError>,
)
    requires
        r0.lookup(name@) is None,
        r1.instances() == r0.instances().push(
            EnclaveInstance { id, name, backend, status: EnclaveStatus::Provisioning },
        ),
        r2.instances() == match r1.lookup(name@) {
            None => r1.instances(),
            Some(i) => r1.instances().update(
                i,
                EnclaveInstance {
                    status: if result is Ok { EnclaveStatus::Running } else { EnclaveStatus::Failed },
                    ..r1.instances()[i]
                },
            ),
        },
    ensures
        r2.instances() == r0.instances().push(
            EnclaveInstance {
                id,
                name,
                backend,
                status: if result is Ok { EnclaveStatus::Running } else { EnclaveStatus::Failed },
            },
        ),
{
    let n0 = instance_names(r0.instances());
    let n1 = instance_names(r1.instances());
    let last = r0.instances().len() as int;
    assert(!n0.contains(name@));
    assert(n1[last] == name@);
    assert(n1.contains(name@));
    let i = n1.index_of(name@);
    assert(0 <= i < n1.len() && n1[i] == name@);
    if i < last {
        assert(n1[i] == n0[i]);
        assert(false);
    }
    assert(r1.lookup(name@) == Some(last));
    assert(r2.instances() =~= r0.instances().push(
        EnclaveInstance {
            id,
            name,
            backend,
            status: if result is Ok { EnclaveStatus::Running } else { EnclaveStatus::Failed },
        },
    ));
}

} // verus!
