//! Validated per-process resource policy and setup stages.
use crate::python::error::WorkerError;
use crate::text::str_equal;
use vstd::prelude::*;

verus! {

/// Stage reported by the trusted launcher; no worker text selects a policy.
#[derive(Debug, Clone, Copy, PartialEq, Eq)]
pub enum ResourceStage {
    /// Launcher arguments or policy validation.
    Configuration,
    /// Platform page size or native limit representation.
    Platform,
    /// Privileged credentials/capabilities, or unavailable credential evidence.
    Privileges,
    /// Preventing privilege gains across subsequent exec.
    NoNewPrivileges,
    /// Installing both soft and hard CPU limits.
    Cpu,
    /// Installing both soft and hard address-space limits.
    AddressSpace,
    /// Reading back the installed kernel policy.
    Verification,
    /// Missing or malformed launcher confirmation.
    Protocol,
}

/// The stable spelling of a stage in the launcher setup protocol.
pub open spec fn stage_name(stage: ResourceStage) -> Seq<char> {
    match stage {
        ResourceStage::Configuration => "config"@,
        ResourceStage::Platform => "platform"@,
        ResourceStage::Privileges => "privs"@,
        ResourceStage::NoNewPrivileges => "nnp"@,
        ResourceStage::Cpu => "cpu"@,
        ResourceStage::AddressSpace => "as"@,
        ResourceStage::Verification => "verify"@,
        ResourceStage::Protocol => "protocol"@,
    }
}

impl ResourceStage {
    /// Stable bounded spelling used by the launcher setup protocol.
    pub fn as_str(self) -> (s: &'static str)
        ensures
            s@ == stage_name(self),
    {
        match self {
            ResourceStage::Configuration => "config",
            ResourceStage::Platform => "platform",
            ResourceStage::Privileges => "privs",
            ResourceStage::NoNewPrivileges => "nnp",
            ResourceStage::Cpu => "cpu",
            ResourceStage::AddressSpace => "as",
            ResourceStage::Verification => "verify",
            ResourceStage::Protocol => "protocol",
        }
    }

    /// The stage with the given spelling, if any.
    pub fn from_str(value: &str) -> (r: Option<ResourceStage>)
        ensures
            r matches Some(stage) ==> stage_name(stage) == value@,
            r is None ==> forall|stage: ResourceStage| stage_name(stage) != value@,
    {
        let stages = [
            ResourceStage::Configuration,
            ResourceStage::Platform,
            ResourceStage::Privileges,
            ResourceStage::NoNewPrivileges,
            ResourceStage::Cpu,
            ResourceStage::AddressSpace,
            ResourceStage::Verification,
            ResourceStage::Protocol,
        ];
        let mut i: usize = 0;
        while i < 8
            invariant
                0 <= i <= 8,
                stages@ == seq![
                    ResourceStage::Configuration,
                    ResourceStage::Platform,
                    ResourceStage::Privileges,
                    ResourceStage::NoNewPrivileges,
                    ResourceStage::Cpu,
                    ResourceStage::AddressSpace,
                    ResourceStage::Verification,
                    ResourceStage::Protocol,
                ],
                forall|j: int| 0 <= j < i ==> stage_name(#[trigger] stages@[j]) != value@,
            decreases 8 - i,
        {
            let stage = stages[i];
            if str_equal(stage.as_str(), value) {
                return Some(stage);
            }
            i = i + 1;
        }
        assert forall|stage: ResourceStage| stage_name(stage) != value@ by {
            match stage {
                ResourceStage::Configuration => assert(stage == stages@[0]),
                ResourceStage::Platform => assert(stage == stages@[1]),
                ResourceStage::Privileges => assert(stage == stages@[2]),
                ResourceStage::NoNewPrivileges => assert(stage == stages@[3]),
                ResourceStage::Cpu => assert(stage == stages@[4]),
                ResourceStage::AddressSpace => assert(stage == stages@[5]),
                ResourceStage::Verification => assert(stage == stages@[6]),
                ResourceStage::Protocol => assert(stage == stages@[7]),
            }
        }
        None
    }
}

/// Smallest accepted lifetime CPU budget, in seconds.
pub const MIN_CPU_SECONDS: u64 = 1;
/// Largest accepted lifetime CPU budget, in seconds.
pub const MAX_CPU_SECONDS: u64 = 86_400;
/// Smallest accepted address-space budget (16 MiB).
pub const MIN_ADDRESS_SPACE: u64 = 16_777_216;
/// Largest accepted address-space budget (1 TiB).
pub const MAX_ADDRESS_SPACE: u64 = 1_099_511_627_776;

/// Whether a CPU/address-space pair is an accepted policy.
pub open spec fn resource_policy_valid(cpu_seconds: u64, address_space_bytes: u64) -> bool {
    &&& MIN_CPU_SECONDS <= cpu_seconds <= MAX_CPU_SECONDS
    &&& MIN_ADDRESS_SPACE <= address_space_bytes <= MAX_ADDRESS_SPACE
}

/// Immutable per-process lifetime CPU-time and virtual-address-space limits.
/// Soft and hard kernel values are equal; a worker cannot raise its hard limit.
#[derive(Debug, Clone, Copy, PartialEq, Eq)]
pub struct ResourceLimits {
    cpu_seconds: u64,
    address_space_bytes: u64,
}

impl View for ResourceLimits {
    type V = (u64, u64);

    closed spec fn view(&self) -> (u64, u64) {
        (self.cpu_seconds, self.address_space_bytes)
    }
}

impl ResourceLimits {
    /// Validate integral CPU seconds (1..=86,400) and virtual address bytes
    /// (16 MiB..=1 TiB). Zero, infinity and out-of-range values are rejected.
    pub fn new(cpu_seconds: u64, address_space_bytes: u64) -> (r: Result<ResourceLimits, WorkerError>)
        ensures
            resource_policy_valid(cpu_seconds, address_space_bytes) ==> (r matches Ok(l) && l@ == (
            cpu_seconds, address_space_bytes)),
            !resource_policy_valid(cpu_seconds, address_space_bytes) ==> r == Err::<
                ResourceLimits,
                WorkerError,
            >(WorkerError::InvalidConfig("invalid CPU/address-space limits")),
    {
        if cpu_seconds < MIN_CPU_SECONDS || cpu_seconds > MAX_CPU_SECONDS
            || address_space_bytes < MIN_ADDRESS_SPACE || address_space_bytes > MAX_ADDRESS_SPACE
        {
            return Err(WorkerError::InvalidConfig("invalid CPU/address-space limits"));
        }
        Ok(ResourceLimits { cpu_seconds, address_space_bytes })
    }

    /// Whether this value is an accepted policy (every constructed value is).
    pub closed spec fn valid(self) -> bool {
        resource_policy_valid(self.cpu_seconds, self.address_space_bytes)
    }

    /// Integral CPU seconds across all threads for the lifetime of this process.
    pub fn cpu_seconds(self) -> (s: u64)
        ensures
            s == self@.0,
    {
        self.cpu_seconds
    }

    /// Virtual address-space bytes.
    pub fn address_space_bytes(self) -> (b: u64)
        ensures
            b == self@.1,
    {
        self.address_space_bytes
    }

    /// Round the address-space budget down to whole pages of `page` bytes and
    /// revalidate, refusing a page size of zero or a result that the kernel
    /// would read as unlimited (`infinity`). This never installs a limit.
    pub fn for_page_size(self, page: u64, infinity: u64) -> (r: Result<ResourceLimits, WorkerError>)
        ensures
            page == 0 ==> r == Err::<ResourceLimits, WorkerError>(
                WorkerError::ResourceSetup { stage: ResourceStage::Platform, errno: None },
            ),
            page > 0 ==> ({
                let bytes = (self@.1 / page * page) as u64;
                if bytes >= infinity || self@.0 >= infinity {
                    r == Err::<ResourceLimits, WorkerError>(
                        WorkerError::ResourceSetup { stage: ResourceStage::Platform, errno: None },
                    )
                } else if resource_policy_valid(self@.0, bytes) {
                    r matches Ok(l) && l@ == (self@.0, bytes)
                } else {
                    r == Err::<ResourceLimits, WorkerError>(
                        WorkerError::InvalidConfig("invalid CPU/address-space limits"),
                    )
                }
            }),
    {
        if page == 0 {
            return Err(WorkerError::ResourceSetup { stage: ResourceStage::Platform, errno: None });
        }
        let q = self.address_space_bytes / page;
        assert(q * page <= self.address_space_bytes) by (nonlinear_arith)
            requires
                q == self.address_space_bytes / page,
                page > 0,
        ;
        let bytes = q * page;
        if bytes >= infinity || self.cpu_seconds >= infinity {
            return Err(WorkerError::ResourceSetup { stage: ResourceStage::Platform, errno: None });
        }
        ResourceLimits::new(self.cpu_seconds, bytes)
    }
}

/// `nix::unistd::sysconf(SysconfVar::PAGE_SIZE)`: the machine's page size,
/// `None` where the variable is unsupported, or the OS error number. The value
/// belongs to the machine, so nothing is stated of it.
#[verifier::external_body]
fn sysconf_page_size() -> (r: Result<Option<i64>, i32>) {
    match nix::unistd::sysconf(nix::unistd::SysconfVar::PAGE_SIZE) {
        Ok(value) => Ok(value.map(i64::from)),
        Err(error) => Err(error as i32),
    }
}

/// `nix::sys::resource::RLIM_INFINITY`, the kernel's "no limit" value. It
/// differs between targets, so nothing is stated of it.
#[verifier::external_body]
fn rlimit_infinity() -> (r: u64) {
    u64::from(nix::sys::resource::RLIM_INFINITY)
}

/// `bytes` rounded down to whole pages of `page` bytes.
pub open spec fn rounded_to_page(bytes: nat, page: nat) -> nat {
    bytes / page * page
}

/// The page size that a `sysconf` answer gives: a positive value, or the
/// platform failure that the answer stands for.
pub fn page_size_from(answer: Result<Option<i64>, i32>) -> (r: Result<u64, WorkerError>)
    ensures
        match answer {
            Err(code) => r == Err::<u64, WorkerError>(
                WorkerError::ResourceSetup { stage: ResourceStage::Platform, errno: Some(code) },
            ),
            Ok(Some(v)) => if v > 0 {
                r == Ok::<u64, WorkerError>(v as u64)
            } else {
                r == Err::<u64, WorkerError>(
                    WorkerError::ResourceSetup { stage: ResourceStage::Platform, errno: None },
                )
            },
            Ok(None) => r == Err::<u64, WorkerError>(
                WorkerError::ResourceSetup { stage: ResourceStage::Platform, errno: None },
            ),
        },
{
    match answer {
        Err(code) => Err(WorkerError::ResourceSetup { stage: ResourceStage::Platform, errno: Some(code) }),
        Ok(Some(v)) => if v > 0 {
            Ok(v as u64)
        } else {
            Err(WorkerError::ResourceSetup { stage: ResourceStage::Platform, errno: None })
        },
        Ok(None) => Err(WorkerError::ResourceSetup { stage: ResourceStage::Platform, errno: None }),
    }
}

impl ResourceLimits {
    /// Resolve page rounding and native representation for this machine
    /// without installing limits: the budget is rounded down to whole pages of
    /// the machine's page size. This never changes the calling process's limits.
    pub fn for_current_platform(self) -> (r: Result<ResourceLimits, WorkerError>)
        ensures
            r matches Ok(l) ==> {
                &&& l@.0 == self@.0
                &&& resource_policy_valid(l@.0, l@.1)
                &&& exists|page: nat| page > 0 && l@.1 == #[trigger] rounded_to_page(self@.1 as nat, page)
            },
            r matches Err(e) ==> (e == WorkerError::InvalidConfig("invalid CPU/address-space limits")
                || e matches WorkerError::ResourceSetup { stage: ResourceStage::Platform, .. }),
    {
        let page = match page_size_from(sysconf_page_size()) {
            Ok(page) => page,
            Err(e) => return Err(e),
        };
        let r = self.for_page_size(page, rlimit_infinity());
        proof {
            if r is Ok {
                let b = self@.1 as nat;
                assert(b / (page as nat) * (page as nat) <= b) by (nonlinear_arith)
                    requires
                        page > 0,
                ;
                assert(r->Ok_0@.1 == rounded_to_page(self@.1 as nat, page as nat));
            }
        }
        r
    }
}

impl Default for ResourceLimits {
    /// Five CPU minutes and 256 MiB of address space.
    fn default() -> (l: ResourceLimits)
        ensures
            l@ == (300u64, 268_435_456u64),
    {
        ResourceLimits { cpu_seconds: 300, address_space_bytes: 268_435_456 }
    }
}

} // verus!
