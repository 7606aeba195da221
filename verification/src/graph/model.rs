//! The deployment manifest model: raw (unvalidated) documents and the typed
//! model built from them.
use crate::graph::configuration::ComponentConfiguration;
use crate::graph::delay::ConnectionDelay;
use crate::graph::yaml::YamlValue;
use crate::text::str_equal;
use vstd::prelude::*;

verus! {

/// The `apiVersion` accepted for deployment manifests.
pub const SUPPORTED_API_VERSION: &'static str = "deploy.neuradix.io/v1alpha1";

/// The execution class of a component.
#[derive(Debug, Clone, Copy, PartialEq, Eq)]
pub enum ExecutionClass {
    /// Externally validated bounded deadline.
    HardRealTime,
    /// Bounded queues and controlled scheduling.
    Deterministic,
    /// Responsive soft deadlines.
    Interactive,
    /// No control-path guarantee.
    BestEffort,
    /// Throughput / accelerator oriented.
    BatchAi,
}

/// The canonical spelling of an execution class.
pub open spec fn class_name(c: ExecutionClass) -> Seq<char> {
    match c {
        ExecutionClass::HardRealTime => "hard-real-time"@,
        ExecutionClass::Deterministic => "deterministic"@,
        ExecutionClass::Interactive => "interactive"@,
        ExecutionClass::BestEffort => "best-effort"@,
        ExecutionClass::BatchAi => "batch-ai"@,
    }
}

/// The class with the given spelling, if any.
pub open spec fn class_named(s: Seq<char>) -> Option<ExecutionClass> {
    if s == "hard-real-time"@ {
        Some(ExecutionClass::HardRealTime)
    } else if s == "deterministic"@ {
        Some(ExecutionClass::Deterministic)
    } else if s == "interactive"@ {
        Some(ExecutionClass::Interactive)
    } else if s == "best-effort"@ {
        Some(ExecutionClass::BestEffort)
    } else if s == "batch-ai"@ {
        Some(ExecutionClass::BatchAi)
    } else {
        None
    }
}

/// Whether a class is on the deterministic control path.
pub open spec fn class_deterministic(c: ExecutionClass) -> bool {
    c == ExecutionClass::HardRealTime || c == ExecutionClass::Deterministic
}

impl ExecutionClass {
    /// Every supported spelling.
    pub const ALL: [&'static str; 5] = ["hard-real-time", "deterministic", "interactive", "best-effort", "batch-ai"];

    /// Parse the canonical spelling.
    pub fn parse(s: &str) -> (r: Option<ExecutionClass>)
        ensures
            r == class_named(s@),
    {
        if str_equal(s, "hard-real-time") {
            Some(ExecutionClass::HardRealTime)
        } else if str_equal(s, "deterministic") {
            Some(ExecutionClass::Deterministic)
        } else if str_equal(s, "interactive") {
            Some(ExecutionClass::Interactive)
        } else if str_equal(s, "best-effort") {
            Some(ExecutionClass::BestEffort)
        } else if str_equal(s, "batch-ai") {
            Some(ExecutionClass::BatchAi)
        } else {
            None
        }
    }

    /// The canonical spelling.
    pub fn as_str(self) -> (s: &'static str)
        ensures
            s@ == class_name(self),
    {
        match self {
            ExecutionClass::HardRealTime => "hard-real-time",
            ExecutionClass::Deterministic => "deterministic",
            ExecutionClass::Interactive => "interactive",
            ExecutionClass::BestEffort => "best-effort",
            ExecutionClass::BatchAi => "batch-ai",
        }
    }

    /// Whether this class is on the deterministic control path (Python is
    /// prohibited there).
    pub fn is_deterministic_path(self) -> (b: bool)
        ensures
            b == class_deterministic(self),
    {
        match self {
            ExecutionClass::HardRealTime => true,
            ExecutionClass::Deterministic => true,
            _ => false,
        }
    }
}

/// The runtime a component executes in.
#[derive(Debug, Clone, Copy, PartialEq, Eq)]
pub enum Runtime {
    /// Native Rust.
    Rust,
    /// An isolated Python worker.
    Python,
}

/// The canonical spelling of a runtime.
pub open spec fn runtime_name(r: Runtime) -> Seq<char> {
    match r {
        Runtime::Rust => "rust"@,
        Runtime::Python => "python"@,
    }
}

/// The runtime with the given spelling, if any.
pub open spec fn runtime_named(s: Seq<char>) -> Option<Runtime> {
    if s == "rust"@ {
        Some(Runtime::Rust)
    } else if s == "python"@ {
        Some(Runtime::Python)
    } else {
        None
    }
}

impl Runtime {
    /// Every supported spelling.
    pub const ALL: [&'static str; 2] = ["rust", "python"];

    /// Parse the canonical spelling.
    pub fn parse(s: &str) -> (r: Option<Runtime>)
        ensures
            r == runtime_named(s@),
    {
        if str_equal(s, "rust") {
            Some(Runtime::Rust)
        } else if str_equal(s, "python") {
            Some(Runtime::Python)
        } else {
            None
        }
    }

    /// The canonical spelling.
    pub fn as_str(self) -> (s: &'static str)
        ensures
            s@ == runtime_name(self),
    {
        match self {
            Runtime::Rust => "rust",
            Runtime::Python => "python",
        }
    }

    /// Whether this is the Python runtime.
    pub fn is_python(self) -> (b: bool)
        ensures
            b == (self == Runtime::Python),
    {
        match self {
            Runtime::Python => true,
            Runtime::Rust => false,
        }
    }
}

/// The safety role of a component in the authority path.
#[derive(Debug, Clone, Copy, PartialEq, Eq)]
pub enum Role {
    /// An ordinary component.
    Normal,
    /// The safety authority boundary.
    Safety,
    /// A safety-relevant actuator.
    Actuator,
}

/// The canonical spelling of a role.
pub open spec fn role_name(r: Role) -> Seq<char> {
    match r {
        Role::Normal => "normal"@,
        Role::Safety => "safety"@,
        Role::Actuator => "actuator"@,
    }
}

/// The role with the given spelling, if any.
pub open spec fn role_named(s: Seq<char>) -> Option<Role> {
    if s == "normal"@ {
        Some(Role::Normal)
    } else if s == "safety"@ {
        Some(Role::Safety)
    } else if s == "actuator"@ {
        Some(Role::Actuator)
    } else {
        None
    }
}

impl Role {
    /// Every supported spelling.
    pub const ALL: [&'static str; 3] = ["normal", "safety", "actuator"];

    /// Parse the canonical spelling.
    pub fn parse(s: &str) -> (r: Option<Role>)
        ensures
            r == role_named(s@),
    {
        if str_equal(s, "normal") {
            Some(Role::Normal)
        } else if str_equal(s, "safety") {
            Some(Role::Safety)
        } else if str_equal(s, "actuator") {
            Some(Role::Actuator)
        } else {
            None
        }
    }

    /// The canonical spelling.
    pub fn as_str(self) -> (s: &'static str)
        ensures
            s@ == role_name(self),
    {
        match self {
            Role::Normal => "normal",
            Role::Safety => "safety",
            Role::Actuator => "actuator",
        }
    }

    /// Whether two roles are equal.
    pub fn same(self, other: Role) -> (b: bool)
        ensures
            b == (self == other),
    {
        match (self, other) {
            (Role::Normal, Role::Normal) => true,
            (Role::Safety, Role::Safety) => true,
            (Role::Actuator, Role::Actuator) => true,
            _ => false,
        }
    }
}

/// A validated compute node.
#[derive(Debug, Clone, PartialEq, Eq)]
pub struct Node {
    /// Node name.
    pub name: String,
    /// Target triple/profile (e.g. `linux-aarch64`).
    pub target: String,
}

/// A validated component.
#[derive(Debug, Clone, PartialEq, Eq)]
pub struct Component {
    /// Component name.
    pub name: String,
    /// The node it is placed on.
    pub node: String,
    /// Execution class.
    pub execution_class: ExecutionClass,
    /// Runtime.
    pub runtime: Runtime,
    /// Safety role.
    pub role: Role,
    /// Contract references this component provides (outputs).
    pub provides: Vec<String>,
    /// Contract references this component requires (inputs).
    pub requires: Vec<String>,
    /// Canonical configuration.
    pub configuration: ComponentConfiguration,
}

/// A validated connection between two components carrying a contract.
#[derive(Debug, Clone, PartialEq, Eq)]
pub struct Connection {
    /// Producer component name.
    pub from: String,
    /// Consumer component name.
    pub to: String,
    /// The contract reference carried.
    pub contract: String,
    /// Logical delay of the edge.
    pub delay: ConnectionDelay,
}

/// A validated deployment.
#[derive(Debug, Clone, PartialEq, Eq)]
pub struct Deployment {
    /// Deployment name.
    pub name: String,
    /// Optional profile label (e.g. `marine-auv`).
    pub profile: Option<String>,
    /// Nodes.
    pub nodes: Vec<Node>,
    /// Components.
    pub components: Vec<Component>,
    /// Connections.
    pub connections: Vec<Connection>,
}

/// A raw, unvalidated deployment document.
#[derive(Debug)]
pub struct RawDeployment {
    /// `apiVersion`
    pub api_version: Option<String>,
    /// `kind`
    pub kind: Option<String>,
    /// `metadata`
    pub metadata: Option<RawMetadata>,
    /// `spec`
    pub spec: Option<RawSpec>,
}

/// Raw metadata.
#[derive(Debug)]
pub struct RawMetadata {
    /// `metadata.name`
    pub name: Option<String>,
}

/// Raw spec.
#[derive(Debug)]
pub struct RawSpec {
    /// `spec.profile`
    pub profile: Option<String>,
    /// `spec.nodes`
    pub nodes: Vec<RawNode>,
    /// `spec.components`
    pub components: Vec<RawComponent>,
    /// `spec.connections`
    pub connections: Vec<RawConnection>,
}

/// Raw node.
#[derive(Debug)]
pub struct RawNode {
    /// `name`
    pub name: Option<String>,
    /// `target`
    pub target: Option<String>,
}

/// Raw component.
#[derive(Debug)]
pub struct RawComponent {
    /// `name`
    pub name: Option<String>,
    /// `node`
    pub node: Option<String>,
    /// `executionClass`
    pub execution_class: Option<String>,
    /// `runtime` (defaults to `rust`)
    pub runtime: Option<String>,
    /// `role` (defaults to `normal`)
    pub role: Option<String>,
    /// `provides`
    pub provides: Vec<String>,
    /// `requires`
    pub requires: Vec<String>,
    /// `configuration` (defaults to the empty mapping)
    pub configuration: YamlValue,
}

/// Raw connection.
#[derive(Debug)]
pub struct RawConnection {
    /// `from`
    pub from: Option<String>,
    /// `to`
    pub to: Option<String>,
    /// `contract`
    pub contract: Option<String>,
    /// `delay` (defaults to `instantaneous`)
    pub delay: YamlValue,
}

} // verus!
