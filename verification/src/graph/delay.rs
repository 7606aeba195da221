//! Offline connection delay declarations.
use crate::graph::yaml::{mapping_get, mapping_lookup, YamlValue};
use crate::text::str_equal;
use vstd::prelude::*;

verus! {

/// Maximum positive delay per edge, inclusive.
pub const MAX_TICKS: u64 = 1024;
/// Maximum sum of declared history slots per graph, inclusive.
pub const MAX_TOTAL_TICKS: u64 = 65_536;

/// Validated connection delay. The default is instantaneous; positive delays
/// select earlier logical evaluation ticks and require seed history.
#[derive(Debug, Clone, Copy, PartialEq, Eq)]
pub struct ConnectionDelay {
    ticks: u16,
}

impl View for ConnectionDelay {
    type V = nat;

    closed spec fn view(&self) -> nat {
        self.ticks as nat
    }
}

/// The decision on a positive delay declaration: the ticks, or the refusal.
pub open spec fn delay_new(ticks: u64, unit: Seq<char>, initialization: Seq<char>) -> Result<nat, &'static str> {
    if ticks < 1 || ticks > MAX_TICKS {
        Err("delay ticks must be in 1..=1024")
    } else if unit != "evaluation-ticks"@ {
        Err("delay unit must be evaluation-ticks")
    } else if initialization != "require-seed"@ {
        Err("delay initialization must be require-seed")
    } else {
        Ok(ticks as nat)
    }
}

/// A value that is an unsigned integer.
pub open spec fn as_u64(v: Option<YamlValue>) -> Option<u64> {
    match v {
        Some(YamlValue::Integer(n)) if 0 <= n <= u64::MAX => Some(n as u64),
        _ => None,
    }
}

/// A value that is a string.
pub open spec fn as_text(v: Option<YamlValue>) -> Option<Seq<char>> {
    match v {
        Some(YamlValue::String(s)) => Some(s@),
        _ => None,
    }
}

/// Whether any value of a mapping is tagged.
pub open spec fn any_tagged(entries: Seq<(YamlValue, YamlValue)>) -> bool {
    exists|i: int| 0 <= i < entries.len() && entries[i].1 is Tagged
}

/// The decision on a raw delay declaration.
pub open spec fn delay_decode(v: YamlValue) -> Result<nat, &'static str> {
    match v {
        YamlValue::String(s) if s@ == "instantaneous"@ => Ok(0),
        YamlValue::Mapping(m) => {
            if any_tagged(m@) {
                Err("tagged delay values are unsupported")
            } else if m@.len() != 3 {
                Err("delay requires exactly ticks, unit and initialization")
            } else {
                match as_u64(mapping_get(m@, "ticks"@)) {
                    None => Err("delay ticks must be an unsigned integer"),
                    Some(t) => match as_text(mapping_get(m@, "unit"@)) {
                        None => Err("delay unit is required"),
                        Some(u) => match as_text(mapping_get(m@, "initialization"@)) {
                            None => Err("delay initialization is required"),
                            Some(i) => delay_new(t, u, i),
                        },
                    },
                }
            }
        },
        _ => Err("delay must be instantaneous or an explicit mapping"),
    }
}

impl ConnectionDelay {
    /// The instantaneous delay.
    pub fn instantaneous() -> (d: ConnectionDelay)
        ensures
            d@ == 0,
    {
        ConnectionDelay { ticks: 0 }
    }

    /// Validate a positive delay declaration. Units and initialization policy
    /// are explicit; there is no milliseconds conversion or implicit zero seed.
    pub fn new(ticks: u64, unit: &str, initialization: &str) -> (r: Result<ConnectionDelay, &'static str>)
        ensures
            match delay_new(ticks, unit@, initialization@) {
                Ok(t) => r matches Ok(d) && d@ == t,
                Err(e) => r == Err::<ConnectionDelay, &'static str>(e),
            },
    {
        if ticks < 1 || ticks > MAX_TICKS {
            return Err("delay ticks must be in 1..=1024");
        }
        if !str_equal(unit, "evaluation-ticks") {
            return Err("delay unit must be evaluation-ticks");
        }
        if !str_equal(initialization, "require-seed") {
            return Err("delay initialization must be require-seed");
        }
        Ok(ConnectionDelay { ticks: ticks as u16 })
    }

    /// Zero denotes an instantaneous edge. Positive values select earlier ticks.
    pub fn ticks(self) -> (t: u16)
        ensures
            t == self@,
    {
        self.ticks
    }

    /// Whether same-tick dependency analysis must include this edge.
    pub fn is_instantaneous(self) -> (b: bool)
        ensures
            b == (self@ == 0),
    {
        self.ticks == 0
    }

    /// Whether two delays are equal.
    pub fn same(self, other: ConnectionDelay) -> (b: bool)
        ensures
            b == (self@ == other@),
    {
        self.ticks == other.ticks
    }

    /// Decode a raw declaration; explicit null, tags, floats and unknown keys fail.
    #[verifier::loop_isolation(false)]
    pub fn from_value(value: &YamlValue) -> (r: Result<ConnectionDelay, &'static str>)
        ensures
            match delay_decode(*value) {
                Ok(t) => r matches Ok(d) && d@ == t,
                Err(e) => r == Err::<ConnectionDelay, &'static str>(e),
            },
    {
        match value {
            YamlValue::String(s) => {
                if str_equal(s.as_str(), "instantaneous") {
                    return Ok(ConnectionDelay { ticks: 0 });
                }
                Err("delay must be instantaneous or an explicit mapping")
            },
            YamlValue::Mapping(m) => {
                let mut i: usize = 0;
                while i < m.len()
                    invariant
                        i <= m@.len(),
                        forall|j: int| 0 <= j < i ==> !(m@[j].1 is Tagged),
                    decreases m@.len() - i,
                {
                    match &m[i].1 {
                        YamlValue::Tagged => {
                            assert(m@[i as int].1 is Tagged);
                            assert(any_tagged(m@));
                            return Err("tagged delay values are unsupported");
                        },
                        _ => {},
                    }
                    i = i + 1;
                }
                if m.len() != 3 {
                    return Err("delay requires exactly ticks, unit and initialization");
                }
                let ticks = match mapping_lookup(m, "ticks") {
                    Some(YamlValue::Integer(n)) => {
                        if *n >= 0 && *n <= 0xffff_ffff_ffff_ffff {
                            *n as u64
                        } else {
                            return Err("delay ticks must be an unsigned integer");
                        }
                    },
                    _ => return Err("delay ticks must be an unsigned integer"),
                };
                let unit = match mapping_lookup(m, "unit") {
                    Some(YamlValue::String(u)) => u,
                    _ => return Err("delay unit is required"),
                };
                let initialization = match mapping_lookup(m, "initialization") {
                    Some(YamlValue::String(u)) => u,
                    _ => return Err("delay initialization is required"),
                };
                ConnectionDelay::new(ticks, unit.as_str(), initialization.as_str())
            },
            _ => Err("delay must be instantaneous or an explicit mapping"),
        }
    }
}

impl Default for ConnectionDelay {
    /// The instantaneous delay.
    fn default() -> (d: ConnectionDelay)
        ensures
            d@ == 0,
    {
        ConnectionDelay { ticks: 0 }
    }
}

} // verus!
