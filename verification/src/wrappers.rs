use vstd::prelude::*;
use vstd::string::StrSliceExecFns;

verus! {

/// The categories of decay radiation that a record pool can be requested for.
#[derive(Debug, Copy, Clone, PartialEq, Eq, Structural)]
pub enum CliRadType {
    Alpha,
    BetaPlus,
    BetaMinus,
    Gamma,
    Xray,
    Electron,
}

impl CliRadType {
    /// Human-readable name of the radiation type.
    pub fn name(&self) -> (r: &'static str)
        ensures
            r@ == match *self {
                CliRadType::Alpha => "alpha"@,
                CliRadType::BetaPlus => "beta plus"@,
                CliRadType::BetaMinus => "beta minus"@,
                CliRadType::Gamma => "gamma"@,
                CliRadType::Xray => "x-ray"@,
                CliRadType::Electron => "electron"@,
            },
    {
        match self {
            CliRadType::Alpha => "alpha",
            CliRadType::BetaPlus => "beta plus",
            CliRadType::BetaMinus => "beta minus",
            CliRadType::Gamma => "gamma",
            CliRadType::Xray => "x-ray",
            CliRadType::Electron => "electron",
        }
    }
}

/// The record property that decay data can be ordered by.
#[derive(Debug, Copy, Clone, PartialEq, Eq, Structural)]
pub enum Property {
    Intensity,
    Energy,
}

impl Property {
    /// Human-readable name of the sort property.
    pub fn name(&self) -> (r: &'static str)
        ensures
            r@ == match *self {
                Property::Intensity => "intensity"@,
                Property::Energy => "energy"@,
            },
    {
        match self {
            Property::Intensity => "intensity",
            Property::Energy => "energy",
        }
    }
}

impl Default for Property {
    /// The default ordering is by ascending energy.
    fn default() -> (r: Self)
        ensures
            r == Property::Energy,
    {
        Property::Energy
    }
}


pub open spec fn lower_seq(s: Seq<char>) -> Seq<char> {
    s.map_values(|c: char| crate::ident::lower_spec(c))
}

/// Reading of a user-written sort-property selector, case-insensitively:
/// "i" or "intensity" picks intensity; "e", "energy" and anything else give
/// the default, energy.
pub open spec fn property_from_spec(s: Seq<char>) -> Property {
    let l = lower_seq(s);
    if l == seq!['i'] || l == seq!['i', 'n', 't', 'e', 'n', 's', 'i', 't', 'y'] {
        Property::Intensity
    } else {
        Property::Energy
    }
}

/// The lower-cased view of `s` is exactly `pat` (which is written lower-case).
fn matches_lower(s: &str, pat: &str) -> (r: bool)
    ensures
        r == (lower_seq(s@) == pat@),
{
    let n = s.unicode_len();
    let m = pat.unicode_len();
    if n != m {
        proof {
            assert(lower_seq(s@).len() == s@.len());
        }
        return false;
    }
    let mut i: usize = 0;
    while i < n
        invariant
            i <= n,
            n as int == s@.len(),
            n as int == pat@.len(),
            forall|k: int| 0 <= k < i ==> lower_seq(s@)[k] == pat@[k],
        decreases n - i,
    {
        let c = crate::ident::to_lower(s.get_char(i));
        let p = pat.get_char(i);
        proof {
            assert(lower_seq(s@)[i as int] == crate::ident::lower_spec(s@[i as int]));
        }
        if c as u32 != p as u32 {
            proof {
                assert(lower_seq(s@)[i as int] != pat@[i as int]);
            }
            return false;
        }
        i += 1;
    }
    proof {
        assert(lower_seq(s@) =~= pat@);
    }
    true
}

impl From<String> for Property {
    /// Read a user-written property selector.
    fn from(property: String) -> (r: Self) {
        proof {
            reveal_strlit("i");
            reveal_strlit("intensity");
            assert("i"@ =~= seq!['i']);
            assert("intensity"@ =~= seq!['i', 'n', 't', 'e', 'n', 's', 'i', 't', 'y']);
        }
        if matches_lower(property.as_str(), "i") || matches_lower(property.as_str(), "intensity") {
            Property::Intensity
        } else {
            Property::Energy
        }
    }
}

impl vstd::std_specs::convert::FromSpecImpl<String> for Property {
    open spec fn obeys_from_spec() -> bool {
        true
    }

    open spec fn from_spec(v: String) -> Property {
        property_from_spec(v@)
    }
}

} // verus!
