//! The assembly targets that the generator can emit.

use vstd::prelude::*;

verus! {

/// An assembly target.
#[derive(Debug, Clone, Copy, PartialEq, Eq, Structural)]
pub enum Target {
    ARM64,
}

/// A target name that names no target.
#[derive(Debug)]
pub struct TargetParseError;

/// What the standard library's `str::to_lowercase` returns for `s`.
pub uninterp spec fn lower_of(s: Seq<char>) -> Seq<char>;

/// Relies on `str::to_lowercase`: the lowercase form of the text, which
/// depends on its characters alone.
#[verifier::external_body]
fn lowercase(s: &str) -> (r: String)
    ensures
        r@ == lower_of(s@),
{
    s.to_lowercase()
}

impl Target {
    /// The display name of the target.
    pub open spec fn name(self) -> Seq<char> {
        match self {
            Target::ARM64 => "Arm64"@,
        }
    }

    pub fn to_string(&self) -> (r: String)
        ensures
            r@ == self.name(),
    {
        match self {
            Target::ARM64 => String::from_str("Arm64"),
        }
    }

    /// The display names of all targets, separated by commas.
    pub open spec fn values_text() -> Seq<char> {
        Target::ARM64.name()
    }

    pub fn get_values_string() -> (r: String)
        ensures
            r@ == Target::values_text(),
    {
        let all: Vec<Target> = vec![Target::ARM64];
        let mut out = String::new();
        let mut k: usize = 0;
        while k < all.len()
            invariant
                all@ == seq![Target::ARM64],
                k <= all@.len(),
                k == 0 ==> out@ == Seq::<char>::empty(),
                k == 1 ==> out@ == Target::ARM64.name(),
            decreases all.len() - k,
        {
            if k > 0 {
                out.append(",");
            }
            let name = all[k].to_string();
            out.append(name.as_str());
            k = k + 1;
        }
        out
    }

    /// The target whose lowercase name is `lowered`.
    pub open spec fn from_lowered_spec(lowered: Seq<char>) -> Result<Target, TargetParseError> {
        if lowered == "arm64"@ {
            Ok(Target::ARM64)
        } else {
            Err(TargetParseError)
        }
    }

    /// The target whose name, already in lowercase, is `lowered`.
    pub fn from_lowered(lowered: &str) -> (r: Result<Target, TargetParseError>)
        ensures
            r == Target::from_lowered_spec(lowered@),
    {
        let given = String::from_str(lowered);
        let arm = String::from_str("arm64");
        if given == arm {
            Ok(Target::ARM64)
        } else {
            Err(TargetParseError)
        }
    }

    /// The target named `s`, in any letter case.
    pub fn parse_name(s: &str) -> (r: Result<Target, TargetParseError>)
        ensures
            r == Target::from_lowered_spec(lower_of(s@)),
    {
        let lowered = lowercase(s);
        Target::from_lowered(lowered.as_str())
    }
}

impl std::str::FromStr for Target {
    type Err = TargetParseError;

    fn from_str(s: &str) -> Result<Self, Self::Err> {
        Target::parse_name(s)
    }
}

} // verus!
