use vstd::prelude::*;

verus! {

/// The column families of the store. Each kind of memory lives in a family
/// of its own; `Default` holds the per-namespace counters and the vector
/// index snapshot.
#[derive(Copy, Clone, Debug, PartialEq, Eq, Structural)]
pub enum CfName {
    Episodic,
    Structured,
    SemanticMeta,
    Default,
}

impl CfName {
    /// The name under which the family is created and looked up.
    pub open spec fn name(self) -> Seq<char> {
        match self {
            CfName::Default => "default"@,
            CfName::Episodic => "episodic"@,
            CfName::Structured => "structured"@,
            CfName::SemanticMeta => "semantic_meta"@,
        }
    }

    /// The name under which the family is created and looked up.
    pub fn as_str(self) -> (name: &'static str)
        ensures
            name@ == self.name(),
    {
        match self {
            CfName::Default => "default",
            CfName::Episodic => "episodic",
            CfName::Structured => "structured",
            CfName::SemanticMeta => "semantic_meta",
        }
    }
}

/// Different column families have different names, so no two kinds of
/// memory ever share a family.
pub proof fn cf_names_distinct(a: CfName, b: CfName)
    requires
        a != b,
    ensures
        a.name() != b.name(),
{
    reveal_strlit("default");
    reveal_strlit("episodic");
    reveal_strlit("structured");
    reveal_strlit("semantic_meta");
    // The four names have four different lengths.
    assert(a.name().len() != b.name().len());
}

} // verus!
