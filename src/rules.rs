use vstd::prelude::*;

verus! {

/// A declarative binding of a source tag to a pattern and a destination tag.
pub struct PullRule {
    pub src: String,
    pub regex: Option<String>,
    pub dst: Option<String>,
}

/// The contents of a rules file.
pub struct RulesConfig {
    pub pull_rules: Vec<PullRule>,
}

} // verus!
