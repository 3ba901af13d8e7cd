pub mod aarch64;

use vstd::prelude::*;

use crate::parser::ast::{NodeProg, SpecProg};

verus! {

/// A failure of code generation: an internal-consistency violation met while
/// walking the tree.
#[derive(Debug)]
pub enum GenerationError {
    /// An identifier expression resolved to no entry of the scope stack.
    UnresolvedIdentifier(String),
}

/// The mathematical image of a [`GenerationError`].
pub enum SpecGenerationError {
    UnresolvedIdentifier(Seq<char>),
}

impl View for GenerationError {
    type V = SpecGenerationError;

    open spec fn view(&self) -> SpecGenerationError {
        match self {
            GenerationError::UnresolvedIdentifier(n) => SpecGenerationError::UnresolvedIdentifier(
                n@,
            ),
        }
    }
}

/// The mathematical image of a generation outcome.
pub open spec fn gen_result_model(r: Result<String, GenerationError>) -> Result<
    Seq<char>,
    SpecGenerationError,
> {
    match r {
        Ok(s) => Ok(s@),
        Err(e) => Err(e@),
    }
}

/// The capability of turning a program tree into assembly text for one
/// fixed target.
pub trait CodeGenerator {
    /// The states in which [`Self::generate`] may be called.
    spec fn wf(&self) -> bool;

    /// The programs small enough for this generator's offset arithmetic.
    spec fn accepts(&self, prog: SpecProg) -> bool;

    /// The text, or the failure, that this generator yields for a program.
    spec fn spec_generate(&self, prog: SpecProg) -> Result<Seq<char>, SpecGenerationError>;

    /// Walks the tree and emits newline-joined assembly text for it.
    fn generate(&mut self, prog: &NodeProg) -> (r: Result<String, GenerationError>)
        requires
            old(self).wf(),
            old(self).accepts(prog@),
        ensures
            final(self).wf(),
            gen_result_model(r) == old(self).spec_generate(prog@),
    ;
}

/// Decides whether an operating system and architecture pair names the one
/// supported target.
pub fn target_supported(os: &str, arch: &str) -> (r: bool)
    ensures
        r == (os@ == "macos"@ && arch@ == "aarch64"@),
{
    os.to_owned().eq(&"macos".to_owned()) && arch.to_owned().eq(&"aarch64".to_owned())
}

} // verus!
