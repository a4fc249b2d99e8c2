use vstd::prelude::*;

verus! {

/// Which remote registry a model is pulled from. Only the Ollama provider's
/// path is implemented by the engine; the others are selectable stubs.
#[derive(Debug, Clone, PartialEq, Eq, Structural)]
pub enum Provider {
    Huggingface,
    Ollama,
    Modelscope,
}

impl Default for Provider {
    /// The provider selected when none is named.
    fn default() -> (r: Self)
        ensures
            r == Provider::Huggingface,
    {
        Provider::Huggingface
    }
}

} // verus!
