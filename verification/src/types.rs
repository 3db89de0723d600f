use vstd::prelude::*;

verus! {

/// The parameters of one project: the root folder name, the expansion
/// counts used by the placeholder tokens, and an optional prior root
/// name that forces a rename of an existing directory.
#[derive(Clone)]
pub struct ProjectSetup {
    pub name: String,
    pub days: usize,
    pub cameras: usize,
    pub sound_sources: usize,
    pub deadname: Option<String>,
}

/// One node of the folder template tree. `parent == 0` attaches the
/// folder directly under the project root; `parent == n` with `n >= 1`
/// makes the template at position `n - 1` of the list its parent.
#[derive(Clone)]
pub struct FolderTemplate {
    pub name: String,
    pub parent: usize,
}

/// The ordered list of folder templates. A template's position plus one
/// is the number other templates use to refer to it.
#[derive(Clone)]
pub struct FileStructure {
    pub folders_list: Vec<FolderTemplate>,
}

/// The unit of persistence: the setup together with the template list.
#[derive(Clone)]
pub struct Config {
    pub setup: ProjectSetup,
    pub file_structure: FileStructure,
}

/// How computing the directory set can fail.
#[derive(Clone, Copy, Debug, PartialEq, Eq, Structural)]
pub enum ScaffoldError {
    /// A template's parent chain does not reach the root within the hop
    /// bound, or points outside the template list.
    StructuralCycle,
    /// A camera or sound-source count exceeds the 26-letter labeling range.
    Capacity,
}

/// The two ways the tool can be invoked: create a fresh configuration,
/// or apply new parameters on top of a previously stored one.
#[derive(Clone, Copy, Debug, PartialEq, Eq, Structural)]
pub enum OperationType {
    New,
    Update,
}

/// The mathematical reading of a computed path list: the character
/// sequences of its strings, or the error unchanged.
pub open spec fn paths_view(r: Result<Vec<String>, ScaffoldError>) -> Result<
    Seq<Seq<char>>,
    ScaffoldError,
> {
    match r {
        Ok(v) => Ok(v.deep_view()),
        Err(e) => Err(e),
    }
}

} // verus!
