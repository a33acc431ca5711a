use vstd::prelude::*;

verus! {

/// The kinds of asset events the engine sends.
#[derive(Clone, Copy, Debug, PartialEq, Eq, Structural)]
pub enum AssetEventKind {
    Added,
    Modified,
    Removed,
    Unused,
    LoadedWithDependencies,
}

/// Whether an asset event means the entry script is ready to run: it was added,
/// modified, or loaded with its dependencies, and it is about the entry script's asset.
pub fn signals_ready(kind: AssetEventKind, is_entry_asset: bool) -> (r: bool)
    ensures
        r == (is_entry_asset && (kind == AssetEventKind::Added || kind == AssetEventKind::Modified
            || kind == AssetEventKind::LoadedWithDependencies)),
{
    match kind {
        AssetEventKind::Added | AssetEventKind::Modified | AssetEventKind::LoadedWithDependencies => is_entry_asset,
        _ => false,
    }
}

}
