//! Package managers and their lockfiles.

use crate::files::FileTree;
use crate::paths;
use crate::paths::path_join;
use crate::text;
use crate::text::Text;
use crate::types::ChangedFile;
use vstd::prelude::*;

verus! {

/// The package managers.
#[derive(Debug, Clone, Copy, PartialEq, Eq, Structural)]
pub enum PackageManager {
    Npm,
    Yarn,
    Pnpm,
    Bun,
}

/// The file name of a package manager's lockfile.
pub open spec fn lockfile_of(pm: PackageManager) -> Text {
    match pm {
        PackageManager::Npm => "package-lock.json"@,
        PackageManager::Yarn => "yarn.lock"@,
        PackageManager::Pnpm => "pnpm-lock.yaml"@,
        PackageManager::Bun => "bun.lock"@,
    }
}

/// The file name of a package manager's lockfile.
pub fn lockfile_name(pm: &PackageManager) -> (r: &'static str)
    ensures
        r@ == lockfile_of(*pm),
{
    match pm {
        PackageManager::Npm => "package-lock.json",
        PackageManager::Yarn => "yarn.lock",
        PackageManager::Pnpm => "pnpm-lock.yaml",
        PackageManager::Bun => "bun.lock",
    }
}

/// The directory holds the lockfile of the package manager.
pub open spec fn has_lockfile(files: FileTree, cwd: Text, pm: PackageManager) -> bool {
    files.present(path_join(cwd, lockfile_of(pm)))
}

/// The package manager of a directory: the first of npm, yarn, pnpm and bun whose lockfile it
/// holds.
pub fn detect_package_manager(files: &FileTree, cwd: &str) -> (r: Option<PackageManager>)
    ensures
        r == if has_lockfile(*files, cwd@, PackageManager::Npm) {
            Some(PackageManager::Npm)
        } else if has_lockfile(*files, cwd@, PackageManager::Yarn) {
            Some(PackageManager::Yarn)
        } else if has_lockfile(*files, cwd@, PackageManager::Pnpm) {
            Some(PackageManager::Pnpm)
        } else if has_lockfile(*files, cwd@, PackageManager::Bun) {
            Some(PackageManager::Bun)
        } else {
            None
        },
{
    if files.is_present(paths::join(cwd, "package-lock.json").as_str()) {
        Some(PackageManager::Npm)
    } else if files.is_present(paths::join(cwd, "yarn.lock").as_str()) {
        Some(PackageManager::Yarn)
    } else if files.is_present(paths::join(cwd, "pnpm-lock.yaml").as_str()) {
        Some(PackageManager::Pnpm)
    } else if files.is_present(paths::join(cwd, "bun.lock").as_str()) {
        Some(PackageManager::Bun)
    } else {
        None
    }
}

/// One of the files is the lockfile of the package manager.
pub open spec fn lists_lockfile(files: Seq<ChangedFile>, pm: PackageManager) -> bool {
    exists|i: int| 0 <= i < files.len() && #[trigger] files[i].file_path@ == lockfile_of(pm)
}

/// Whether the lockfile of the package manager is among the changed files.
pub fn has_lockfile_changed(changed_files: &[ChangedFile], pm: &PackageManager) -> (r: bool)
    ensures
        r == lists_lockfile(changed_files@, *pm),
{
    let name = lockfile_name(pm);
    let mut i: usize = 0;
    while i < changed_files.len()
        invariant
            i <= changed_files.len(),
            name@ == lockfile_of(*pm),
            forall|j: int| 0 <= j < i ==> #[trigger] changed_files@[j].file_path@ != name@,
        decreases changed_files.len() - i,
    {
        if text::same(changed_files[i].file_path.as_str(), name) {
            return true;
        }
        i += 1;
    }
    false
}

/// The lockfile of the package manager is a dependency manifest; the `package.json` of the
/// workspace root is one where the lockfile changed too.
pub open spec fn is_manifest(
    file_path: Text,
    pm: Option<PackageManager>,
    lockfile_changed: bool,
) -> bool {
    ||| pm is Some && file_path == lockfile_of(pm->0)
    ||| file_path == "package.json"@ && lockfile_changed
}

/// Whether a file, given by its path from the workspace root, is a dependency manifest: one whose
/// change the comparison of lockfiles explains, so that it need not invalidate every project. A
/// `package.json` that changed alone has no such comparison behind it.
pub fn is_dependency_manifest(
    file_path: &str,
    pm: Option<&PackageManager>,
    lockfile_changed: bool,
) -> (r: bool)
    ensures
        r == is_manifest(
            file_path@,
            match pm {
                Some(p) => Some(*p),
                None => None,
            },
            lockfile_changed,
        ),
{
    if let Some(p) = pm {
        if text::same(file_path, lockfile_name(p)) {
            return true;
        }
    }
    text::same(file_path, "package.json") && lockfile_changed
}

} // verus!
