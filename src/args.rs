//! The arguments of the command that removes a dependency.
use vstd::prelude::*;

verus! {

/// The kind of a dependency, which decides its section.
#[derive(Clone, Copy, Debug, PartialEq, Eq, Structural)]
pub enum DependencyKind {
    Normal,
    Development,
    Build,
}

/// The name of the section that holds dependencies of kind `k`.
pub open spec fn section_name_of(k: DependencyKind) -> Seq<char> {
    match k {
        DependencyKind::Normal => "dependencies"@,
        DependencyKind::Development => "dev-dependencies"@,
        DependencyKind::Build => "build-dependencies"@,
    }
}

impl DependencyKind {
    /// The name of the section that holds dependencies of this kind.
    pub fn section_name(&self) -> (r: &'static str)
        ensures
            r@ == section_name_of(*self),
    {
        match self {
            DependencyKind::Normal => "dependencies",
            DependencyKind::Development => "dev-dependencies",
            DependencyKind::Build => "build-dependencies",
        }
    }
}

/// The parsed arguments.
#[derive(Debug)]
pub struct Args {
    /// Crate name
    pub arg_crate: String,
    /// dev-dependency
    pub flag_dev: bool,
    /// build-dependency
    pub flag_build: bool,
    /// The manifest's path
    pub flag_manifest_path: Option<String>,
    /// `--version`
    pub flag_version: bool,
}

impl Args {
    /// The kind of dependency to remove; the two flags exclude each other.
    pub fn get_dependency_type(&self) -> (r: DependencyKind)
        requires
            !(self.flag_dev && self.flag_build),
        ensures
            r == (if self.flag_dev {
                DependencyKind::Development
            } else if self.flag_build {
                DependencyKind::Build
            } else {
                DependencyKind::Normal
            }),
    {
        if self.flag_dev {
            DependencyKind::Development
        } else if self.flag_build {
            DependencyKind::Build
        } else {
            DependencyKind::Normal
        }
    }
}

impl Default for Args {
    fn default() -> (r: Args)
        ensures
            r.arg_crate@ == "demo"@,
            !r.flag_dev,
            !r.flag_build,
            r.flag_manifest_path.is_none(),
            !r.flag_version,
    {
        Args {
            arg_crate: "demo".to_owned(),
            flag_dev: false,
            flag_build: false,
            flag_manifest_path: None,
            flag_version: false,
        }
    }
}

} // verus!
