//! The policy record: which schemes a contained process may see, and which
//! resources of the intercepted schemes it may open.

use vstd::prelude::*;
use vstd::string::*;

verus! {

/// What a policy record says, as a mathematical value. Every name is the
/// sequence of its characters.
pub struct Policy {
    /// The directory that takes the place of `/`, if the process is jailed.
    pub root: Option<Seq<char>>,
    /// Schemes handed to the process untouched.
    pub pass_schemes: Seq<Seq<char>>,
    /// Schemes served to the process by a filtering proxy.
    pub sandbox_schemes: Seq<Seq<char>>,
    /// Resources allowed by exact name, for reading and writing.
    pub files: Seq<Seq<char>>,
    /// Prefixes under which everything is allowed, for reading and writing.
    pub dirs: Seq<Seq<char>>,
    /// Resources allowed by exact name, for reading only.
    pub rofiles: Seq<Seq<char>>,
    /// Prefixes under which everything is allowed, for reading only.
    pub rodirs: Seq<Seq<char>>,
}

/// A policy record: the schemes that a contained process sees, the
/// resources of the sandboxed schemes that it may reach, and the root of its
/// jail, if it has one. A record is filled in freely, then validated once,
/// and not changed after that.
#[derive(Debug)]
pub struct ContainConfig {
    /// Optional root directory for chroot, normally not given in a
    /// configuration file.
    pub root: Option<String>,
    /// Schemes that are allowed, and handled elsewhere.
    pub pass_schemes: Vec<String>,
    /// Schemes that this sandbox serves itself.
    pub sandbox_schemes: Vec<String>,
    /// Exact names to allow.
    pub files: Vec<String>,
    /// Directories and prefixes to allow.
    pub dirs: Vec<String>,
    /// Exact names to allow for reading only.
    pub rofiles: Vec<String>,
    /// Directories whose contents are allowed for reading only.
    pub rodirs: Vec<String>,
}

/// The names held by a list of strings.
pub open spec fn names(list: Seq<String>) -> Seq<Seq<char>> {
    Seq::new(list.len(), |i: int| list[i]@)
}

impl View for ContainConfig {
    type V = Policy;

    open spec fn view(&self) -> Policy {
        Policy {
            root: match self.root {
                Some(r) => Some(r@),
                None => None,
            },
            pass_schemes: names(self.pass_schemes@),
            sandbox_schemes: names(self.sandbox_schemes@),
            files: names(self.files@),
            dirs: names(self.dirs@),
            rofiles: names(self.rofiles@),
            rodirs: names(self.rodirs@),
        }
    }
}

/// The policy that allows nothing: no root, and every list empty.
pub open spec fn empty_policy() -> Policy {
    Policy {
        root: None,
        pass_schemes: seq![],
        sandbox_schemes: seq![],
        files: seq![],
        dirs: seq![],
        rofiles: seq![],
        rodirs: seq![],
    }
}

/// The policy of `ContainConfig::use_defaults`: the usual device and network
/// schemes pass, `file` is filtered, and a small set of its resources is open.
pub open spec fn default_policy() -> Policy {
    Policy {
        root: None,
        pass_schemes: seq!["rand"@, "null"@, "tcp"@, "udp"@, "thisproc"@],
        sandbox_schemes: seq!["file"@],
        files: seq!["file:/dev/null"@],
        dirs: seq!["file:/bin"@],
        rofiles: seq!["file:/etc/passwd"@, "file:/etc/hostname"@, "file:/tmp"@],
        rodirs: seq!["file:/bin"@],
    }
}

/// A copy of a list of strings.
pub fn clone_names(list: &Vec<String>) -> (r: Vec<String>)
    ensures
        names(r@) == names(list@),
{
    let mut r: Vec<String> = Vec::new();
    let mut i: usize = 0;
    while i < list.len()
        invariant
            i <= list.len(),
            r.len() == i,
            forall|j: int| 0 <= j < i ==> r[j]@ == list[j]@,
        decreases list.len() - i,
    {
        r.push(list[i].clone());
        i += 1;
    }
    assert(names(r@) =~= names(list@));
    r
}

impl Clone for ContainConfig {
    fn clone(&self) -> (r: Self)
        ensures
            r@ == self@,
    {
        ContainConfig {
            root: match &self.root {
                Some(s) => Some(s.clone()),
                None => None,
            },
            pass_schemes: clone_names(&self.pass_schemes),
            sandbox_schemes: clone_names(&self.sandbox_schemes),
            files: clone_names(&self.files),
            dirs: clone_names(&self.dirs),
            rofiles: clone_names(&self.rofiles),
            rodirs: clone_names(&self.rodirs),
        }
    }
}

impl Default for ContainConfig {
    /// The record that allows nothing.
    fn default() -> (r: Self)
        ensures
            r@ == empty_policy(),
    {
        let r = ContainConfig {
            root: None,
            pass_schemes: Vec::new(),
            sandbox_schemes: Vec::new(),
            files: Vec::new(),
            dirs: Vec::new(),
            rofiles: Vec::new(),
            rodirs: Vec::new(),
        };
        assert(r@.pass_schemes =~= seq![]);
        assert(r@.sandbox_schemes =~= seq![]);
        assert(r@.files =~= seq![]);
        assert(r@.dirs =~= seq![]);
        assert(r@.rofiles =~= seq![]);
        assert(r@.rodirs =~= seq![]);
        r
    }
}

impl ContainConfig {
    /// Create a config with sensible defaults.
    pub fn use_defaults() -> (r: Self)
        ensures
            r@ == default_policy(),
    {
        let mut pass_schemes: Vec<String> = Vec::new();
        pass_schemes.push(String::from_str("rand"));
        pass_schemes.push(String::from_str("null"));
        pass_schemes.push(String::from_str("tcp"));
        pass_schemes.push(String::from_str("udp"));
        pass_schemes.push(String::from_str("thisproc"));
        let mut sandbox_schemes: Vec<String> = Vec::new();
        sandbox_schemes.push(String::from_str("file"));
        let mut files: Vec<String> = Vec::new();
        files.push(String::from_str("file:/dev/null"));
        let mut dirs: Vec<String> = Vec::new();
        dirs.push(String::from_str("file:/bin"));
        let mut rofiles: Vec<String> = Vec::new();
        rofiles.push(String::from_str("file:/etc/passwd"));
        rofiles.push(String::from_str("file:/etc/hostname"));
        rofiles.push(String::from_str("file:/tmp"));
        let mut rodirs: Vec<String> = Vec::new();
        rodirs.push(String::from_str("file:/bin"));
        let r = ContainConfig {
            root: None,
            pass_schemes,
            sandbox_schemes,
            files,
            dirs,
            rofiles,
            rodirs,
        };
        assert(r@.pass_schemes =~= default_policy().pass_schemes);
        assert(r@.sandbox_schemes =~= default_policy().sandbox_schemes);
        assert(r@.files =~= default_policy().files);
        assert(r@.dirs =~= default_policy().dirs);
        assert(r@.rofiles =~= default_policy().rofiles);
        assert(r@.rodirs =~= default_policy().rodirs);
        r
    }

    /// Jail the process under `root`, replacing any earlier root.
    pub fn add_chroot(&mut self, root: &str)
        ensures
            final(self)@ == (Policy { root: Some(root@), ..old(self)@ }),
    {
        self.root = Some(String::from_str(root));
    }

    /// Allow everything under `dir` for reading and writing.
    pub fn add_dir(&mut self, dir: &str)
        ensures
            final(self)@ == (Policy { dirs: old(self)@.dirs.push(dir@), ..old(self)@ }),
    {
        self.dirs.push(String::from_str(dir));
        assert(self@.dirs =~= old(self)@.dirs.push(dir@));
    }

    /// Allow everything under `rodir` for reading only.
    pub fn add_rodir(&mut self, rodir: &str)
        ensures
            final(self)@ == (Policy { rodirs: old(self)@.rodirs.push(rodir@), ..old(self)@ }),
    {
        self.rodirs.push(String::from_str(rodir));
        assert(self@.rodirs =~= old(self)@.rodirs.push(rodir@));
    }
}

} // verus!
