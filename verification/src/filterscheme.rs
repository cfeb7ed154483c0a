//! The path resolver of a filtered scheme.
//!
//! A filtered scheme stands between a contained process and one scheme of
//! the host. For each request it decides, from the policy, whether the named
//! resource may be reached and under which name the host is to be asked.
//!
//! The decision needs the host once, to learn the canonical name of a
//! resource. The resolver does not ask the host itself: `lookup` says which
//! name is to be made canonical, and `resolve` takes the host's answer and
//! decides.

use std::sync::Arc;
use vstd::prelude::*;
use vstd::string::*;
use crate::abi::{
    is_creation, is_write_bearing, requests_creation, write_bearing, EINVAL, ENOENT, EPERM, O_RDWR,
};
use crate::contain_config::{names, ContainConfig, Policy};
use crate::text::{chars_eq, chars_start_with, to_chars};
use crate::uri::{
    concat3, has_parent_segment, has_traversal, is_traversal, joined, leading_slashes,
    lemma_normalized_is_stable, natural_uri, normalize, normalized, rooted_uri, split, split_last,
};

verus! {

/// What the host is to make canonical before a request can be decided.
#[derive(Debug, PartialEq, Eq)]
pub enum Lookup {
    /// The resource itself, which must exist.
    Existing { uri: String },
    /// The directory in which the resource `name` is to be created.
    Creation { dir: String, name: String },
}

/// What a `Lookup` says, as a mathematical value.
pub enum LookupView {
    Existing { uri: Seq<char> },
    Creation { dir: Seq<char>, name: Seq<char> },
}

impl View for Lookup {
    type V = LookupView;

    open spec fn view(&self) -> LookupView {
        match self {
            Lookup::Existing { uri } => LookupView::Existing { uri: uri@ },
            Lookup::Creation { dir, name } => LookupView::Creation { dir: dir@, name: name@ },
        }
    }
}

impl Lookup {
    /// The name that the host is to make canonical.
    pub fn target(&self) -> (r: &String)
        ensures
            r@ == target_of(self@),
    {
        match self {
            Lookup::Existing { uri } => uri,
            Lookup::Creation { dir, .. } => dir,
        }
    }
}

/// The name that the host is to make canonical for `lookup`.
pub open spec fn target_of(lookup: LookupView) -> Seq<char> {
    match lookup {
        LookupView::Existing { uri } => uri,
        LookupView::Creation { dir, .. } => dir,
    }
}

/// The host's answer to the question for a canonical name.
#[derive(Debug, PartialEq, Eq)]
pub enum Canonical {
    /// The host could not make the name canonical: nothing of that name
    /// exists, or the caller may not reach it.
    Missing,
    /// The canonical name is no text.
    NotText,
    /// The canonical name.
    Uri(String),
}

/// What a `Canonical` says, as a mathematical value.
pub enum CanonicalView {
    Missing,
    NotText,
    Uri(Seq<char>),
}

impl View for Canonical {
    type V = CanonicalView;

    open spec fn view(&self) -> CanonicalView {
        match self {
            Canonical::Missing => CanonicalView::Missing,
            Canonical::NotText => CanonicalView::NotText,
            Canonical::Uri(uri) => CanonicalView::Uri(uri@),
        }
    }
}

/// The denial with the error number `errno`.
pub open spec fn denial(errno: i32) -> syscall::Error {
    syscall::Error { errno }
}

/// One of `prefixes` is a prefix of `name`.
pub open spec fn under_any(prefixes: Seq<Seq<char>>, name: Seq<char>) -> bool {
    exists|i: int| 0 <= i < prefixes.len() && (#[trigger] prefixes[i]).is_prefix_of(name)
}

/// A rule for reading and writing matches `name`: it lies under the root, it
/// is one of `files`, or it lies under one of `dirs` or `pass_schemes`.
pub open spec fn matched_for_writing(policy: Policy, name: Seq<char>) -> bool {
    ||| (policy.root matches Some(root) && root.is_prefix_of(name))
    ||| policy.files.contains(name)
    ||| under_any(policy.dirs, name)
    ||| under_any(policy.pass_schemes, name)
}

/// A rule for reading only matches `name`: it is one of `rofiles`, or it
/// lies under one of `rodirs`.
pub open spec fn matched_for_reading(policy: Policy, name: Seq<char>) -> bool {
    policy.rofiles.contains(name) || under_any(policy.rodirs, name)
}

/// The admission predicate: the policy admits the resource `uri` for an
/// operation with `flags`. The name is taken with exactly one slash after its
/// scheme. The rules for reading only count only if the flags ask for no
/// write access.
pub open spec fn admits(policy: Policy, uri: Seq<char>, flags: usize) -> bool {
    let name = normalized(uri);
    matched_for_writing(policy, name) || (!write_bearing(flags) && matched_for_reading(
        policy,
        name,
    ))
}

/// The name under which `path` of `scheme` is looked up: its natural name,
/// or, if the policy has a root and does not admit the natural name, its
/// name below the root.
pub open spec fn real_uri(
    scheme: Seq<char>,
    policy: Policy,
    path: Seq<char>,
    flags: usize,
) -> Seq<char> {
    let natural = natural_uri(scheme, path);
    match policy.root {
        Some(root) => if admits(policy, natural, flags) {
            natural
        } else {
            rooted_uri(root, path)
        },
        None => natural,
    }
}

/// The path addresses the root by its name outside the jail.
pub open spec fn reenters_root(scheme: Seq<char>, policy: Policy, path: Seq<char>) -> bool {
    policy.root matches Some(root) && root.is_prefix_of(natural_uri(scheme, path))
}

/// The first half of the resolver: what the host is to make canonical for a
/// request for `path` of `scheme` with `flags`, or the denial that the path
/// alone earns.
pub open spec fn lookup_of(
    scheme: Seq<char>,
    policy: Policy,
    path: Seq<char>,
    flags: usize,
) -> Result<LookupView, syscall::Error> {
    if is_traversal(path) || reenters_root(scheme, policy, path) {
        Err(denial(EINVAL))
    } else {
        let uri = real_uri(scheme, policy, path, flags);
        if !requests_creation(flags) {
            Ok(LookupView::Existing { uri })
        } else {
            match split_last(uri) {
                Some((dir, name)) => Ok(LookupView::Creation { dir, name }),
                None => Err(denial(EINVAL)),
            }
        }
    }
}

/// The second half of the resolver: the name to hand to the host, or the
/// denial, once the host has answered. An existing resource must be admitted
/// under its canonical name, for the flags of the request. A resource to be
/// created needs a directory that is admitted, under its canonical name, for
/// reading and writing.
pub open spec fn verdict(
    policy: Policy,
    lookup: LookupView,
    flags: usize,
    canonical: CanonicalView,
) -> Result<Seq<char>, syscall::Error> {
    match lookup {
        LookupView::Existing { .. } => match canonical {
            CanonicalView::Missing => Err(denial(EPERM)),
            CanonicalView::NotText => Err(denial(EINVAL)),
            CanonicalView::Uri(uri) => if admits(policy, uri, flags) {
                Ok(uri)
            } else {
                Err(denial(EPERM))
            },
        },
        LookupView::Creation { name, .. } => match canonical {
            CanonicalView::Missing => Err(denial(ENOENT)),
            CanonicalView::NotText => Err(denial(EINVAL)),
            CanonicalView::Uri(dir) => if admits(policy, dir, O_RDWR) {
                Ok(joined(dir, name))
            } else {
                Err(denial(EPERM))
            },
        },
    }
}

/// The resolver: the name under which the host is to serve a request for
/// `path` of `scheme` with `flags`, or the denial, where `canonical` is the
/// host's answer for the name that `lookup_of` asks about.
pub open spec fn resolution(
    scheme: Seq<char>,
    policy: Policy,
    path: Seq<char>,
    flags: usize,
    canonical: CanonicalView,
) -> Result<Seq<char>, syscall::Error> {
    match lookup_of(scheme, policy, path, flags) {
        Ok(lookup) => verdict(policy, lookup, flags, canonical),
        Err(e) => Err(e),
    }
}

/// A result that holds a name, with the name as a mathematical value.
pub open spec fn named(r: Result<String, syscall::Error>) -> Result<Seq<char>, syscall::Error> {
    match r {
        Ok(name) => Ok(name@),
        Err(e) => Err(e),
    }
}

/// A result that holds a lookup, with the lookup as a mathematical value.
pub open spec fn looked_up(r: Result<Lookup, syscall::Error>) -> Result<
    LookupView,
    syscall::Error,
> {
    match r {
        Ok(lookup) => Ok(lookup@),
        Err(e) => Err(e),
    }
}

/// A request whose path holds `..` as a segment is denied with `EINVAL`,
/// whatever the policy, the flags and the host's answer.
pub proof fn lemma_parent_segment_is_refused(
    scheme: Seq<char>,
    policy: Policy,
    path: Seq<char>,
    flags: usize,
    canonical: CanonicalView,
)
    requires
        has_parent_segment(path),
    ensures
        resolution(scheme, policy, path, flags, canonical) == Err::<Seq<char>, syscall::Error>(
            denial(EINVAL),
        ),
{
}

/// A jailed process is kept below its root: under a policy with a root, the
/// name that is looked up for an existing resource is one that the policy
/// admits as it stands, or one below the root.
pub proof fn lemma_lookup_stays_below_root(
    scheme: Seq<char>,
    policy: Policy,
    path: Seq<char>,
    flags: usize,
    uri: Seq<char>,
)
    requires
        policy.root is Some,
        lookup_of(scheme, policy, path, flags) == Ok::<LookupView, syscall::Error>(
            LookupView::Existing { uri },
        ),
    ensures
        admits(policy, uri, flags) || (policy.root.unwrap() + seq!['/']).is_prefix_of(uri),
{
    let root = policy.root.unwrap();
    if !admits(policy, uri, flags) {
        let head = root + seq!['/'];
        assert(uri == rooted_uri(root, path));
        assert(head =~= uri.subrange(0, head.len() as int));
    }
}

/// Admission looks at a name with exactly one slash after its scheme: a name
/// and that form of it are admitted alike.
pub proof fn lemma_admission_of_normalized(policy: Policy, uri: Seq<char>, flags: usize)
    ensures
        admits(policy, normalized(uri), flags) == admits(policy, uri, flags),
{
    lemma_normalized_is_stable(uri);
}

/// The policy admits no resource for an operation that writes if only rules
/// for reading match its name.
pub proof fn lemma_read_only_admits_no_writer(policy: Policy, uri: Seq<char>, flags: usize)
    requires
        write_bearing(flags),
        !matched_for_writing(policy, normalized(uri)),
    ensures
        !admits(policy, uri, flags),
{
}

/// A request that opens an existing resource for writing is denied if only
/// rules for reading match the canonical name of the resource: with `EPERM`,
/// unless the path alone has earned it `EINVAL`.
pub proof fn lemma_write_to_read_only_is_denied(
    scheme: Seq<char>,
    policy: Policy,
    path: Seq<char>,
    flags: usize,
    canonical: Seq<char>,
)
    requires
        write_bearing(flags),
        !requests_creation(flags),
        !matched_for_writing(policy, normalized(canonical)),
    ensures
        resolution(scheme, policy, path, flags, CanonicalView::Uri(canonical)) == Err::<
            Seq<char>,
            syscall::Error,
        >(
            if lookup_of(scheme, policy, path, flags) is Ok {
                denial(EPERM)
            } else {
                denial(EINVAL)
            },
        ),
{
}

/// Where a request that creates nothing is allowed, the name that the
/// resolver returns is the canonical name that the host gave, unchanged.
pub proof fn lemma_resolved_name_is_canonical(
    scheme: Seq<char>,
    policy: Policy,
    path: Seq<char>,
    flags: usize,
    canonical: CanonicalView,
    name: Seq<char>,
)
    requires
        !requests_creation(flags),
        resolution(scheme, policy, path, flags, canonical) == Ok::<Seq<char>, syscall::Error>(name),
    ensures
        canonical == CanonicalView::Uri(name),
        admits(policy, name, flags),
{
}

/// The name that the resolver returns for a request that creates nothing is
/// canonical: to make it canonical once more changes nothing. Here
/// `canonical_of` stands for what the host answers for each name, and all
/// that is asked of the host is that the names it gives are canonical
/// themselves.
pub proof fn lemma_resolved_name_stays_canonical(
    scheme: Seq<char>,
    policy: Policy,
    path: Seq<char>,
    flags: usize,
    canonical_of: spec_fn(Seq<char>) -> CanonicalView,
    name: Seq<char>,
)
    requires
        !requests_creation(flags),
        forall|asked: Seq<char>| #[trigger]
            canonical_of(asked) matches CanonicalView::Uri(given) ==> canonical_of(given)
                == CanonicalView::Uri(given),
        lookup_of(scheme, policy, path, flags) matches Ok(lookup) && resolution(
            scheme,
            policy,
            path,
            flags,
            canonical_of(target_of(lookup)),
        ) == Ok::<Seq<char>, syscall::Error>(name),
    ensures
        canonical_of(name) == CanonicalView::Uri(name),
{
    let lookup = lookup_of(scheme, policy, path, flags).unwrap();
    let asked = target_of(lookup);
    assert(canonical_of(asked) == CanonicalView::Uri(name));
}

/// Where a request that creates a resource is allowed, the policy admits the
/// canonical directory for reading and writing, and the name that the
/// resolver returns is that directory joined with the final component of the
/// looked-up name.
pub proof fn lemma_created_name_lies_in_admitted_directory(
    scheme: Seq<char>,
    policy: Policy,
    path: Seq<char>,
    flags: usize,
    canonical: CanonicalView,
    name: Seq<char>,
)
    requires
        requests_creation(flags),
        resolution(scheme, policy, path, flags, canonical) == Ok::<Seq<char>, syscall::Error>(name),
    ensures
        ({
            &&& canonical matches CanonicalView::Uri(dir)
            &&& split_last(real_uri(scheme, policy, path, flags)) matches Some((_, last))
            &&& admits(policy, dir, O_RDWR)
            &&& name == joined(dir, last)
        }),
{
}

/// Whether `text` is `name`.
pub fn text_equals(text: &str, name: &[char]) -> (r: bool)
    ensures
        r == (text@ == name@),
{
    let chars = to_chars(text);
    chars_eq(chars.as_slice(), name)
}

/// Whether `name` begins with `prefix`.
pub fn text_is_prefix(prefix: &str, name: &[char]) -> (r: bool)
    ensures
        r == prefix@.is_prefix_of(name@),
{
    let chars = to_chars(prefix);
    chars_start_with(name, chars.as_slice())
}

/// Whether `name` is one of `list`.
pub fn any_equals(list: &Vec<String>, name: &[char]) -> (r: bool)
    ensures
        r == names(list@).contains(name@),
{
    let mut i: usize = 0;
    while i < list.len()
        invariant
            i <= list.len(),
            forall|j: int| 0 <= j < i ==> names(list@)[j] != name@,
        decreases list.len() - i,
    {
        if text_equals(list[i].as_str(), name) {
            assert(names(list@)[i as int] == name@);
            return true;
        }
        i += 1;
    }
    false
}

/// Whether `name` begins with one of `list`.
pub fn any_is_prefix(list: &Vec<String>, name: &[char]) -> (r: bool)
    ensures
        r == under_any(names(list@), name@),
{
    let mut i: usize = 0;
    while i < list.len()
        invariant
            i <= list.len(),
            forall|j: int| 0 <= j < i ==> !(#[trigger] names(list@)[j]).is_prefix_of(name@),
        decreases list.len() - i,
    {
        if text_is_prefix(list[i].as_str(), name) {
            assert(names(list@)[i as int].is_prefix_of(name@));
            return true;
        }
        i += 1;
    }
    false
}

/// The name of `name` in the directory `dir`.
pub fn join(dir: &str, name: &str) -> (r: String)
    ensures
        r@ == joined(dir@, name@),
{
    proof {
        reveal_strlit("");
        reveal_strlit("/");
        assert(""@ =~= Seq::<char>::empty());
        assert("/"@ =~= seq!['/']);
        assert(dir@ + Seq::<char>::empty() =~= dir@);
    }
    let chars = to_chars(dir);
    let n = chars.len();
    if n == 0 || chars[n - 1] == '/' {
        concat3(dir, "", name)
    } else {
        concat3(dir, "/", name)
    }
}

/// Filters the resources of one scheme: exact names are allowed whatever
/// they name, and so is every name that starts with an allowed directory.
#[derive(Debug)]
pub struct FilterScheme {
    /// The name of the scheme that the filter stands for.
    pub scheme: String,
    /// The policy that the filter applies.
    pub config: Arc<ContainConfig>,
}

impl FilterScheme {
    /// The policy that the filter applies.
    pub open spec fn policy(&self) -> Policy {
        self.config@
    }

    /// A filter for `scheme` under the policy `config`.
    pub fn new(scheme: &str, config: Arc<ContainConfig>) -> (r: FilterScheme)
        ensures
            r.scheme@ == scheme@,
            r.policy() == config@,
    {
        FilterScheme { scheme: String::from_str(scheme), config }
    }

    /// The policy record that the filter applies.
    pub fn config(&self) -> (r: &ContainConfig)
        ensures
            r@ == self.policy(),
    {
        &self.config
    }

    /// Whether the policy admits the resource `path`, a full name that
    /// starts with its scheme, for an operation with `flags`. A resource that
    /// is not admitted is refused with `EPERM`.
    pub fn is_allowed(&self, path: &str, flags: usize) -> (r: Result<bool, syscall::Error>)
        ensures
            r == if admits(self.policy(), path@, flags) {
                Ok::<bool, syscall::Error>(true)
            } else {
                Err::<bool, syscall::Error>(denial(EPERM))
            },
    {
        let config = self.config();
        let chars = to_chars(path);
        let name = normalize(chars.as_slice());
        let name = name.as_slice();
        let under_root = match &config.root {
            Some(root) => text_is_prefix(root.as_str(), name),
            None => false,
        };
        if under_root || any_equals(&config.files, name) || any_is_prefix(&config.dirs, name)
            || any_is_prefix(&config.pass_schemes, name) || (!is_write_bearing(flags) && (
            any_equals(&config.rofiles, name) || any_is_prefix(&config.rodirs, name))) {
            Ok(true)
        } else {
            Err(syscall::Error { errno: EPERM })
        }
    }

    /// The name under which `path` is looked up: the scheme's name before
    /// it, or the root, if there is one and the policy does not admit the
    /// former.
    pub fn real_path(&self, path: &str, flags: usize) -> (r: String)
        ensures
            r@ == real_uri(self.scheme@, self.policy(), path@, flags),
    {
        proof {
            reveal_strlit(":/");
            reveal_strlit("/");
            assert(":/"@ =~= seq![':', '/']);
            assert("/"@ =~= seq!['/']);
        }
        let config = self.config();
        let chars = to_chars(path);
        let k = leading_slashes(chars.as_slice());
        let trimmed = path.substring_char(k, chars.len());
        assert(trimmed@ =~= path@.skip(k as int));
        let natural = concat3(self.scheme.as_str(), ":/", trimmed);
        match &config.root {
            Some(root) => {
                if self.is_allowed(natural.as_str(), flags).is_err() {
                    concat3(root.as_str(), "/", trimmed)
                } else {
                    natural
                }
            },
            None => natural,
        }
    }

    /// The first half of the resolver: what the host is to make canonical
    /// before the request for `path` with `flags` can be decided, or the
    /// denial that the path alone earns: `EINVAL` for a path that climbs,
    /// that names the root from outside, or that names nothing to create.
    pub fn lookup(&self, path: &str, flags: usize) -> (r: Result<Lookup, syscall::Error>)
        ensures
            looked_up(r) == lookup_of(self.scheme@, self.policy(), path@, flags),
    {
        proof {
            reveal_strlit(":/");
            assert(":/"@ =~= seq![':', '/']);
        }
        let config = self.config();
        let chars = to_chars(path);
        if has_traversal(chars.as_slice()) {
            return Err(syscall::Error { errno: EINVAL });
        }
        match &config.root {
            Some(root) => {
                let k = leading_slashes(chars.as_slice());
                let trimmed = path.substring_char(k, chars.len());
                assert(trimmed@ =~= path@.skip(k as int));
                let natural = concat3(self.scheme.as_str(), ":/", trimmed);
                let natural_chars = to_chars(natural.as_str());
                if text_is_prefix(root.as_str(), natural_chars.as_slice()) {
                    return Err(syscall::Error { errno: EINVAL });
                }
            },
            None => {},
        }
        let uri = self.real_path(path, flags);
        if !is_creation(flags) {
            return Ok(Lookup::Existing { uri });
        }
        let uri_chars = to_chars(uri.as_str());
        match split(uri_chars.as_slice()) {
            Some((dir_end, start, end)) => {
                let dir = String::from_str(uri.as_str().substring_char(0, dir_end));
                let name = String::from_str(uri.as_str().substring_char(start, end));
                Ok(Lookup::Creation { dir, name })
            },
            None => Err(syscall::Error { errno: EINVAL }),
        }
    }

    /// The second half of the resolver: the decision on a request once the
    /// host has answered with `canonical`, the canonical name of what
    /// `lookup` asked about.
    pub fn conclude(&self, lookup: &Lookup, flags: usize, canonical: &Canonical) -> (r: Result<
        String,
        syscall::Error,
    >)
        ensures
            named(r) == verdict(self.policy(), lookup@, flags, canonical@),
    {
        match lookup {
            Lookup::Existing { .. } => match canonical {
                Canonical::Missing => Err(syscall::Error { errno: EPERM }),
                Canonical::NotText => Err(syscall::Error { errno: EINVAL }),
                Canonical::Uri(uri) => match self.is_allowed(uri.as_str(), flags) {
                    Ok(_) => Ok(uri.clone()),
                    Err(e) => Err(e),
                },
            },
            Lookup::Creation { name, .. } => match canonical {
                Canonical::Missing => Err(syscall::Error { errno: ENOENT }),
                Canonical::NotText => Err(syscall::Error { errno: EINVAL }),
                Canonical::Uri(dir) => match self.is_allowed(dir.as_str(), O_RDWR) {
                    Ok(_) => Ok(join(dir.as_str(), name.as_str())),
                    Err(e) => Err(e),
                },
            },
        }
    }

    /// Check whether the request for `path` with `flags` is allowed, and
    /// under which name the host is to serve it. `canonical` is the host's
    /// answer for the name that `lookup` asks about; while `lookup` denies
    /// the request, the answer plays no part.
    ///
    /// A request for an existing resource is served under the canonical
    /// name, if the policy admits that; one that creates a resource is
    /// served under the canonical name of the directory joined with the
    /// final component, if the policy admits the directory for reading and
    /// writing.
    pub fn resolve(&self, path: &str, flags: usize, canonical: &Canonical) -> (r: Result<
        String,
        syscall::Error,
    >)
        ensures
            named(r) == resolution(self.scheme@, self.policy(), path@, flags, canonical@),
    {
        match self.lookup(path, flags) {
            Ok(lookup) => self.conclude(&lookup, flags, canonical),
            Err(e) => Err(e),
        }
    }
}

} // verus!
