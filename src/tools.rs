//! The file operations offered through the sandbox: what each one is allowed
//! to touch, and how its outcome is reported.

use vstd::prelude::*;
use vstd::string::*;
use crate::paths::{ancestor_chain, base_of, parent_and_name, split_base, split_parent};
use crate::validation::{
    AllowedPaths, AllowedPathsError, PathProbe, Rejection, first_flagged, first_marked, held_by,
    opt_view, rejection_message, verdict,
};

verus! {

/// What a two-path operation does, which decides how its two paths are
/// named in messages: `from` and `to` for a move or copy, `src` and `dst`
/// for a link.
#[derive(Debug, Clone, Copy, PartialEq, Eq, Structural)]
pub enum PairKind {
    Move,
    Link,
}

/// A failed file operation. Refusals by the sandbox are kept apart from
/// failures of the operating system, so that attempted escapes can be told
/// from ordinary errors.
#[derive(Debug, Clone)]
pub enum ToolError {
    /// The path was refused; nothing was touched.
    Denied(AllowedPathsError),
    /// The first path of a two-path operation was refused; nothing was touched.
    DeniedSource(PairKind, AllowedPathsError),
    /// The second path of a two-path operation was refused; nothing was touched.
    DeniedTarget(PairKind, AllowedPathsError),
    /// The operating system failed the operation.
    Io(String),
    /// The platform does not offer the operation.
    Unsupported,
}

impl ToolError {
    /// Whether this is a refusal by the sandbox rather than a failure of the
    /// operation itself.
    pub fn is_denial(&self) -> (r: bool)
        ensures
            r == (self is Denied || self is DeniedSource || self is DeniedTarget),
    {
        match self {
            ToolError::Denied(_) | ToolError::DeniedSource(..) | ToolError::DeniedTarget(..) => true,
            _ => false,
        }
    }
}

/// The text that reports a failed operation.
pub open spec fn tool_message(e: ToolError) -> Seq<char> {
    match e {
        ToolError::Denied(r) => "Path validation failed: "@ + rejection_message(r@),
        ToolError::DeniedSource(PairKind::Move, r) => "Path validation failed (from): "@
            + rejection_message(r@),
        ToolError::DeniedTarget(PairKind::Move, r) => "Path validation failed (to): "@
            + rejection_message(r@),
        ToolError::DeniedSource(PairKind::Link, r) => "Path validation failed (src): "@
            + rejection_message(r@),
        ToolError::DeniedTarget(PairKind::Link, r) => "Path validation failed (dst): "@
            + rejection_message(r@),
        ToolError::Io(m) => m@,
        ToolError::Unsupported => "Operation not supported on this platform"@,
    }
}

impl ToolError {
    /// The text that reports this failure.
    pub fn message(&self) -> (r: String)
        ensures
            r@ == tool_message(*self),
    {
        match self {
            ToolError::Denied(e) => {
                let mut m = String::from_str("Path validation failed: ");
                m.append(e.message().as_str());
                m
            },
            ToolError::DeniedSource(PairKind::Move, e) => {
                let mut m = String::from_str("Path validation failed (from): ");
                m.append(e.message().as_str());
                m
            },
            ToolError::DeniedTarget(PairKind::Move, e) => {
                let mut m = String::from_str("Path validation failed (to): ");
                m.append(e.message().as_str());
                m
            },
            ToolError::DeniedSource(PairKind::Link, e) => {
                let mut m = String::from_str("Path validation failed (src): ");
                m.append(e.message().as_str());
                m
            },
            ToolError::DeniedTarget(PairKind::Link, e) => {
                let mut m = String::from_str("Path validation failed (dst): ");
                m.append(e.message().as_str());
                m
            },
            ToolError::Io(m) => m.clone(),
            ToolError::Unsupported => String::from_str("Operation not supported on this platform"),
        }
    }
}

/// What a directory entry is.
#[derive(Debug, Clone, Copy, PartialEq, Eq, Structural)]
pub enum EntryKind {
    File,
    Dir,
    Other,
    Unknown,
}

pub open spec fn kind_label(k: EntryKind) -> Seq<char> {
    match k {
        EntryKind::File => "file"@,
        EntryKind::Dir => "dir"@,
        EntryKind::Other => "other"@,
        EntryKind::Unknown => "unknown"@,
    }
}

impl EntryKind {
    /// The name of the kind in listings.
    pub fn label(&self) -> (r: String)
        ensures
            r@ == kind_label(*self),
    {
        match self {
            EntryKind::File => String::from_str("file"),
            EntryKind::Dir => String::from_str("dir"),
            EntryKind::Other => String::from_str("other"),
            EntryKind::Unknown => String::from_str("unknown"),
        }
    }
}

pub open spec fn entry_view(e: Option<(String, EntryKind)>) -> Option<(Seq<char>, EntryKind)> {
    match e {
        Some((n, k)) => Some((n@, k)),
        None => None,
    }
}

/// The listing of a directory from its entries as enumerated: each readable
/// entry as its name and the name of its kind, in the same order; entries
/// that could not be read are left out.
pub open spec fn listing(es: Seq<Option<(Seq<char>, EntryKind)>>) -> Seq<(Seq<char>, Seq<char>)>
    decreases es.len(),
{
    if es.len() == 0 {
        seq![]
    } else {
        match es.last() {
            Some((n, k)) => listing(es.drop_last()).push((n, kind_label(k))),
            None => listing(es.drop_last()),
        }
    }
}

/// What the operating system reported about a path that an operation may
/// create.
pub struct TargetProbe {
    /// About the path itself.
    pub path: PathProbe,
    /// How many entries at the end of the path's literal ancestor chain do
    /// not exist; counted only where the path does not resolve.
    pub missing: usize,
    /// About the existing directory above those entries, as written.
    pub base: PathProbe,
}

pub open spec fn target_view(t: &TargetProbe) -> TargetView {
    TargetView { path: probe_view(&t.path), missing: t.missing as int, base: probe_view(&t.base) }
}

/// A [`TargetProbe`] as mathematical values.
pub struct TargetView {
    pub path: (Option<Seq<char>>, Seq<bool>),
    pub missing: int,
    pub base: (Option<Seq<char>>, Seq<bool>),
}

/// The location reached from `dir` by going down into each of `names`.
pub open spec fn descend(dir: Seq<char>, names: Seq<Seq<char>>) -> Seq<char>
    decreases names.len(),
{
    if names.len() == 0 {
        dir
    } else {
        child_of(descend(dir, names.drop_last()), names.last())
    }
}

/// The outcome of checking a path that an operation may create. A path
/// that resolves is checked as any path is. Otherwise no entry of its
/// literal ancestor chain may be a symbolic link; the existing directory
/// above its missing entries is checked as any path is; none of the
/// missing names may be `.` or `..`; and the location reached from that
/// directory's canonical form through the missing names must lie within a
/// root.
pub open spec fn target_verdict(roots: Set<Seq<char>>, path: Seq<char>, t: TargetView) -> Result<
    Seq<char>,
    Rejection,
> {
    match t.path.0 {
        Some(_) => verdict(roots, path, t.path.0, t.path.1),
        None => {
            let chain = ancestor_chain(path);
            match first_flagged(chain.len() as int, t.path.1, 0) {
                Some(i) => Err(Rejection::SymlinkDenied(chain[i])),
                None => match base_of(path, t.missing) {
                    None => Err(Rejection::DoesNotExist(path)),
                    Some((base, names)) => if exists|i: int|
                        0 <= i < names.len() && is_dot_name(#[trigger] names[i]) {
                        Err(Rejection::TraversalAttempt(path))
                    } else {
                        match verdict(roots, base, t.base.0, t.base.1) {
                            Err(j) => Err(j),
                            Ok(c) => if held_by(roots, descend(c, names)) {
                                Ok(descend(c, names))
                            } else {
                                Err(Rejection::NotAllowed(descend(c, names)))
                            },
                        }
                    },
                },
            }
        },
    }
}

/// The outcome of a two-path operation's checks: the first path, which must
/// exist, is checked, then the second, which may be created, and both
/// locations come back only when both pass.
pub open spec fn pair_verdict(
    roots: Set<Seq<char>>,
    from: Seq<char>,
    from_probe: (Option<Seq<char>>, Seq<bool>),
    to: Seq<char>,
    to_target: TargetView,
) -> Result<(Seq<char>, Seq<char>), (bool, Rejection)> {
    match verdict(roots, from, from_probe.0, from_probe.1) {
        Err(e) => Err((true, e)),
        Ok(a) => match target_verdict(roots, to, to_target) {
            Err(e) => Err((false, e)),
            Ok(b) => Ok((a, b)),
        },
    }
}

pub open spec fn probe_view(p: &PathProbe) -> (Option<Seq<char>>, Seq<bool>) {
    (opt_view(p.resolved), p.symlinked@)
}

/// The entry `name` inside the directory `dir`.
pub open spec fn child_of(dir: Seq<char>, name: Seq<char>) -> Seq<char> {
    if dir.len() > 0 && dir.last() == '/' {
        dir + name
    } else {
        dir + seq!['/'] + name
    }
}

pub open spec fn is_dot_name(name: Seq<char>) -> bool {
    name == seq!['.'] || name == seq!['.', '.']
}

/// Whether `name` is `.` or `..`.
fn is_dot(name: &str) -> (r: bool)
    ensures
        r == is_dot_name(name@),
{
    let n = name.unicode_len();
    let dots = (n == 1 && name.get_char(0) == '.') || (n == 2 && name.get_char(0) == '.'
        && name.get_char(1) == '.');
    assert(dots == is_dot_name(name@)) by {
        if n == 1 && name@[0] == '.' {
            assert(name@ =~= seq!['.']);
        }
        if n == 2 && name@[0] == '.' && name@[1] == '.' {
            assert(name@ =~= seq!['.', '.']);
        }
        if name@ == seq!['.'] {
            assert(name@[0] == '.');
        }
        if name@ == seq!['.', '.'] {
            assert(name@[0] == '.' && name@[1] == '.');
        }
    }
    dots
}

/// The outcome of checking a path whose last entry is to be inspected
/// rather than followed, such as a symbolic link that is read: the directory
/// holding it is checked as any path is, the entry's own name may not be `.`
/// or `..`, and the entry's location must lie within a root.
pub open spec fn link_verdict(
    roots: Set<Seq<char>>,
    path: Seq<char>,
    parent_probe: (Option<Seq<char>>, Seq<bool>),
) -> Result<Seq<char>, Rejection> {
    match parent_and_name(path) {
        None => Err(Rejection::DoesNotExist(path)),
        Some((parent, name)) => if is_dot_name(name) {
            Err(Rejection::TraversalAttempt(path))
        } else {
            match verdict(roots, parent, parent_probe.0, parent_probe.1) {
                Err(j) => Err(j),
                Ok(c) => if held_by(roots, child_of(c, name)) {
                    Ok(child_of(c, name))
                } else {
                    Err(Rejection::NotAllowed(child_of(c, name)))
                },
            }
        },
    }
}

/// The file operations, each confined to the roots of one sandbox.
pub struct FileTools<'a> {
    pub allowed_paths: &'a AllowedPaths,
}

impl<'a> FileTools<'a> {
    /// The roots this instance is confined to.
    pub open spec fn roots(&self) -> Set<Seq<char>> {
        self.allowed_paths@
    }

    /// Checks the one path of an operation. Gives its canonical form when it
    /// may be touched, and the refusal otherwise.
    pub fn authorize(&self, path: &str, probe: &PathProbe) -> (r: Result<String, ToolError>)
        ensures
            match verdict(self.roots(), path@, opt_view(probe.resolved), probe.symlinked@) {
                Ok(c) => r matches Ok(p) && p@ == c,
                Err(j) => r matches Err(ToolError::Denied(e)) && e@ == j,
            },
    {
        match self.allowed_paths.validate_path(path, probe) {
            Ok(p) => Ok(p),
            Err(e) => Err(ToolError::Denied(e)),
        }
    }

    /// The existing directory, as written, above the last `missing` entries
    /// of `path`: the path to probe for [`TargetProbe::base`].
    pub fn target_base(path: &str, missing: usize) -> (r: Option<String>)
        ensures
            match base_of(path@, missing as int) {
                None => r is None,
                Some((b, _)) => r matches Some(q) && q@ == b,
            },
    {
        match split_base(path, missing) {
            None => None,
            Some((b, _)) => Some(b),
        }
    }

    /// Checks a path that the operation may create, such as the file to
    /// write or the directory to create. Gives its location when it may be
    /// touched.
    pub fn authorize_new(&self, path: &str, target: &TargetProbe) -> (r: Result<String, ToolError>)
        ensures
            match target_verdict(self.roots(), path@, target_view(target)) {
                Ok(c) => r matches Ok(p) && p@ == c,
                Err(j) => r matches Err(ToolError::Denied(e)) && e@ == j,
            },
    {
        match self.check_new(path, target) {
            Ok(p) => Ok(p),
            Err(e) => Err(ToolError::Denied(e)),
        }
    }

    fn check_new(&self, path: &str, target: &TargetProbe) -> (r: Result<String, AllowedPathsError>)
        ensures
            crate::validation::result_view(r) == target_verdict(
                self.roots(),
                path@,
                target_view(target),
            ),
    {
        if target.path.resolved.is_some() {
            return self.allowed_paths.validate_path(path, &target.path);
        }
        let chain = crate::paths::literal_ancestors(path);
        assert(ancestor_chain(path@).len() == chain@.len());
        assert(target_view(target).path.0 is None);
        match first_marked(chain.len(), &target.path.symlinked) {
            Some(i) => {
                assert(crate::paths::string_views(chain@)[i as int] == chain@[i as int]@);
                return Err(AllowedPathsError::SymlinkDenied(chain[i].clone()));
            },
            None => {},
        }
        let (base, names) = match split_base(path, target.missing) {
            None => {
                return Err(AllowedPathsError::DoesNotExist(path.to_owned()));
            },
            Some(bn) => bn,
        };
        let ghost nv = crate::paths::string_views(names@);
        assert(base_of(path@, target.missing as int) == Some((base@, nv)));
        let mut i: usize = 0;
        while i < names.len()
            invariant
                base_of(path@, target.missing as int) == Some((base@, nv)),
                target_view(target).path.0 is None,
                first_flagged(ancestor_chain(path@).len() as int, target.path.symlinked@, 0) is None,
                i <= names@.len(),
                nv == crate::paths::string_views(names@),
                forall|j: int| 0 <= j < i ==> !is_dot_name(#[trigger] nv[j]),
            decreases names@.len() - i,
        {
            if is_dot(names[i].as_str()) {
                let ghost bn = base_of(path@, target_view(target).missing);
                assert(bn->Some_0.1 == nv);
                assert(is_dot_name(bn->Some_0.1[i as int]));
                assert(exists|j: int| 0 <= j < bn->Some_0.1.len() && is_dot_name(#[trigger] bn->Some_0.1[j]));
                return Err(AllowedPathsError::TraversalAttempt(path.to_owned()));
            }
            i += 1;
        }
        let dir = match self.allowed_paths.validate_path(base.as_str(), &target.base) {
            Err(e) => {
                return Err(e);
            },
            Ok(c) => c,
        };
        let mut loc = dir.clone();
        assert(!exists|j: int| 0 <= j < nv.len() && is_dot_name(#[trigger] nv[j]));
        let mut k: usize = 0;
        while k < names.len()
            invariant
                k <= names@.len(),
                nv == crate::paths::string_views(names@),
                loc@ == descend(dir@, nv.take(k as int)),
            decreases names@.len() - k,
        {
            assert(nv.take(k + 1).drop_last() =~= nv.take(k as int));
            let n = loc.as_str().unicode_len();
            if !(n > 0 && loc.as_str().get_char(n - 1) == '/') {
                proof {
                    reveal_strlit("/");
                }
                loc.append("/");
            }
            loc.append(names[k].as_str());
            k += 1;
        }
        assert(nv.take(names@.len() as int) =~= nv);
        if self.allowed_paths.holds(loc.as_str()) {
            Ok(loc)
        } else {
            Err(AllowedPathsError::NotAllowed(loc))
        }
    }

    /// Checks both paths of a rename, copy or link before either is
    /// touched, and says which one was refused. The second path may be one
    /// that the operation creates.
    pub fn authorize_pair(
        &self,
        kind: PairKind,
        from: &str,
        from_probe: &PathProbe,
        to: &str,
        to_target: &TargetProbe,
    ) -> (r: Result<(String, String), ToolError>)
        ensures
            match pair_verdict(
                self.roots(),
                from@,
                probe_view(from_probe),
                to@,
                target_view(to_target),
            ) {
                Ok((a, b)) => r matches Ok((p, q)) && p@ == a && q@ == b,
                Err((true, j)) => r matches Err(ToolError::DeniedSource(k, e)) && k == kind && e@
                    == j,
                Err((false, j)) => r matches Err(ToolError::DeniedTarget(k, e)) && k == kind && e@
                    == j,
            },
    {
        let a = match self.allowed_paths.validate_path(from, from_probe) {
            Ok(p) => p,
            Err(e) => {
                return Err(ToolError::DeniedSource(kind, e));
            },
        };
        let b = match self.check_new(to, to_target) {
            Ok(p) => p,
            Err(e) => {
                return Err(ToolError::DeniedTarget(kind, e));
            },
        };
        Ok((a, b))
    }

    /// Checks both paths of a new symbolic link; on a platform without
    /// symbolic links nothing is checked and the operation is unsupported.
    pub fn authorize_symlink(
        &self,
        src: &str,
        src_probe: &PathProbe,
        dst: &str,
        dst_target: &TargetProbe,
        supported: bool,
    ) -> (r: Result<(String, String), ToolError>)
        ensures
            !supported ==> r matches Err(ToolError::Unsupported),
            supported ==> match pair_verdict(
                self.roots(),
                src@,
                probe_view(src_probe),
                dst@,
                target_view(dst_target),
            ) {
                Ok((a, b)) => r matches Ok((p, q)) && p@ == a && q@ == b,
                Err((true, j)) => r matches Err(ToolError::DeniedSource(PairKind::Link, e)) && e@
                    == j,
                Err((false, j)) => r matches Err(ToolError::DeniedTarget(PairKind::Link, e)) && e@
                    == j,
            },
    {
        if !supported {
            return Err(ToolError::Unsupported);
        }
        self.authorize_pair(PairKind::Link, src, src_probe, dst, dst_target)
    }

    /// The directory, as written, that holds the last entry of `path`: the
    /// path to probe before [`Self::authorize_link`].
    pub fn link_parent(path: &str) -> (r: Option<String>)
        ensures
            match parent_and_name(path@) {
                None => r is None,
                Some((p, _)) => r matches Some(q) && q@ == p,
            },
    {
        match split_parent(path) {
            None => None,
            Some((p, _)) => Some(p),
        }
    }

    /// Checks a path whose last entry is inspected and not followed. The
    /// probe is about the directory that holds the entry. Gives the entry's
    /// location under the canonical form of that directory.
    pub fn authorize_link(&self, path: &str, parent_probe: &PathProbe) -> (r: Result<
        String,
        ToolError,
    >)
        ensures
            match link_verdict(self.roots(), path@, probe_view(parent_probe)) {
                Ok(c) => r matches Ok(p) && p@ == c,
                Err(j) => r matches Err(ToolError::Denied(e)) && e@ == j,
            },
    {
        let (parent, name) = match split_parent(path) {
            None => {
                return Err(ToolError::Denied(AllowedPathsError::DoesNotExist(path.to_owned())));
            },
            Some(pn) => pn,
        };
        let n = name.as_str().unicode_len();
        let dots = (n == 1 && name.as_str().get_char(0) == '.') || (n == 2 && name.as_str().get_char(0)
            == '.' && name.as_str().get_char(1) == '.');
        assert(dots == is_dot_name(name@)) by {
            if n == 1 && name@[0] == '.' {
                assert(name@ =~= seq!['.']);
            }
            if n == 2 && name@[0] == '.' && name@[1] == '.' {
                assert(name@ =~= seq!['.', '.']);
            }
            if name@ == seq!['.'] {
                assert(name@[0] == '.');
            }
            if name@ == seq!['.', '.'] {
                assert(name@[0] == '.' && name@[1] == '.');
            }
        }
        if dots {
            return Err(ToolError::Denied(AllowedPathsError::TraversalAttempt(path.to_owned())));
        }
        let dir = match self.allowed_paths.validate_path(parent.as_str(), parent_probe) {
            Err(e) => {
                return Err(ToolError::Denied(e));
            },
            Ok(c) => c,
        };
        let k = dir.as_str().unicode_len();
        let mut loc = dir.clone();
        if !(k > 0 && dir.as_str().get_char(k - 1) == '/') {
            proof {
                reveal_strlit("/");
            }
            loc.append("/");
        }
        loc.append(name.as_str());
        assert(loc@ == child_of(dir@, name@));
        if self.allowed_paths.holds(loc.as_str()) {
            Ok(loc)
        } else {
            Err(ToolError::Denied(AllowedPathsError::NotAllowed(loc)))
        }
    }

    /// Whether the path may be accessed and exists. `kind` is what the
    /// operating system reports for its canonical form, `None` where it
    /// reports nothing. Refusals and failures read as `false`.
    pub fn file_exists(&self, path: &str, probe: &PathProbe, kind: Option<EntryKind>) -> (r: bool)
        ensures
            r == (verdict(self.roots(), path@, opt_view(probe.resolved), probe.symlinked@) is Ok
                && kind is Some),
    {
        self.allowed_paths.validate_path(path, probe).is_ok() && kind.is_some()
    }

    /// Whether the path may be accessed and is a directory.
    pub fn is_dir(&self, path: &str, probe: &PathProbe, kind: Option<EntryKind>) -> (r: bool)
        ensures
            r == (verdict(self.roots(), path@, opt_view(probe.resolved), probe.symlinked@) is Ok
                && kind == Some(EntryKind::Dir)),
    {
        self.allowed_paths.validate_path(path, probe).is_ok() && kind == Some(EntryKind::Dir)
    }

    /// Whether the path may be accessed and is a regular file.
    pub fn is_file(&self, path: &str, probe: &PathProbe, kind: Option<EntryKind>) -> (r: bool)
        ensures
            r == (verdict(self.roots(), path@, opt_view(probe.resolved), probe.symlinked@) is Ok
                && kind == Some(EntryKind::File)),
    {
        self.allowed_paths.validate_path(path, probe).is_ok() && kind == Some(EntryKind::File)
    }
}

pub open spec fn pair_views(v: Seq<(String, String)>) -> Seq<(Seq<char>, Seq<char>)> {
    v.map_values(|x: (String, String)| (x.0@, x.1@))
}

/// The listing of a directory from its entries as enumerated, `None` for an
/// entry that could not be read.
pub fn list_entries(entries: Vec<Option<(String, EntryKind)>>) -> (r: Vec<(String, String)>)
    ensures
        pair_views(r@) == listing(entries@.map_values(|e: Option<(String, EntryKind)>| entry_view(e))),
{
    let ghost es = entries@.map_values(|e: Option<(String, EntryKind)>| entry_view(e));
    let mut out: Vec<(String, String)> = Vec::new();
    let mut i: usize = 0;
    while i < entries.len()
        invariant
            i <= entries@.len(),
            es == entries@.map_values(|e: Option<(String, EntryKind)>| entry_view(e)),
            pair_views(out@) == listing(es.take(i as int)),
        decreases entries@.len() - i,
    {
        assert(es.take(i + 1).drop_last() =~= es.take(i as int));
        assert(es.take(i + 1).last() == entry_view(entries@[i as int]));
        match &entries[i] {
            Some((name, kind)) => {
                let ghost before = out@;
                let item = (name.clone(), kind.label());
                out.push(item);
                assert(pair_views(out@) =~= pair_views(before).push((item.0@, item.1@)));
            },
            None => {},
        }
        i += 1;
    }
    assert(es.take(entries@.len() as int) =~= es);
    out
}

/// A two-path operation is allowed exactly when its first path is allowed
/// and its second may be created or touched, and then on their locations;
/// a refusal names the first path checked that failed, and its side. A path
/// that exists is judged the same as a first or as a second path, so where
/// both paths exist the operation is refused whichever order they come in,
/// and a path refused in both roles refuses the operation in either order.
pub proof fn lemma_pair_refusal(
    roots: Set<Seq<char>>,
    a: Seq<char>,
    ta: TargetView,
    b: Seq<char>,
    tb: TargetView,
)
    ensures
        pair_verdict(roots, a, ta.path, b, tb) is Ok <==> (verdict(roots, a, ta.path.0, ta.path.1) is Ok
            && target_verdict(roots, b, tb) is Ok),
        pair_verdict(roots, a, ta.path, b, tb) is Ok ==> pair_verdict(roots, a, ta.path, b, tb)->Ok_0
            == (verdict(roots, a, ta.path.0, ta.path.1)->Ok_0, target_verdict(roots, b, tb)->Ok_0),
        verdict(roots, a, ta.path.0, ta.path.1) is Err ==> pair_verdict(roots, a, ta.path, b, tb)
            == Err::<(Seq<char>, Seq<char>), (bool, Rejection)>(
            (true, verdict(roots, a, ta.path.0, ta.path.1)->Err_0),
        ),
        verdict(roots, a, ta.path.0, ta.path.1) is Ok && target_verdict(roots, b, tb) is Err
            ==> pair_verdict(roots, a, ta.path, b, tb) == Err::<(Seq<char>, Seq<char>), (bool, Rejection)>(
            (false, target_verdict(roots, b, tb)->Err_0),
        ),
        ta.path.0 is Some ==> target_verdict(roots, a, ta) == verdict(roots, a, ta.path.0, ta.path.1),
        ta.path.0 is Some && tb.path.0 is Some ==> (pair_verdict(roots, a, ta.path, b, tb) is Err
            <==> pair_verdict(roots, b, tb.path, a, ta) is Err),
        verdict(roots, a, ta.path.0, ta.path.1) is Err && target_verdict(roots, a, ta) is Err
            ==> pair_verdict(roots, a, ta.path, b, tb) is Err && pair_verdict(roots, b, tb.path, a, ta) is Err,
{
}

/// Once a location has been allowed for creation, the same path is allowed
/// again, with the same location, after it has been created there without a
/// link on its way: a second `create_directory` meets the same answer as
/// the first.
pub proof fn lemma_create_then_accept(
    roots: Set<Seq<char>>,
    path: Seq<char>,
    before: TargetView,
    after: TargetView,
)
    requires
        target_verdict(roots, path, before) is Ok,
        after.path.0 == Some(target_verdict(roots, path, before)->Ok_0),
        ancestor_chain(path).len() <= after.path.1.len(),
        forall|i: int| 0 <= i < ancestor_chain(path).len() ==> !after.path.1[i],
    ensures
        target_verdict(roots, path, after) == target_verdict(roots, path, before),
{
    crate::validation::lemma_containment(roots, path, before.path.0, before.path.1);
    crate::validation::lemma_containment(roots, path, after.path.0, after.path.1);
}

proof fn lemma_listing_concat(
    xs: Seq<Option<(Seq<char>, EntryKind)>>,
    ys: Seq<Option<(Seq<char>, EntryKind)>>,
)
    ensures
        listing(xs + ys) == listing(xs) + listing(ys),
    decreases ys.len(),
{
    if ys.len() == 0 {
        assert(xs + ys =~= xs);
        assert(listing(xs) + listing(ys) =~= listing(xs));
    } else {
        lemma_listing_concat(xs, ys.drop_last());
        assert((xs + ys).drop_last() =~= xs + ys.drop_last());
        assert((xs + ys).last() == ys.last());
        match ys.last() {
            Some((n, k)) => {
                assert(listing(xs) + listing(ys.drop_last()).push((n, kind_label(k))) =~= (listing(
                    xs,
                ) + listing(ys.drop_last())).push((n, kind_label(k))));
            },
            None => {},
        }
    }
}

/// An entry that cannot be read is left out of a listing and costs none of
/// the others: the listing of entries with one unreadable entry among them
/// is the listing of the others, in the same order, and a listing is made
/// entry by entry.
pub proof fn lemma_listing_resilience(
    before: Seq<Option<(Seq<char>, EntryKind)>>,
    after: Seq<Option<(Seq<char>, EntryKind)>>,
)
    ensures
        listing(before + seq![None] + after) == listing(before + after),
        listing(before + after) == listing(before) + listing(after),
        forall|n: Seq<char>, k: EntryKind| listing(seq![Some((n, k))]) == seq![(n, kind_label(k))],
{
    lemma_listing_concat(before + seq![None], after);
    lemma_listing_concat(before, seq![None]);
    lemma_listing_concat(before, after);
    let none: Seq<Option<(Seq<char>, EntryKind)>> = seq![None];
    assert(none.drop_last() =~= Seq::<Option<(Seq<char>, EntryKind)>>::empty());
    assert(none.last() is None);
    assert(listing(Seq::<Option<(Seq<char>, EntryKind)>>::empty()) =~= Seq::<(Seq<char>, Seq<char>)>::empty());
    assert(listing(none) =~= Seq::<(Seq<char>, Seq<char>)>::empty());
    assert(listing(before) + listing(none) =~= listing(before));
    assert forall|n: Seq<char>, k: EntryKind|
        listing(seq![Some((n, k))]) == seq![(n, kind_label(k))] by {
        let one: Seq<Option<(Seq<char>, EntryKind)>> = seq![Some((n, k))];
        assert(one.drop_last() =~= Seq::<Option<(Seq<char>, EntryKind)>>::empty());
        assert(listing(one) =~= seq![(n, kind_label(k))]);
    }
}

} // verus!
