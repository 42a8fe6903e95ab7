//! The allowed roots and the decision whether a path may be touched.

use vstd::prelude::*;
use vstd::string::*;
use crate::paths::{ancestor_chain, literal_ancestors, path_within, string_views, within};

verus! {

/// Why a path was refused, carrying the path that caused it.
#[derive(Debug, Clone)]
pub enum AllowedPathsError {
    NotADirectory(String),
    DoesNotExist(String),
    NotAllowed(String),
    TraversalAttempt(String),
    SymlinkDenied(String),
}

/// A refusal as a mathematical value.
pub enum Rejection {
    NotADirectory(Seq<char>),
    DoesNotExist(Seq<char>),
    NotAllowed(Seq<char>),
    TraversalAttempt(Seq<char>),
    SymlinkDenied(Seq<char>),
}

impl View for AllowedPathsError {
    type V = Rejection;

    open spec fn view(&self) -> Rejection {
        match self {
            AllowedPathsError::NotADirectory(p) => Rejection::NotADirectory(p@),
            AllowedPathsError::DoesNotExist(p) => Rejection::DoesNotExist(p@),
            AllowedPathsError::NotAllowed(p) => Rejection::NotAllowed(p@),
            AllowedPathsError::TraversalAttempt(p) => Rejection::TraversalAttempt(p@),
            AllowedPathsError::SymlinkDenied(p) => Rejection::SymlinkDenied(p@),
        }
    }
}

/// The text that describes a refusal in logs and error messages.
pub open spec fn rejection_message(e: Rejection) -> Seq<char> {
    match e {
        Rejection::NotADirectory(p) => "Not a directory: "@ + p,
        Rejection::DoesNotExist(p) => "Does not exist: "@ + p,
        Rejection::NotAllowed(p) => "Path not allowed: "@ + p,
        Rejection::TraversalAttempt(p) => "Traversal attempt denied: "@ + p,
        Rejection::SymlinkDenied(p) => "Symlink denied: "@ + p,
    }
}

impl AllowedPathsError {
    /// The kind of refusal followed by the path.
    pub fn message(&self) -> (r: String)
        ensures
            r@ == rejection_message(self@),
    {
        let (mut m, p) = match self {
            AllowedPathsError::NotADirectory(p) => (String::from_str("Not a directory: "), p),
            AllowedPathsError::DoesNotExist(p) => (String::from_str("Does not exist: "), p),
            AllowedPathsError::NotAllowed(p) => (String::from_str("Path not allowed: "), p),
            AllowedPathsError::TraversalAttempt(p) => (
                String::from_str("Traversal attempt denied: "),
                p,
            ),
            AllowedPathsError::SymlinkDenied(p) => (String::from_str("Symlink denied: "), p),
        };
        m.append(p.as_str());
        m
    }
}

pub open spec fn opt_view(o: Option<String>) -> Option<Seq<char>> {
    match o {
        Some(s) => Some(s@),
        None => None,
    }
}

pub open spec fn result_view(r: Result<String, AllowedPathsError>) -> Result<
    Seq<char>,
    Rejection,
> {
    match r {
        Ok(p) => Ok(p@),
        Err(e) => Err(e@),
    }
}

/// What the operating system reported about a configured root directory.
pub struct RootProbe {
    /// The root as configured.
    pub path: String,
    /// Its canonical form; `None` when it could not be resolved.
    pub resolved: Option<String>,
    /// Whether it resolves to a directory.
    pub is_dir: bool,
}

/// Why a configured root is unfit, if it is.
pub open spec fn root_failure(p: RootProbe) -> Option<Rejection> {
    if p.resolved is None {
        Some(Rejection::DoesNotExist(p.path@))
    } else if !p.is_dir {
        Some(Rejection::NotADirectory(p.path@))
    } else {
        None
    }
}

/// What the operating system reported about a path handed in for access.
pub struct PathProbe {
    /// Its canonical form; `None` when it could not be resolved.
    pub resolved: Option<String>,
    /// For each entry of the path's literal ancestor chain, outermost first,
    /// whether it is a symbolic link. An entry that this does not cover
    /// counts as a link.
    pub symlinked: Vec<bool>,
}

/// Entry `j` of the chain is a link, or `flags` does not cover it.
pub open spec fn marked(flags: Seq<bool>, j: int) -> bool {
    j >= flags.len() || flags[j]
}

/// The first index below `n`, from `i` on, that `flags` marks as a link or
/// does not cover.
pub open spec fn first_flagged(n: int, flags: Seq<bool>, i: int) -> Option<int>
    decreases n - i,
{
    if i >= n {
        None
    } else if marked(flags, i) {
        Some(i)
    } else {
        first_flagged(n, flags, i + 1)
    }
}

/// Some root of `roots` holds `p`.
pub open spec fn held_by(roots: Set<Seq<char>>, p: Seq<char>) -> bool {
    exists|r: Seq<char>| roots.contains(r) && within(r, p)
}

/// The outcome of validating `candidate`: it must resolve, no entry of its
/// literal ancestor chain may be a symbolic link, and its canonical form must
/// lie within a root.
pub open spec fn verdict(
    roots: Set<Seq<char>>,
    candidate: Seq<char>,
    resolved: Option<Seq<char>>,
    flags: Seq<bool>,
) -> Result<Seq<char>, Rejection> {
    let chain = ancestor_chain(candidate);
    match resolved {
        None => Err(Rejection::DoesNotExist(candidate)),
        Some(c) => match first_flagged(chain.len() as int, flags, 0) {
            Some(i) => Err(Rejection::SymlinkDenied(chain[i])),
            None => if held_by(roots, c) {
                Ok(c)
            } else {
                Err(Rejection::NotAllowed(c))
            },
        },
    }
}

/// A fixed set of canonical root directories under which access is allowed.
#[derive(Debug)]
pub struct AllowedPaths {
    allowed_roots: Vec<String>,
}

impl View for AllowedPaths {
    type V = Set<Seq<char>>;

    closed spec fn view(&self) -> Set<Seq<char>> {
        string_views(self.allowed_roots@).to_set()
    }
}

impl AllowedPaths {
    /// Each root is kept once.
    #[verifier::type_invariant]
    pub closed spec fn wf(&self) -> bool {
        string_views(self.allowed_roots@).no_duplicates()
    }

    /// Builds the sandbox from its configured roots. The first root that
    /// does not resolve, or is no directory, refuses the whole set.
    pub fn new(roots: Vec<RootProbe>) -> (r: Result<Self, AllowedPathsError>)
        ensures
            r is Ok <==> forall|i: int| 0 <= i < roots@.len() ==> root_failure(roots@[i]) is None,
            r is Err ==> exists|i: int|
                0 <= i < roots@.len() && root_failure(roots@[i]) == Some(r->Err_0@) && forall|
                    j: int,
                | 0 <= j < i ==> root_failure(roots@[j]) is None,
            r is Ok ==> r->Ok_0.wf(),
            r is Ok ==> forall|c: Seq<char>|
                r->Ok_0@.contains(c) <==> exists|i: int|
                    0 <= i < roots@.len() && opt_view(roots@[i].resolved) == Some(c),
    {
        let mut kept: Vec<String> = Vec::new();
        let mut i: usize = 0;
        while i < roots.len()
            invariant
                i <= roots@.len(),
                forall|j: int| 0 <= j < i ==> root_failure(roots@[j]) is None,
                string_views(kept@).no_duplicates(),
                forall|c: Seq<char>|
                    string_views(kept@).contains(c) <==> exists|j: int|
                        0 <= j < i && opt_view(roots@[j].resolved) == Some(c),
            decreases roots@.len() - i,
        {
            let probe = &roots[i];
            match &probe.resolved {
                None => {
                    return Err(AllowedPathsError::DoesNotExist(probe.path.clone()));
                },
                Some(c) => {
                    if !probe.is_dir {
                        return Err(AllowedPathsError::NotADirectory(probe.path.clone()));
                    }
                    let ghost before = kept@;
                    if !contains_string(&kept, c) {
                        kept.push(c.clone());
                        assert(string_views(kept@) =~= string_views(before).push(c@));
                    }
                    assert(string_views(kept@).contains(c@)) by {
                        if string_views(before).contains(c@) && string_views(kept@) != string_views(before).push(c@) {
                            assert(kept@ == before);
                        } else {
                            assert(string_views(kept@)[string_views(kept@).len() - 1] == c@);
                        }
                    }
                    assert(opt_view(roots@[i as int].resolved) == Some(c@));
                    assert forall|d: Seq<char>|
                        string_views(kept@).contains(d) <==> exists|j: int|
                            0 <= j < i + 1 && opt_view(roots@[j].resolved) == Some(d) by {
                        if string_views(kept@).contains(d) {
                            if d != c@ {
                                let x = choose|x: int| 0 <= x < string_views(kept@).len() && string_views(kept@)[x] == d;
                                assert(string_views(before).contains(d)) by {
                                    if kept@ != before {
                                        assert(string_views(kept@) == string_views(before).push(c@));
                                        assert(string_views(before)[x] == d);
                                    }
                                }
                            }
                        }
                        if exists|j: int| 0 <= j < i + 1 && opt_view(roots@[j].resolved) == Some(d) {
                            let j = choose|j: int| 0 <= j < i + 1 && opt_view(roots@[j].resolved) == Some(d);
                            if j < i {
                                assert(string_views(before).contains(d));
                                let x = choose|x: int| 0 <= x < string_views(before).len() && string_views(before)[x] == d;
                                if kept@ != before {
                                    assert(string_views(kept@) == string_views(before).push(c@));
                                    assert(string_views(kept@)[x] == d);
                                }
                            }
                        }
                    }
                },
            }
            i += 1;
        }
        Ok(AllowedPaths { allowed_roots: kept })
    }

    /// The canonical roots, each once.
    pub fn get_allowed_directories(&self) -> (r: &Vec<String>)
        ensures
            string_views(r@).to_set() == self@,
            string_views(r@).no_duplicates(),
    {
        proof {
            use_type_invariant(self);
        }
        &self.allowed_roots
    }

    /// Decides whether `candidate` may be accessed, from what the operating
    /// system reported about it. Returns its canonical form when it may.
    pub fn validate_path(&self, candidate: &str, probe: &PathProbe) -> (r: Result<
        String,
        AllowedPathsError,
    >)
        ensures
            result_view(r) == verdict(
                self@,
                candidate@,
                opt_view(probe.resolved),
                probe.symlinked@,
            ),
    {
        let c = match &probe.resolved {
            None => {
                return Err(AllowedPathsError::DoesNotExist(candidate.to_owned()));
            },
            Some(c) => c,
        };
        assert(opt_view(probe.resolved) == Some(c@));
        let chain = literal_ancestors(candidate);
        assert(ancestor_chain(candidate@).len() == chain@.len());
        let mut i: usize = 0;
        while i < chain.len()
            invariant
                string_views(chain@) == ancestor_chain(candidate@),
                opt_view(probe.resolved) == Some(c@),
                i <= chain@.len(),
                first_flagged(chain@.len() as int, probe.symlinked@, 0) == first_flagged(
                    chain@.len() as int,
                    probe.symlinked@,
                    i as int,
                ),
            decreases chain@.len() - i,
        {
            if i >= probe.symlinked.len() || probe.symlinked[i] {
                assert(string_views(chain@)[i as int] == chain@[i as int]@);
                assert(first_flagged(chain@.len() as int, probe.symlinked@, i as int) == Some(i as int));
                return Err(AllowedPathsError::SymlinkDenied(chain[i].clone()));
            }
            i += 1;
        }
        assert(first_flagged(chain@.len() as int, probe.symlinked@, chain@.len() as int) is None);
        if self.holds(c.as_str()) {
            Ok(c.clone())
        } else {
            Err(AllowedPathsError::NotAllowed(c.clone()))
        }
    }

    /// Whether some root holds `p`, compared segment by segment.
    pub fn holds(&self, p: &str) -> (r: bool)
        ensures
            r == held_by(self@, p@),
    {
        let mut k: usize = 0;
        while k < self.allowed_roots.len()
            invariant
                k <= self.allowed_roots@.len(),
                forall|j: int| 0 <= j < k ==> !within(self.allowed_roots@[j]@, p@),
            decreases self.allowed_roots@.len() - k,
        {
            if path_within(self.allowed_roots[k].as_str(), p) {
                assert(string_views(self.allowed_roots@)[k as int] == self.allowed_roots@[k as int]@);
                assert(self@.contains(self.allowed_roots@[k as int]@));
                return true;
            }
            k += 1;
        }
        assert forall|r: Seq<char>| self@.contains(r) implies !within(r, p@) by {
            let j = choose|j: int|
                0 <= j < self.allowed_roots@.len() && string_views(self.allowed_roots@)[j] == r;
        }
        false
    }
}

/// The first entry below `n` that `flags` marks as a link or does not cover.
pub fn first_marked(n: usize, flags: &Vec<bool>) -> (r: Option<usize>)
    ensures
        r is None <==> first_flagged(n as int, flags@, 0) is None,
        r matches Some(i) ==> i < n && first_flagged(n as int, flags@, 0) == Some(i as int),
{
    let mut i: usize = 0;
    while i < n
        invariant
            i <= n,
            first_flagged(n as int, flags@, 0) == first_flagged(n as int, flags@, i as int),
        decreases n - i,
    {
        if i >= flags.len() || flags[i] {
            return Some(i);
        }
        i += 1;
    }
    None
}

/// Whether `v` holds a string equal to `s`.
fn contains_string(v: &Vec<String>, s: &String) -> (r: bool)
    ensures
        r == string_views(v@).contains(s@),
{
    let mut i: usize = 0;
    while i < v.len()
        invariant
            i <= v@.len(),
            forall|j: int| 0 <= j < i ==> v@[j]@ != s@,
        decreases v@.len() - i,
    {
        if v[i] == *s {
            assert(string_views(v@)[i as int] == s@);
            return true;
        }
        i += 1;
    }
    assert(!string_views(v@).contains(s@)) by {
        if string_views(v@).contains(s@) {
            let j = choose|j: int| 0 <= j < v@.len() && string_views(v@)[j] == s@;
        }
    }
    false
}

proof fn lemma_first_flagged_none(n: int, flags: Seq<bool>, i: int)
    requires
        0 <= i,
    ensures
        first_flagged(n, flags, i) is None <==> forall|j: int|
            i <= j < n ==> !#[trigger] marked(flags, j),
    decreases n - i,
{
    if i < n {
        lemma_first_flagged_none(n, flags, i + 1);
    }
}

proof fn lemma_first_flagged_bounds(n: int, flags: Seq<bool>, i: int)
    requires
        0 <= i,
    ensures
        first_flagged(n, flags, i) matches Some(k) ==> i <= k < n && marked(flags, k),
    decreases n - i,
{
    if i < n {
        lemma_first_flagged_bounds(n, flags, i + 1);
    }
}

/// A path that resolves is accepted exactly when some root holds its
/// canonical form and no entry of its literal ancestor chain is a symbolic
/// link; what is accepted is then that canonical form. A path that does not
/// resolve is refused as missing.
pub proof fn lemma_containment(
    roots: Set<Seq<char>>,
    candidate: Seq<char>,
    resolved: Option<Seq<char>>,
    flags: Seq<bool>,
)
    ensures
        verdict(roots, candidate, resolved, flags) is Ok <==> {
            &&& resolved is Some
            &&& held_by(roots, resolved->Some_0)
            &&& ancestor_chain(candidate).len() <= flags.len()
            &&& forall|i: int| 0 <= i < ancestor_chain(candidate).len() ==> !flags[i]
        },
        verdict(roots, candidate, resolved, flags) is Ok ==> verdict(
            roots,
            candidate,
            resolved,
            flags,
        )->Ok_0 == resolved->Some_0,
        resolved is None ==> verdict(roots, candidate, resolved, flags) == Err::<
            Seq<char>,
            Rejection,
        >(Rejection::DoesNotExist(candidate)),
{
    let n = ancestor_chain(candidate).len() as int;
    lemma_first_flagged_none(n, flags, 0);
    if forall|j: int| 0 <= j < n ==> !#[trigger] marked(flags, j) {
        if n > flags.len() {
            assert(marked(flags, flags.len() as int));
        }
        assert forall|i: int| 0 <= i < n implies !flags[i] by {
            assert(!marked(flags, i));
        }
    }
    if n <= flags.len() && forall|i: int| 0 <= i < n ==> !flags[i] {
        assert forall|j: int| 0 <= j < n implies !#[trigger] marked(flags, j) by {
            assert(!flags[j]);
        }
    }
}

/// A symbolic link anywhere on the literal ancestor chain of a path refuses
/// it as a link, even where the link's target lies within a root.
pub proof fn lemma_symlink_denied(
    roots: Set<Seq<char>>,
    candidate: Seq<char>,
    resolved: Seq<char>,
    flags: Seq<bool>,
    k: int,
)
    requires
        0 <= k < ancestor_chain(candidate).len(),
        k < flags.len() && flags[k],
    ensures
        verdict(roots, candidate, Some(resolved), flags) matches Err(Rejection::SymlinkDenied(
            p,
        )) && ancestor_chain(candidate).contains(p),
{
    let n = ancestor_chain(candidate).len() as int;
    lemma_first_flagged_none(n, flags, 0);
    lemma_first_flagged_bounds(n, flags, 0);
    assert(marked(flags, k));
    let i = first_flagged(n, flags, 0)->Some_0;
    assert(ancestor_chain(candidate).contains(ancestor_chain(candidate)[i]));
}

} // verus!
