//! Paths as sequences of characters, split into segments at `/`.

use vstd::prelude::*;
use vstd::string::*;

verus! {

/// The segments already closed and the segment still open after reading `s`
/// from left to right. A segment is a maximal non-empty run of characters
/// other than `/`.
pub open spec fn split_state(s: Seq<char>) -> (Seq<Seq<char>>, Seq<char>)
    decreases s.len(),
{
    if s.len() == 0 {
        (seq![], seq![])
    } else {
        let (done, cur) = split_state(s.drop_last());
        if s.last() == '/' {
            if cur.len() == 0 {
                (done, cur)
            } else {
                (done.push(cur), seq![])
            }
        } else {
            (done, cur.push(s.last()))
        }
    }
}

/// The segments of a path, in order: `"/tmp//a/b/"` has `tmp`, `a` and `b`.
pub open spec fn segments(s: Seq<char>) -> Seq<Seq<char>> {
    let (done, cur) = split_state(s);
    if cur.len() == 0 {
        done
    } else {
        done.push(cur)
    }
}

pub open spec fn is_absolute(s: Seq<char>) -> bool {
    s.len() > 0 && s[0] == '/'
}

/// `p` is `root` or lies below it, compared segment by segment: `/data2` is
/// not below `/data`.
pub open spec fn within(root: Seq<char>, p: Seq<char>) -> bool {
    &&& is_absolute(root) == is_absolute(p)
    &&& segments(root).len() <= segments(p).len()
    &&& segments(p).take(segments(root).len() as int) == segments(root)
}

pub open spec fn string_views(v: Seq<String>) -> Seq<Seq<char>> {
    v.map_values(|x: String| x@)
}

/// The segments of `s`, in order.
pub fn path_segments(s: &str) -> (r: Vec<String>)
    ensures
        string_views(r@) == segments(s@),
{
    let n = s.unicode_len();
    let mut out: Vec<String> = Vec::new();
    let mut start: usize = 0;
    let mut i: usize = 0;
    while i < n
        invariant
            n == s@.len(),
            start <= i <= n,
            split_state(s@.take(i as int)) == (string_views(out@), s@.subrange(
                start as int,
                i as int,
            )),
        decreases n - i,
    {
        let c = s.get_char(i);
        proof {
            assert(s@.take(i + 1).drop_last() =~= s@.take(i as int));
            assert(s@.subrange(start as int, i + 1) =~= s@.subrange(start as int, i as int).push(c));
        }
        if c == '/' {
            if start < i {
                let seg = s.substring_char(start, i).to_owned();
                let ghost before = out@;
                out.push(seg);
                assert(string_views(out@) =~= string_views(before).push(seg@));
            }
            start = i + 1;
            assert(s@.subrange(start as int, i + 1) =~= Seq::<char>::empty());
        }
        i += 1;
    }
    assert(s@.take(n as int) =~= s@);
    if start < n {
        let seg = s.substring_char(start, n).to_owned();
        let ghost before = out@;
        out.push(seg);
        assert(string_views(out@) =~= string_views(before).push(seg@));
    }
    out
}

/// Whether `s` starts at the file system's root.
pub fn starts_at_root(s: &str) -> (r: bool)
    ensures
        r == is_absolute(s@),
{
    let n = s.unicode_len();
    n > 0 && s.get_char(0) == '/'
}

/// Whether `p` is `root` or lies below it, segment by segment.
pub fn path_within(root: &str, p: &str) -> (r: bool)
    ensures
        r == within(root@, p@),
{
    if starts_at_root(root) != starts_at_root(p) {
        return false;
    }
    let rs = path_segments(root);
    let ps = path_segments(p);
    if rs.len() > ps.len() {
        return false;
    }
    let mut i: usize = 0;
    while i < rs.len()
        invariant
            string_views(rs@) == segments(root@),
            string_views(ps@) == segments(p@),
            rs.len() <= ps.len(),
            i <= rs.len(),
            forall|j: int| 0 <= j < i ==> rs@[j]@ == ps@[j]@,
        decreases rs.len() - i,
    {
        if rs[i] != ps[i] {
            assert(string_views(ps@).take(rs.len() as int)[i as int] != string_views(rs@)[i as int]);
            return false;
        }
        i += 1;
    }
    assert(string_views(ps@).take(rs.len() as int) =~= string_views(rs@));
    true
}

/// Whether the first `k` characters of `s` end a segment of it.
pub open spec fn ends_segment(s: Seq<char>, k: int) -> bool {
    &&& 0 < k <= s.len()
    &&& s[k - 1] != '/'
    &&& k == s.len() || s[k] == '/'
}

/// The prefixes of `s` among its first `k` characters that end a segment,
/// shortest first.
pub open spec fn chain_upto(s: Seq<char>, k: int) -> Seq<Seq<char>>
    decreases k,
{
    if k <= 0 {
        seq![]
    } else if ends_segment(s, k) {
        chain_upto(s, k - 1).push(s.take(k))
    } else {
        chain_upto(s, k - 1)
    }
}

/// The path as written and each of its ancestors as written, outermost
/// first: `/tmp/sandbox/link` gives `/tmp`, `/tmp/sandbox` and
/// `/tmp/sandbox/link`. Nothing in it is resolved, so a symbolic link on the
/// way shows up as itself.
pub open spec fn ancestor_chain(s: Seq<char>) -> Seq<Seq<char>> {
    chain_upto(s, s.len() as int)
}

/// The literal ancestors of `s`, outermost first, ending with `s` itself
/// (without a trailing `/`).
pub fn literal_ancestors(s: &str) -> (r: Vec<String>)
    ensures
        string_views(r@) == ancestor_chain(s@),
{
    let n = s.unicode_len();
    let mut out: Vec<String> = Vec::new();
    let mut i: usize = 0;
    while i < n
        invariant
            n == s@.len(),
            i <= n,
            string_views(out@) == chain_upto(s@, i as int),
        decreases n - i,
    {
        let k = i + 1;
        let ends = s.get_char(i) != '/' && (k == n || s.get_char(k) == '/');
        if ends {
            let prefix = s.substring_char(0, k).to_owned();
            let ghost before = out@;
            out.push(prefix);
            assert(s@.subrange(0, k as int) =~= s@.take(k as int));
            assert(string_views(out@) =~= string_views(before).push(prefix@));
        }
        i = k;
    }
    out
}

/// The characters of `x` after its last `/`; all of `x` when it has none.
pub open spec fn after_last_slash(x: Seq<char>) -> Seq<char>
    decreases x.len(),
{
    if x.len() == 0 || x.last() == '/' {
        seq![]
    } else {
        after_last_slash(x.drop_last()).push(x.last())
    }
}

/// The directory that holds the last entry of `s`, as written, and the name
/// of that entry; `None` where `s` names no entry (it is empty or only
/// separators).
pub open spec fn parent_and_name(s: Seq<char>) -> Option<(Seq<char>, Seq<char>)> {
    let chain = ancestor_chain(s);
    if chain.len() == 0 {
        None
    } else {
        let parent = if chain.len() >= 2 {
            chain[chain.len() - 2]
        } else if is_absolute(s) {
            seq!['/']
        } else {
            seq!['.']
        };
        Some((parent, after_last_slash(chain.last())))
    }
}

/// The characters of `x` after its last `/`.
fn last_name(x: &str) -> (r: String)
    ensures
        r@ == after_last_slash(x@),
{
    let n = x.unicode_len();
    let mut j: usize = n;
    assert(x@.take(n as int) =~= x@);
    assert(x@.subrange(n as int, n as int) =~= Seq::<char>::empty());
    assert(after_last_slash(x@) =~= after_last_slash(x@) + Seq::<char>::empty());
    while j > 0 && x.get_char(j - 1) != '/'
        invariant
            n == x@.len(),
            j <= n,
            after_last_slash(x@) == after_last_slash(x@.take(j as int)) + x@.subrange(
                j as int,
                n as int,
            ),
        decreases j,
    {
        let ghost t = x@.take(j as int);
        assert(t.drop_last() =~= x@.take(j - 1));
        assert(x@.subrange(j - 1, n as int) =~= seq![x@[j - 1]] + x@.subrange(j as int, n as int));
        assert(after_last_slash(t) + x@.subrange(j as int, n as int) =~= after_last_slash(
            x@.take(j - 1),
        ) + x@.subrange(j - 1, n as int));
        j -= 1;
    }
    assert(x@.take(n as int) =~= x@);
    assert(after_last_slash(x@.take(j as int)) =~= Seq::<char>::empty());
    assert(x@.subrange(j as int, n as int) =~= seq![] + x@.subrange(j as int, n as int));
    x.substring_char(j, n).to_owned()
}

/// The directory that holds the last entry of `s`, as written, and the name
/// of that entry.
pub fn split_parent(s: &str) -> (r: Option<(String, String)>)
    ensures
        match parent_and_name(s@) {
            None => r is None,
            Some((p, n)) => r matches Some((q, m)) && q@ == p && m@ == n,
        },
{
    let chain = literal_ancestors(s);
    let k = chain.len();
    if k == 0 {
        return None;
    }
    assert(chain@[k - 1]@ == ancestor_chain(s@).last());
    let parent = if k >= 2 {
        assert(chain@[k - 2]@ == ancestor_chain(s@)[k - 2]);
        chain[k - 2].clone()
    } else if starts_at_root(s) {
        proof {
            reveal_strlit("/");
        }
        String::from_str("/")
    } else {
        proof {
            reveal_strlit(".");
        }
        String::from_str(".")
    };
    let name = last_name(chain[k - 1].as_str());
    Some((parent, name))
}

/// For a path whose last `d` literal entries do not exist yet: the existing
/// directory above them, as written, and the names of the `d` entries, in
/// order. `None` where `d` is not between one and the number of entries.
pub open spec fn base_of(s: Seq<char>, d: int) -> Option<(Seq<char>, Seq<Seq<char>>)> {
    let chain = ancestor_chain(s);
    let n = chain.len() as int;
    if d < 1 || d > n {
        None
    } else {
        let base = if d < n {
            chain[n - d - 1]
        } else if is_absolute(s) {
            seq!['/']
        } else {
            seq!['.']
        };
        Some((base, Seq::new(d as nat, |i: int| after_last_slash(chain[n - d + i]))))
    }
}

/// The existing directory above the last `d` entries of `s`, as written,
/// and the names of those entries.
pub fn split_base(s: &str, d: usize) -> (r: Option<(String, Vec<String>)>)
    ensures
        match base_of(s@, d as int) {
            None => r is None,
            Some((b, names)) => r matches Some((q, v)) && q@ == b && string_views(v@) == names,
        },
{
    let chain = literal_ancestors(s);
    let n = chain.len();
    if d < 1 || d > n {
        return None;
    }
    let ghost ch = ancestor_chain(s@);
    let base = if d < n {
        assert(chain@[n - d - 1]@ == ch[n - d - 1]);
        chain[n - d - 1].clone()
    } else if starts_at_root(s) {
        proof {
            reveal_strlit("/");
        }
        String::from_str("/")
    } else {
        proof {
            reveal_strlit(".");
        }
        String::from_str(".")
    };
    let mut names: Vec<String> = Vec::new();
    let mut i: usize = 0;
    while i < d
        invariant
            string_views(chain@) == ch,
            n == chain@.len(),
            1 <= d <= n,
            i <= d,
            string_views(names@) =~= Seq::new(
                i as nat,
                |j: int| after_last_slash(ch[n - d + j]),
            ),
        decreases d - i,
    {
        assert(chain@[n - d + i]@ == ch[n - d + i]);
        let name = last_name(chain[n - d + i].as_str());
        let ghost before = names@;
        names.push(name);
        assert(string_views(names@) =~= string_views(before).push(name@));
        i += 1;
    }
    Some((base, names))
}

} // verus!
