//! Where a capture file path points: standard input, a relative path, or an
//! absolute one with `~` expanded, refusing `..` and paths outside home.

use vstd::prelude::*;
use vstd::string::StringExecFns;

use crate::text::{chars_of, pieces, split_bounds, split_fields};

verus! {

/// Whether `s` begins with `p`.
pub open spec fn has_prefix(s: Seq<char>, p: Seq<char>) -> bool {
    p.len() <= s.len() && s.subrange(0, p.len() as int) == p
}

/// The component `..`.
pub open spec fn parent_dir() -> Seq<char> {
    seq!['.', '.']
}

/// The component `.`.
pub open spec fn cur_dir() -> Seq<char> {
    seq!['.']
}

/// The root component `/`.
pub open spec fn root_dir() -> Seq<char> {
    seq!['/']
}

/// `rest` joined onto `base` as `PathBuf::join` does on Unix: an absolute
/// `rest` replaces `base`; otherwise a `/` separates them unless `base` is
/// empty or already ends with one.
pub open spec fn join_path(base: Seq<char>, rest: Seq<char>) -> Seq<char> {
    if rest.len() > 0 && rest[0] == '/' {
        rest
    } else if base.len() == 0 || base.last() == '/' {
        base + rest
    } else {
        base + root_dir() + rest
    }
}

/// `path` with a leading `~/` replaced by the home directory `home`.
pub open spec fn expand_tilde(path: Seq<char>, home: Seq<char>) -> Seq<char> {
    if has_prefix(path, seq!['~', '/']) {
        join_path(home, path.subrange(2, path.len() as int))
    } else {
        path
    }
}

/// Whether some `/`-separated component of `s` is `..`.
pub open spec fn has_parent_component(s: Seq<char>) -> bool {
    let f = split_fields(s, '/');
    exists|i: int| 0 <= i < f.len() && #[trigger] f[i] == parent_dir()
}

/// The named components of a list of `/`-separated fields: the fields that
/// are neither empty nor `.`.
pub open spec fn named_parts(fs: Seq<Seq<char>>) -> Seq<Seq<char>>
    decreases fs.len(),
{
    if fs.len() == 0 {
        Seq::empty()
    } else {
        let r = named_parts(fs.drop_last());
        let x = fs.last();
        if x.len() > 0 && x != cur_dir() {
            r.push(x)
        } else {
            r
        }
    }
}

/// The components of a Unix path as `Path::components` yields them: a root
/// component for a leading `/`, a `.` component for a relative path that
/// starts with `.`, then its fields that are neither empty nor `.`.
pub open spec fn path_components(s: Seq<char>) -> Seq<Seq<char>> {
    let f = split_fields(s, '/');
    if s.len() > 0 && s[0] == '/' {
        seq![root_dir()] + named_parts(f.drop_first())
    } else if f[0] == cur_dir() {
        seq![cur_dir()] + named_parts(f.drop_first())
    } else {
        named_parts(f)
    }
}

/// Whether the path `a` begins with the components of the path `b`, as
/// `Path::starts_with` decides.
pub open spec fn path_starts_with(a: Seq<char>, b: Seq<char>) -> bool {
    let ca = path_components(a);
    let cb = path_components(b);
    cb.len() <= ca.len() && ca.subrange(0, cb.len() as int) == cb
}

/// What a path argument leads to before the file system is consulted, as a value.
pub enum PathTarget {
    Stdin,
    Relative(Seq<char>),
    Absolute(Seq<char>),
}

/// What a path argument leads to before the file system is consulted.
pub enum PathPlan {
    /// `-`: read standard input.
    Stdin,
    /// A relative path, used as it is.
    Relative(Vec<char>),
    /// An absolute path, to be canonicalised and then confirmed to lie under the home directory.
    Absolute(Vec<char>),
}

/// Whether `s[lo..hi]` equals `t[tlo..thi]`.
fn same_chars(s: &Vec<char>, lo: usize, hi: usize, t: &Vec<char>, tlo: usize, thi: usize) -> (b: bool)
    requires
        lo <= hi <= s.len(),
        tlo <= thi <= t.len(),
    ensures
        b == (s@.subrange(lo as int, hi as int) == t@.subrange(tlo as int, thi as int)),
{
    if hi - lo != thi - tlo {
        assert(s@.subrange(lo as int, hi as int).len() != t@.subrange(tlo as int, thi as int).len());
        return false;
    }
    let mut i: usize = 0;
    while i < hi - lo
        invariant
            lo <= hi <= s.len(),
            tlo <= thi <= t.len(),
            hi - lo == thi - tlo,
            i <= hi - lo,
            forall|k: int|
                0 <= k < i ==> #[trigger] s@.subrange(lo as int, hi as int)[k] == t@.subrange(
                    tlo as int,
                    thi as int,
                )[k],
        decreases hi - lo - i,
    {
        if s[lo + i] != t[tlo + i] {
            assert(s@.subrange(lo as int, hi as int)[i as int] != t@.subrange(
                tlo as int,
                thi as int,
            )[i as int]);
            return false;
        }
        i = i + 1;
    }
    assert(s@.subrange(lo as int, hi as int) =~= t@.subrange(tlo as int, thi as int));
    true
}

/// Whether some `/`-separated component of `s` is `..`.
pub fn contains_parent_component(s: &Vec<char>) -> (b: bool)
    ensures
        b == has_parent_component(s@),
{
    let n = s.len();
    let f = split_bounds(s, 0, n, '/');
    assert(s@.subrange(0, n as int) =~= s@);
    let ghost fs = split_fields(s@, '/');
    let mut i: usize = 0;
    while i < f.len()
        invariant
            pieces(s@, f@) == fs,
            fs == split_fields(s@, '/'),
            i <= f.len(),
            forall|k: int| 0 <= k < f.len() ==> 0 <= #[trigger] f@[k].0 <= f@[k].1 <= s.len(),
            forall|k: int| 0 <= k < i ==> #[trigger] fs[k] != parent_dir(),
        decreases f.len() - i,
    {
        let (a, b) = f[i];
        assert(fs[i as int] == s@.subrange(a as int, b as int));
        if b - a == 2 && s[a] == '.' && s[a + 1] == '.' {
            assert(fs[i as int] =~= parent_dir());
            return true;
        }
        assert(fs[i as int] != parent_dir()) by {
            if fs[i as int] == parent_dir() {
                assert(fs[i as int][0] == '.' && fs[i as int][1] == '.');
            }
        }
        i = i + 1;
    }
    false
}

/// The bounds of the components of `s` (see `path_components`).
pub fn component_bounds(s: &Vec<char>) -> (r: Vec<(usize, usize)>)
    ensures
        pieces(s@, r@) == path_components(s@),
        forall|k: int| 0 <= k < r.len() ==> 0 <= #[trigger] r@[k].0 <= r@[k].1 <= s.len(),
{
    let n = s.len();
    let f = split_bounds(s, 0, n, '/');
    assert(s@.subrange(0, n as int) =~= s@);
    let ghost fs = split_fields(s@, '/');
    proof {
        crate::text::lemma_split_fields_nonempty(s@, '/');
    }
    assert(fs[0] == s@.subrange(f@[0].0 as int, f@[0].1 as int));
    let mut r: Vec<(usize, usize)> = Vec::new();
    let mut start: usize = 0;
    if n > 0 && s[0] == '/' {
        r.push((0, 1));
        start = 1;
        assert(s@.subrange(0, 1) =~= root_dir());
    } else if f[0].1 - f[0].0 == 1 && s[f[0].0] == '.' {
        r.push(f[0]);
        start = 1;
        assert(fs[0] =~= cur_dir());
    } else {
        assert(fs[0] != cur_dir()) by {
            if fs[0] == cur_dir() {
                assert(fs[0][0] == '.');
            }
        }
    }
    let ghost head = pieces(s@, r@);
    assert(fs.subrange(start as int, start as int) =~= Seq::<Seq<char>>::empty());
    assert(pieces(s@, r@) =~= head + named_parts(fs.subrange(start as int, start as int)));
    let mut i = start;
    while i < f.len()
        invariant
            start <= i <= f.len(),
            start <= 1,
            f.len() >= 1,
            pieces(s@, f@) == fs,
            fs == split_fields(s@, '/'),
            forall|k: int| 0 <= k < f.len() ==> 0 <= #[trigger] f@[k].0 <= f@[k].1 <= s.len(),
            forall|k: int| 0 <= k < r.len() ==> 0 <= #[trigger] r@[k].0 <= r@[k].1 <= s.len(),
            pieces(s@, r@) == head + named_parts(fs.subrange(start as int, i as int)),
            head == (if start == 1 {
                seq![fs[0]]
            } else {
                Seq::<Seq<char>>::empty()
            }) || (start == 1 && head == seq![root_dir()]),
        decreases f.len() - i,
    {
        let (a, b) = f[i];
        let ghost x = fs[i as int];
        assert(x == s@.subrange(a as int, b as int));
        assert(fs.subrange(start as int, i + 1).drop_last() =~= fs.subrange(start as int, i as int));
        assert(fs.subrange(start as int, i + 1).last() == x);
        let is_dot = b - a == 1 && s[a] == '.';
        assert(is_dot <==> x == cur_dir()) by {
            if x == cur_dir() {
                assert(x[0] == '.');
            }
            if is_dot {
                assert(x =~= cur_dir());
            }
        }
        if b > a && !is_dot {
            let ghost old_r = r@;
            r.push((a, b));
            assert(pieces(s@, r@) =~= pieces(s@, old_r).push(x));
        }
        i = i + 1;
    }
    assert(fs.subrange(start as int, f.len() as int) =~= if start == 1 {
        fs.drop_first()
    } else {
        fs
    });
    r
}

/// Whether the path `a` begins with the components of the path `b`.
pub fn starts_with_path(a: &Vec<char>, b: &Vec<char>) -> (r: bool)
    ensures
        r == path_starts_with(a@, b@),
{
    let ca = component_bounds(a);
    let cb = component_bounds(b);
    let ghost pa = path_components(a@);
    let ghost pb = path_components(b@);
    if cb.len() > ca.len() {
        return false;
    }
    let mut i: usize = 0;
    while i < cb.len()
        invariant
            pa == path_components(a@),
            pb == path_components(b@),
            pieces(a@, ca@) == pa,
            pieces(b@, cb@) == pb,
            cb.len() <= ca.len(),
            i <= cb.len(),
            forall|k: int| 0 <= k < ca.len() ==> 0 <= #[trigger] ca@[k].0 <= ca@[k].1 <= a.len(),
            forall|k: int| 0 <= k < cb.len() ==> 0 <= #[trigger] cb@[k].0 <= cb@[k].1 <= b.len(),
            forall|k: int| 0 <= k < i ==> #[trigger] pa[k] == pb[k],
        decreases cb.len() - i,
    {
        assert(pa[i as int] == a@.subrange(ca@[i as int].0 as int, ca@[i as int].1 as int));
        assert(pb[i as int] == b@.subrange(cb@[i as int].0 as int, cb@[i as int].1 as int));
        if !same_chars(a, ca[i].0, ca[i].1, b, cb[i].0, cb[i].1) {
            assert(pa[i as int] != pb[i as int]);
            assert(pa.subrange(0, pb.len() as int) != pb) by {
                if pa.subrange(0, pb.len() as int) == pb {
                    assert(pa.subrange(0, pb.len() as int)[i as int] == pa[i as int]);
                }
            }
            return false;
        }
        i = i + 1;
    }
    assert(pa.subrange(0, pb.len() as int) =~= pb);
    true
}

/// Appends `s[lo..hi]` to `out`.
fn push_range(out: &mut Vec<char>, s: &Vec<char>, lo: usize, hi: usize)
    requires
        lo <= hi <= s.len(),
    ensures
        final(out)@ == old(out)@ + s@.subrange(lo as int, hi as int),
{
    let mut i = lo;
    while i < hi
        invariant
            lo <= i <= hi <= s.len(),
            out@ == old(out)@ + s@.subrange(lo as int, i as int),
        decreases hi - i,
    {
        out.push(s[i]);
        assert(s@.subrange(lo as int, i + 1) =~= s@.subrange(lo as int, i as int).push(s@[i as int]));
        i = i + 1;
    }
}

/// `path` with a leading `~/` replaced by the home directory `home`.
pub fn expand_home(path: &Vec<char>, home: &Vec<char>) -> (r: Vec<char>)
    ensures
        r@ == expand_tilde(path@, home@),
{
    let n = path.len();
    let mut out: Vec<char> = Vec::new();
    if n >= 2 && path[0] == '~' && path[1] == '/' {
        assert(has_prefix(path@, seq!['~', '/'])) by {
            assert(path@.subrange(0, 2) =~= seq!['~', '/']);
        }
        let ghost rest = path@.subrange(2, n as int);
        if n > 2 && path[2] == '/' {
            push_range(&mut out, path, 2, n);
        } else {
            let hn = home.len();
            push_range(&mut out, home, 0, hn);
            assert(home@.subrange(0, hn as int) =~= home@);
            if hn > 0 && home[hn - 1] != '/' {
                out.push('/');
                assert(home@ + root_dir() =~= home@.push('/'));
            }
            push_range(&mut out, path, 2, n);
        }
        assert(out@ =~= expand_tilde(path@, home@));
    } else {
        assert(!has_prefix(path@, seq!['~', '/'])) by {
            if has_prefix(path@, seq!['~', '/']) {
                assert(path@.subrange(0, 2)[0] == '~');
                assert(path@.subrange(0, 2)[1] == '/');
            }
        }
        push_range(&mut out, path, 0, n);
        assert(path@.subrange(0, n as int) =~= path@);
    }
    out
}

impl View for PathPlan {
    type V = PathTarget;

    open spec fn view(&self) -> PathTarget {
        match self {
            PathPlan::Stdin => PathTarget::Stdin,
            PathPlan::Relative(p) => PathTarget::Relative(p@),
            PathPlan::Absolute(p) => PathTarget::Absolute(p@),
        }
    }
}

/// The message for a path argument when `HOME` is unset.
pub open spec fn home_unset_message() -> Seq<char> {
    "HOME is not set"@
}

/// The message for a path argument with a `..` component.
pub open spec fn traversal_message(path: Seq<char>) -> Seq<char> {
    "Path traversal is not allowed: "@ + path
}

/// The message for a path that leads outside the home directory.
pub open spec fn escape_message(path: Seq<char>) -> Seq<char> {
    "Path escapes HOME: "@ + path
}

/// What `expand_path` does with `path` before consulting the file system,
/// given the value of `HOME` (if set): `-` stands for standard input; a
/// leading `~/` is replaced by the home directory; a path with a `..`
/// component is refused; an absolute result still has to be confirmed to lie
/// under the home directory.
pub open spec fn path_plan(path: Seq<char>, home: Option<Seq<char>>) -> Result<PathTarget, Seq<char>> {
    if path == seq!['-'] {
        Ok(PathTarget::Stdin)
    } else {
        match home {
            None => Err(home_unset_message()),
            Some(h) => {
                let e = expand_tilde(path, h);
                if has_parent_component(e) {
                    Err(traversal_message(path))
                } else if e.len() > 0 && e[0] == '/' {
                    Ok(PathTarget::Absolute(e))
                } else {
                    Ok(PathTarget::Relative(e))
                }
            },
        }
    }
}

/// Resolves a path argument as far as it can be without the file system
/// (see `path_plan`); `home` is the value of `HOME`, if set.
pub fn plan_path(path: &str, home: Option<&str>) -> (r: Result<PathPlan, String>)
    ensures
        match path_plan(path@, match home {
            Some(h) => Some(h@),
            None => None,
        }) {
            Ok(t) => r is Ok && r->Ok_0@ == t,
            Err(m) => r is Err && r->Err_0@ == m,
        },
{
    let p = chars_of(path);
    if p.len() == 1 && p[0] == '-' {
        assert(p@ =~= seq!['-']);
        return Ok(PathPlan::Stdin);
    }
    assert(p@ != seq!['-']) by {
        if p@ == seq!['-'] {
            assert(p@[0] == '-');
        }
    }
    let h = match home {
        None => return Err("HOME is not set".to_string()),
        Some(h) => chars_of(h),
    };
    let e = expand_home(&p, &h);
    if contains_parent_component(&e) {
        return Err("Path traversal is not allowed: ".to_string().concat(path));
    }
    if e.len() > 0 && e[0] == '/' {
        Ok(PathPlan::Absolute(e))
    } else {
        Ok(PathPlan::Relative(e))
    }
}

/// Confirms that the canonical form `canonical` of the path argument `path`
/// lies under the home directory `home`, component by component.
pub fn confirm_under_home(path: &str, canonical: &str, home: &str) -> (r: Result<(), String>)
    ensures
        r is Ok <==> path_starts_with(canonical@, home@),
        r is Err ==> r->Err_0@ == escape_message(path@),
{
    let c = chars_of(canonical);
    let h = chars_of(home);
    if starts_with_path(&c, &h) {
        Ok(())
    } else {
        Err("Path escapes HOME: ".to_string().concat(path))
    }
}

} // verus!
