use vstd::prelude::*;

verus! {

/// An absolute path starts with the path separator.
pub open spec fn is_abs(p: Seq<char>) -> bool {
    p.len() > 0 && p[0] == '/'
}

/// A user-supplied path made absolute: kept as given when already
/// absolute, otherwise joined to the working directory.
pub open spec fn expanded(p: Seq<char>, work_dir: Seq<char>) -> Seq<char> {
    if is_abs(p) {
        p
    } else {
        work_dir + "/"@ + p
    }
}

/// A `..` component, which could climb back out of the root when the
/// operating system resolves the path.
pub open spec fn has_dotdot(p: Seq<char>) -> bool {
    exists|i: int|
        0 <= i && i + 2 <= p.len() && (#[trigger] p[i]) == '.' && p[i + 1] == '.' && (i == 0 || p[i
            - 1] == '/') && (i + 2 == p.len() || p[i + 2] == '/')
}

/// Containment under the project root: the path is the root itself, or
/// extends it at a component boundary. Expansion is purely lexical, so a
/// path with a `..` component cannot be shown to stay inside the root by
/// inspection and is never considered contained.
pub open spec fn under_root(p: Seq<char>, root: Seq<char>) -> bool {
    !has_dotdot(p) && (p == root || (p.len() > root.len() && p.take(root.len() as int) == root && (
    root.len() > 0 && root[root.len() - 1] == '/' || p[root.len() as int] == '/')))
}

pub fn is_abs_path(p: &String) -> (r: bool)
    ensures
        r == is_abs(p@),
{
    let n = p.as_str().unicode_len();
    if n == 0 {
        false
    } else {
        p.as_str().get_char(0) == '/'
    }
}

/// Make a user-supplied path absolute against the working directory.
pub fn expand_path(p: &String, work_dir: &String) -> (r: String)
    ensures
        r@ == expanded(p@, work_dir@),
{
    if is_abs_path(p) {
        p.clone()
    } else {
        let mut r = work_dir.clone();
        r.append("/");
        r.append(p.as_str());
        r
    }
}

/// Scan for a `..` component.
pub fn has_dotdot_path(p: &String) -> (r: bool)
    ensures
        r == has_dotdot(p@),
{
    let n = p.as_str().unicode_len();
    let mut i: usize = 0;
    while i < n && i + 1 < n
        invariant
            n == p@.len(),
            i <= n,
            forall|j: int|
                0 <= j && j + 2 <= n && j < i ==> !((#[trigger] p@[j]) == '.' && p@[j + 1] == '.'
                    && (j == 0 || p@[j - 1] == '/') && (j + 2 == n || p@[j + 2] == '/')),
        decreases n - i,
    {
        let dots = p.as_str().get_char(i) == '.' && p.as_str().get_char(i + 1) == '.';
        let left_edge = i == 0 || p.as_str().get_char(i - 1) == '/';
        let right_edge = i + 2 == n || p.as_str().get_char(i + 2) == '/';
        if dots && left_edge && right_edge {
            proof {
                assert(0 <= i as int && i as int + 2 <= p@.len() && p@[i as int] == '.'
                    && p@[i as int + 1] == '.' && (i as int == 0 || p@[i as int - 1] == '/') && (
                i as int + 2 == p@.len() || p@[i as int + 2] == '/'));
            }
            return true;
        }
        i += 1;
    }
    false
}

/// Decide containment under the project root.
pub fn is_under_root(p: &String, root: &String) -> (r: bool)
    ensures
        r == under_root(p@, root@),
{
    if has_dotdot_path(p) {
        return false;
    }
    let plen = p.as_str().unicode_len();
    let rlen = root.as_str().unicode_len();
    if plen < rlen {
        return false;
    }
    let mut i: usize = 0;
    while i < rlen
        invariant
            plen == p@.len(),
            rlen == root@.len(),
            rlen <= plen,
            i <= rlen,
            forall|j: int| 0 <= j < i ==> p@[j] == root@[j],
        decreases rlen - i,
    {
        if p.as_str().get_char(i) != root.as_str().get_char(i) {
            proof {
                assert(p@[i as int] != root@[i as int]);
                if p@ == root@ {
                    assert(false);
                }
                if p@.len() > root@.len() && p@.take(rlen as int) == root@ {
                    assert(p@.take(rlen as int)[i as int] == p@[i as int]);
                    assert(false);
                }
            }
            return false;
        }
        i += 1;
    }
    if plen == rlen {
        proof {
            assert(p@ =~= root@);
        }
        return true;
    }
    proof {
        assert(p@.take(rlen as int) =~= root@);
    }
    if rlen == 0 {
        return p.as_str().get_char(0) == '/';
    }
    if root.as_str().get_char(rlen - 1) == '/' {
        return true;
    }
    p.as_str().get_char(rlen) == '/'
}

/// The user-supplied paths that survive resolution, made absolute, in
/// input order.
pub open spec fn resolved(paths: Seq<Seq<char>>, work_dir: Seq<char>, root: Seq<char>) -> Seq<
    Seq<char>,
>
    decreases paths.len(),
{
    if paths.len() == 0 {
        Seq::<Seq<char>>::empty()
    } else {
        resolved(paths.drop_last(), work_dir, root) + (if under_root(
            expanded(paths.last(), work_dir),
            root,
        ) {
            seq![expanded(paths.last(), work_dir)]
        } else {
            Seq::<Seq<char>>::empty()
        })
    }
}

/// The user-supplied paths, as given, whose expansion falls outside the
/// project root: each is dropped from the run with a diagnostic.
pub open spec fn rejected(paths: Seq<Seq<char>>, work_dir: Seq<char>, root: Seq<char>) -> Seq<
    Seq<char>,
>
    decreases paths.len(),
{
    if paths.len() == 0 {
        Seq::<Seq<char>>::empty()
    } else {
        rejected(paths.drop_last(), work_dir, root) + (if under_root(
            expanded(paths.last(), work_dir),
            root,
        ) {
            Seq::<Seq<char>>::empty()
        } else {
            seq![paths.last()]
        })
    }
}

/// Resolve the user-supplied paths: make each absolute and keep it only
/// when it lies under the project root. The second list returns the
/// offending inputs so the caller can warn about each; a path outside the
/// root is dropped, never an error. An empty first list means the run has
/// nothing to do and terminates successfully.
pub fn resolve_paths(paths: &Vec<String>, work_dir: &String, root: &String) -> (r: (
    Vec<String>,
    Vec<String>,
))
    ensures
        r.0.deep_view() == resolved(paths.deep_view(), work_dir@, root@),
        r.1.deep_view() == rejected(paths.deep_view(), work_dir@, root@),
        forall|i: int|
            0 <= i < r.0.deep_view().len() ==> under_root(#[trigger] r.0.deep_view()[i], root@),
{
    let mut kept: Vec<String> = Vec::new();
    let mut dropped: Vec<String> = Vec::new();
    let n = paths.len();
    let mut i: usize = 0;
    proof {
        assert(paths.deep_view().take(0) =~= Seq::<Seq<char>>::empty());
        assert(kept.deep_view() =~= resolved(paths.deep_view().take(0), work_dir@, root@));
        assert(dropped.deep_view() =~= rejected(paths.deep_view().take(0), work_dir@, root@));
    }
    while i < n
        invariant
            n == paths@.len(),
            i <= n,
            kept.deep_view() == resolved(paths.deep_view().take(i as int), work_dir@, root@),
            dropped.deep_view() == rejected(paths.deep_view().take(i as int), work_dir@, root@),
            forall|l: int|
                0 <= l < kept.deep_view().len() ==> under_root(
                    #[trigger] kept.deep_view()[l],
                    root@,
                ),
        decreases n - i,
    {
        let ghost t0 = paths.deep_view().take(i as int);
        let ghost t1 = paths.deep_view().take(i as int + 1);
        proof {
            assert(paths.deep_view().len() == paths@.len());
            assert(t1.drop_last() =~= t0);
            assert(t1.last() == paths.deep_view()[i as int]);
        }
        let abs = expand_path(&paths[i], work_dir);
        if is_under_root(&abs, root) {
            let ghost k0 = kept.deep_view();
            kept.push(abs);
            proof {
                assert(kept.deep_view() =~= k0 + seq![expanded(
                    paths.deep_view()[i as int],
                    work_dir@,
                )]);
                assert(dropped.deep_view() =~= rejected(t1, work_dir@, root@));
            }
        } else {
            let ghost d0 = dropped.deep_view();
            dropped.push(paths[i].clone());
            proof {
                assert(dropped.deep_view() =~= d0 + seq![paths.deep_view()[i as int]]);
                assert(kept.deep_view() =~= resolved(t1, work_dir@, root@));
            }
        }
        i += 1;
    }
    proof {
        assert(paths.deep_view().take(n as int) =~= paths.deep_view());
    }
    (kept, dropped)
}

} // verus!
