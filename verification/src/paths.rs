//! Lexical normalization of paths, on their components.
use vstd::prelude::*;

verus! {

/// A component of a path; names are carried along and never looked into.
#[derive(Debug, PartialEq, Eq)]
pub enum PathComponent<N> {
    Prefix(N),
    RootDir,
    CurDir,
    ParentDir,
    Normal(N),
}

impl<N: Copy> Clone for PathComponent<N> {
    fn clone(&self) -> (r: Self)
        ensures
            r == *self,
    {
        *self
    }
}

impl<N: Copy> Copy for PathComponent<N> {

}

/// Whether a path has a root.
pub open spec fn has_root<N>(path: Seq<PathComponent<N>>) -> bool {
    exists|i: int| 0 <= i < path.len() && (#[trigger] path[i]) is RootDir
}

/// A path without `.`, in which every `..` that follows a name is resolved with
/// it, and none is left above the root.
pub open spec fn normalized<N>(path: Seq<PathComponent<N>>) -> Seq<PathComponent<N>>
    decreases path.len(),
{
    if path.len() == 0 {
        Seq::empty()
    } else {
        let before = normalized(path.drop_last());
        match path.last() {
            PathComponent::CurDir => before,
            PathComponent::ParentDir => if before.len() > 0 && before.last() is Normal {
                before.drop_last()
            } else if !has_root(before) {
                before.push(path.last())
            } else {
                before
            },
            _ => before.push(path.last()),
        }
    }
}

fn rooted<N: Copy>(path: &Vec<PathComponent<N>>) -> (r: bool)
    ensures
        r == has_root(path@),
{
    let mut i: usize = 0;
    while i < path.len()
        invariant
            i <= path@.len(),
            forall|j: int| 0 <= j < i ==> !((#[trigger] path@[j]) is RootDir),
        decreases path@.len() - i,
    {
        if let PathComponent::RootDir = path[i] {
            assert(path@[i as int] is RootDir);
            return true;
        }
        i = i + 1;
    }
    false
}

/// Normalizes a path without looking at the file system.
pub fn normalize_lexically<N: Copy>(components: &Vec<PathComponent<N>>) -> (r: Vec<
    PathComponent<N>,
>)
    ensures
        r@ == normalized(components@),
{
    let mut path: Vec<PathComponent<N>> = Vec::new();
    let mut i: usize = 0;
    while i < components.len()
        invariant
            i <= components@.len(),
            path@ == normalized(components@.take(i as int)),
        decreases components@.len() - i,
    {
        proof {
            assert(components@.take(i + 1).drop_last() =~= components@.take(i as int));
            assert(components@.take(i + 1).last() == components@[i as int]);
        }
        match components[i] {
            PathComponent::CurDir => {},
            PathComponent::ParentDir => {
                let n: usize = path.len();
                let ends_in_name = n > 0 && matches!(path[n - 1], PathComponent::Normal(_));
                if ends_in_name {
                    path.pop();
                } else if !rooted(&path) {
                    path.push(PathComponent::ParentDir);
                }
            },
            PathComponent::Prefix(name) => path.push(PathComponent::Prefix(name)),
            PathComponent::RootDir => path.push(PathComponent::RootDir),
            PathComponent::Normal(name) => path.push(PathComponent::Normal(name)),
        }
        i = i + 1;
    }
    assert(components@.take(components@.len() as int) =~= components@);
    path
}

/// What to do next in the search for the deepest part of a path that exists.
#[derive(Debug, PartialEq, Eq)]
pub enum ResolveStep<N> {
    /// Look up the path of the first so many components.
    Try(usize),
    /// The search is over, with this path.
    Done(Vec<PathComponent<N>>),
}

/// Whether a front part of `n` components has a parent.
pub open spec fn has_parent<N>(path: Seq<PathComponent<N>>, n: int) -> bool {
    0 < n && !(path[n - 1] is RootDir) && !(path[n - 1] is Prefix)
}

/// The path that stands for `path` once its front part of `n` components was
/// looked up: with what the front part really is, followed by the rest.
pub open spec fn resolved<N>(
    path: Seq<PathComponent<N>>,
    n: int,
    canonical: Seq<PathComponent<N>>,
) -> Seq<PathComponent<N>> {
    normalized(canonical + path.skip(n))
}

/// Goes on with the search after the front part of `n` components was looked up,
/// with `canonical` as what it really is, or none where it does not exist.
pub fn resolve_step<N: Copy>(
    path: &Vec<PathComponent<N>>,
    n: usize,
    canonical: Option<&Vec<PathComponent<N>>>,
) -> (r: ResolveStep<N>)
    requires
        n <= path@.len(),
    ensures
        match canonical {
            Some(front) => r is Done && r->Done_0@ == resolved(path@, n as int, front@),
            None => if has_parent(path@, n as int) {
                r == ResolveStep::<N>::Try((n - 1) as usize)
            } else {
                r is Done && r->Done_0@ == normalized(path@)
            },
        },
{
    match canonical {
        Some(front) => {
            let mut whole: Vec<PathComponent<N>> = Vec::new();
            let mut i: usize = 0;
            while i < front.len()
                invariant
                    i <= front@.len(),
                    whole@ == front@.take(i as int),
                decreases front@.len() - i,
            {
                whole.push(front[i]);
                i = i + 1;
                assert(front@.take(i as int) =~= front@.take(i - 1).push(front@[i - 1]));
            }
            assert(front@.take(front@.len() as int) =~= front@);
            let mut j: usize = n;
            while j < path.len()
                invariant
                    n <= j <= path@.len(),
                    whole@ == front@ + path@.subrange(n as int, j as int),
                decreases path@.len() - j,
            {
                whole.push(path[j]);
                j = j + 1;
                assert(path@.subrange(n as int, j as int) =~= path@.subrange(
                    n as int,
                    j - 1,
                ).push(path@[j - 1]));
            }
            ResolveStep::Done(normalize_lexically(&whole))
        },
        None => {
            let parent = n > 0 && !matches!(
                path[n - 1],
                PathComponent::RootDir | PathComponent::Prefix(_)
            );
            if parent {
                ResolveStep::Try(n - 1)
            } else {
                ResolveStep::Done(normalize_lexically(path))
            }
        },
    }
}

/// A normal form: no `.` is left, nothing but a name follows a name, and above the
/// root there is no `..`.
pub open spec fn in_normal_form<N>(path: Seq<PathComponent<N>>) -> bool {
    forall|i: int| #![trigger path[i]]
        0 <= i < path.len() ==> {
            &&& !(path[i] is CurDir)
            &&& path[i] is ParentDir ==> !has_root(path.take(i)) && !(i > 0 && path[i - 1] is Normal)
        }
}

/// Normalizing gives a normal form.
pub proof fn law_normalized_is_normal<N>(path: Seq<PathComponent<N>>)
    ensures
        in_normal_form(normalized(path)),
    decreases path.len(),
{
    if path.len() > 0 {
        let before = normalized(path.drop_last());
        let after = normalized(path);
        law_normalized_is_normal(path.drop_last());
        assert forall|i: int| #![trigger after[i]] 0 <= i < after.len() implies {
            &&& !(after[i] is CurDir)
            &&& after[i] is ParentDir ==> !has_root(after.take(i)) && !(i > 0
                && after[i - 1] is Normal)
        } by {
            if i < before.len() {
                assert(after[i] == before[i]);
                assert(after.take(i) =~= before.take(i));
            } else {
                assert(after.take(i) =~= before);
            }
        }
    }
}

/// A normal form is left as it is.
pub proof fn law_normal_form_is_kept<N>(path: Seq<PathComponent<N>>)
    requires
        in_normal_form(path),
    ensures
        normalized(path) == path,
    decreases path.len(),
{
    if path.len() > 0 {
        let front = path.drop_last();
        assert forall|i: int| #![trigger front[i]] 0 <= i < front.len() implies {
            &&& !(front[i] is CurDir)
            &&& front[i] is ParentDir ==> !has_root(front.take(i)) && !(i > 0
                && front[i - 1] is Normal)
        } by {
            assert(front[i] == path[i]);
            assert(front.take(i) =~= path.take(i));
        }
        law_normal_form_is_kept(front);
        assert(path[path.len() - 1] == path.last());
        assert(path.take(path.len() - 1) =~= front);
        assert(front.push(path.last()) =~= path);
    }
}

/// Normalizing a second time changes nothing.
pub proof fn law_normalizing_is_idempotent<N>(path: Seq<PathComponent<N>>)
    ensures
        normalized(normalized(path)) == normalized(path),
{
    law_normalized_is_normal(path);
    law_normal_form_is_kept(normalized(path));
}

/// Paths that come to the same still do with the same components behind them.
proof fn lemma_same_with_rest<N>(
    a: Seq<PathComponent<N>>,
    b: Seq<PathComponent<N>>,
    rest: Seq<PathComponent<N>>,
)
    requires
        normalized(a) == normalized(b),
    ensures
        normalized(a + rest) == normalized(b + rest),
    decreases rest.len(),
{
    if rest.len() == 0 {
        assert(a + rest =~= a);
        assert(b + rest =~= b);
    } else {
        lemma_same_with_rest(a, b, rest.drop_last());
        assert((a + rest).drop_last() =~= a + rest.drop_last());
        assert((b + rest).drop_last() =~= b + rest.drop_last());
    }
}

/// Wherever in a path it stands, `.` can be left out, a name can be left out
/// together with the `..` behind it, and so can `..` right behind the root.
pub proof fn law_normalizing_rules<N>(
    before: Seq<PathComponent<N>>,
    name: N,
    rest: Seq<PathComponent<N>>,
)
    ensures
        normalized(before + seq![PathComponent::CurDir] + rest) == normalized(before + rest),
        normalized(before + seq![PathComponent::Normal(name), PathComponent::ParentDir] + rest)
            == normalized(before + rest),
        normalized(before + seq![PathComponent::RootDir, PathComponent::ParentDir] + rest)
            == normalized(before + seq![PathComponent::RootDir] + rest),
{
    let dot = before + seq![PathComponent::<N>::CurDir];
    assert(dot.drop_last() =~= before);
    lemma_same_with_rest(dot, before, rest);

    let up = before + seq![PathComponent::Normal(name), PathComponent::ParentDir];
    let named = before.push(PathComponent::Normal(name));
    assert(up.drop_last() =~= named);
    assert(named.drop_last() =~= before);
    assert(normalized(named) == normalized(before).push(PathComponent::Normal(name)));
    assert(normalized(up) =~= normalized(before));
    lemma_same_with_rest(up, before, rest);

    let above = before + seq![PathComponent::<N>::RootDir, PathComponent::<N>::ParentDir];
    let root = before + seq![PathComponent::<N>::RootDir];
    assert(above.drop_last() =~= root);
    assert(root.drop_last() =~= before);
    let found = normalized(root);
    assert(found == normalized(before).push(PathComponent::RootDir));
    assert(found[found.len() - 1] is RootDir);
    assert(normalized(above) =~= normalized(root));
    lemma_same_with_rest(above, root, rest);
}

/// Where the front part of a path is what it seems to be, the path comes to its own
/// normal form; where the whole path was looked up, to that of what was found. A
/// name behind the front part stays behind what the path comes to.
pub proof fn law_resolving<N>(
    path: Seq<PathComponent<N>>,
    n: int,
    canonical: Seq<PathComponent<N>>,
    name: N,
)
    requires
        0 <= n <= path.len(),
    ensures
        resolved(path, n, path.take(n)) == normalized(path),
        resolved(path, path.len() as int, canonical) == normalized(canonical),
        resolved(path.push(PathComponent::Normal(name)), n, canonical) == resolved(
            path,
            n,
            canonical,
        ).push(PathComponent::Normal(name)),
{
    assert(path.take(n) + path.skip(n) =~= path);
    assert(canonical + path.skip(path.len() as int) =~= canonical);
    let longer = path.push(PathComponent::Normal(name));
    let whole = canonical + longer.skip(n);
    assert(whole.drop_last() =~= canonical + path.skip(n));
    assert(whole.last() == PathComponent::Normal(name));
}

/// A front part has a parent exactly where it ends in `.`, `..` or a name.
pub proof fn law_parents<N>(path: Seq<PathComponent<N>>, n: int)
    requires
        0 <= n <= path.len(),
    ensures
        has_parent(path, n) <==> n > 0 && (path[n - 1] is CurDir || path[n - 1] is ParentDir
            || path[n - 1] is Normal),
{
}

} // verus!
