use ferris_agent_bridge::paths::{
    normalize_lexically, resolve_step, PathComponent, ResolveStep,
};

fn names(parts: &[&'static str]) -> Vec<PathComponent<&'static str>> {
    parts
        .iter()
        .map(|part| match *part {
            "/" => PathComponent::RootDir,
            "." => PathComponent::CurDir,
            ".." => PathComponent::ParentDir,
            name => PathComponent::Normal(name),
        })
        .collect()
}

#[test]
fn lexical_normalization_resolves_what_it_can() {
    let cases: [(&[&'static str], &[&'static str]); 9] = [
        (&[], &[]),
        (&["/", "a", ".", "b"], &["/", "a", "b"]),
        (&["/", "a", "..", "b"], &["/", "b"]),
        (&["/", "..", "a"], &["/", "a"]),
        (&["/", "a", "..", ".."], &["/"]),
        (&["a", "..", ".."], &[".."]),
        (&["..", "a"], &["..", "a"]),
        (&["..", ".."], &["..", ".."]),
        (&[".", "a"], &["a"]),
    ];
    for (path, expected) in cases {
        let normalized = normalize_lexically(&names(path));
        assert_eq!(normalized, names(expected));
        assert_eq!(normalize_lexically(&normalized), normalized);
    }
    let drive = vec![
        PathComponent::Prefix("C:"),
        PathComponent::RootDir,
        PathComponent::ParentDir,
        PathComponent::Normal("a"),
    ];
    assert_eq!(
        normalize_lexically(&drive),
        vec![
            PathComponent::Prefix("C:"),
            PathComponent::RootDir,
            PathComponent::Normal("a"),
        ]
    );
}

/// Resolves a path on a file system where exactly `existing` exists, under the
/// canonical name `canonical`.
fn resolve(
    path: &[&'static str],
    existing: &[&'static str],
    canonical: &[&'static str],
) -> Vec<PathComponent<&'static str>> {
    let path = names(path);
    let mut n = path.len();
    loop {
        let found = path[..n] == names(existing)[..];
        let canonical = names(canonical);
        let looked_up = if found { Some(&canonical) } else { None };
        match resolve_step(&path, n, looked_up) {
            ResolveStep::Try(shorter) => n = shorter,
            ResolveStep::Done(resolved) => return resolved,
        }
    }
}

#[test]
fn state_store_normalizes_missing_parent_traversal_for_io_and_locking() {
    let root = ["/", "tmp", "state-missing-parent-alias"];
    let direct = resolve(
        &["/", "tmp", "state-missing-parent-alias", "new", "runtime.state.json"],
        &root,
        &root,
    );
    let alias = resolve(
        &[
            "/",
            "tmp",
            "state-missing-parent-alias",
            "new",
            "..",
            "new",
            "runtime.state.json",
        ],
        &root,
        &root,
    );

    assert_eq!(alias, direct);
    assert_eq!(
        direct,
        names(&["/", "tmp", "state-missing-parent-alias", "new", "runtime.state.json"])
    );
}

#[test]
fn the_deepest_existing_part_is_replaced_by_its_canonical_name() {
    assert_eq!(
        resolve(
            &["/", "linked", "runtime.state.json"],
            &["/", "linked"],
            &["/", "real"]
        ),
        names(&["/", "real", "runtime.state.json"])
    );
    assert_eq!(
        resolve(&["a", "..", "b"], &["/"], &["/"]),
        names(&["b"])
    );
    assert_eq!(resolve(&["/", "a", "..", "b"], &["x"], &["x"]), names(&["/", "b"]));
}
