use std::path::{Component as StdComponent, Path};
use yfiles::paths::{
    components, extension_of, file_name_of, join, parent_of, path_is_absolute, same_path,
    Component,
};

const SAMPLES: &[&str] = &[
    "", "/", "//", "///a", "a", "a/", "a/b", "a//b", "a/./b", "a/../b", "./a", ".", "./", "..",
    "../a", "a/..", "/a", "/a/", "/a/b", "/a/b/", "/a/b/.", "/a/./", "/./a", "/..", "/a/..",
    ".hidden", "/home/user/.bashrc", "/home/user/file.tar.gz", "/x/y.", "/x/.y.z", "a.b/c",
    "/home/user/documents", "/tmp/yfiles", "./.", "././a", "a/.", "name.JPG", "/p/q/r.png",
];

fn std_components(s: &str) -> Vec<String> {
    Path::new(s)
        .components()
        .map(|c| match c {
            StdComponent::RootDir => "<root>".to_string(),
            StdComponent::CurDir => "<cur>".to_string(),
            StdComponent::ParentDir => "<parent>".to_string(),
            StdComponent::Normal(n) => n.to_string_lossy().into_owned(),
            StdComponent::Prefix(_) => "<prefix>".to_string(),
        })
        .collect()
}

fn our_components(s: &str) -> Vec<String> {
    components(s)
        .into_iter()
        .map(|c| match c {
            Component::Root => "<root>".to_string(),
            Component::Cur => "<cur>".to_string(),
            Component::Parent => "<parent>".to_string(),
            Component::Normal(v) => v.into_iter().collect(),
        })
        .collect()
}

#[test]
fn components_agree_with_std() {
    for s in SAMPLES {
        assert_eq!(our_components(s), std_components(s), "components of {:?}", s);
    }
}

#[test]
fn parent_agrees_with_std() {
    for s in SAMPLES {
        let ours = parent_of(s);
        let theirs = Path::new(s).parent().map(|p| p.to_string_lossy().into_owned());
        assert_eq!(ours, theirs, "parent of {:?}", s);
    }
}

#[test]
fn file_name_and_extension_agree_with_std() {
    for s in SAMPLES {
        let p = Path::new(s);
        assert_eq!(
            file_name_of(s),
            p.file_name().map(|n| n.to_string_lossy().into_owned()),
            "file name of {:?}",
            s
        );
        assert_eq!(
            extension_of(s),
            p.extension().map(|n| n.to_string_lossy().into_owned()),
            "extension of {:?}",
            s
        );
    }
}

#[test]
fn join_and_equality_agree_with_std() {
    for a in SAMPLES {
        assert_eq!(path_is_absolute(a), Path::new(a).is_absolute());
        for b in SAMPLES {
            assert_eq!(
                join(a, b),
                Path::new(a).join(b).to_string_lossy().into_owned(),
                "{:?} joined with {:?}",
                a,
                b
            );
            assert_eq!(same_path(a, b), Path::new(a) == Path::new(b), "{:?} == {:?}", a, b);
        }
    }
}

#[test]
fn join_examples() {
    assert_eq!(join("/home/user", "docs"), "/home/user/docs");
    assert_eq!(join("/home/user/", "docs"), "/home/user/docs");
    assert_eq!(join("/home/user", "/etc"), "/etc");
    assert_eq!(join("", "a"), "a");
}
