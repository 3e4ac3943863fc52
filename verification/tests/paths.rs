use capn::path::{
    components_of, extension_of, file_name_of, is_path_before, is_path_under, join_path, parent_of,
    parent_or_self_of, change_extension, strip_path,
};
use std::path::{Component, Path};

const PATHS: [&str; 38] = [
    "..abc/", "x.ab/", "a.b.c//", "..a/b",
    "", "/", ".", "..", "a", "/a", "./a", "../a", "a/", "a//", "a/b", "a//b", "a/./b", "a/../b",
    "/a/b/c.rs", "/a/b/c.tar.gz", ".gitignore", "/x/.config", "a.", "a..b", "..a", "...", "./.",
    "././", "/.", "//", "/..", "a/b/.", "a/b/./", "é/ü.md", "a b/c d", "/w/Cargo.toml", "./", "b",
];

fn text(path: &Path) -> String {
    path.to_str().unwrap().to_string()
}

#[test]
fn paths_agree_with_std() {
    for p in PATHS {
        let path = Path::new(p);
        assert_eq!(parent_of(p), path.parent().map(text), "parent of {:?}", p);
        assert_eq!(
            parent_or_self_of(p),
            text(path.parent().unwrap_or(path)),
            "parent or self of {:?}",
            p
        );
        assert_eq!(
            file_name_of(p),
            path.file_name().map(|n| n.to_str().unwrap().to_string()),
            "file name of {:?}",
            p
        );
        assert_eq!(
            extension_of(p),
            path.extension().map(|n| n.to_str().unwrap().to_string()),
            "extension of {:?}",
            p
        );
        assert_eq!(
            change_extension(p, "md.in"),
            text(&path.with_extension("md.in")),
            "extension set on {:?}",
            p
        );
        assert_eq!(change_extension(p, ""), text(&path.with_extension("")));
        let components: Vec<String> = path
            .components()
            .map(|c| c.as_os_str().to_str().unwrap().to_string())
            .collect();
        assert_eq!(components_of(p), components, "components of {:?}", p);
        assert_eq!(
            components_of(p).first().map(|c| c == "/").unwrap_or(false),
            path.components().next() == Some(Component::RootDir)
        );
    }
}

#[test]
fn pairs_of_paths_agree_with_std() {
    for a in PATHS {
        for b in PATHS {
            let (x, y) = (Path::new(a), Path::new(b));
            assert_eq!(join_path(a, b), text(&x.join(y)), "{:?} joined with {:?}", a, b);
            assert_eq!(is_path_under(a, b), x.starts_with(y), "{:?} under {:?}", a, b);
            assert_eq!(
                strip_path(a, b),
                x.strip_prefix(y).ok().map(text),
                "{:?} without {:?}",
                a,
                b
            );
            assert_eq!(
                is_path_before(a, b),
                x < y,
                "{:?} before {:?}",
                a,
                b
            );
        }
    }
}
