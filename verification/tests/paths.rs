use audioserve::paths;
use std::path::Path;

const SAMPLES: &[&str] = &[
    "", "/", "//", ".", "./", "..", "../", "a", "a/", "/a", "//a", "/a/", "a/b", "a//b", "a/./b", "./a", "./a/b",
    "a/b/", "a/b/.", "a/b/..", "a/../b", ".a", "a/.b", "/./a", "/.", "./.", "././a", "a/././", "usak/kulisak",
    "usak", "kulisak/", "a/b/c", "/a/b/c", "a/bc", "ab", "B/a", "\u{e1}/\u{10d}", "...", "a/...", ".//a", "/../a",
];

fn parts(p: &str) -> Vec<String> {
    Path::new(p)
        .components()
        .map(|c| c.as_os_str().to_str().unwrap().to_string())
        .collect()
}

#[test]
fn paths_agree_with_the_platform() {
    for p in SAMPLES {
        let here: Vec<String> = paths::parts_of(p).iter().map(|s| s.to_string()).collect();
        assert_eq!(here, parts(p), "components of {:?}", p);
        assert_eq!(
            paths::parent(p),
            Path::new(p).parent().map(|q| q.to_str().unwrap()),
            "parent of {:?}",
            p
        );
        assert_eq!(
            paths::file_name(p),
            Path::new(p).file_name().map(|q| q.to_str().unwrap()),
            "name of {:?}",
            p
        );
        assert_eq!(paths::is_absolute(p), Path::new(p).is_absolute());
        for q in SAMPLES {
            let (a, b) = (Path::new(p), Path::new(q));
            assert_eq!(paths::starts_with(p, q), a.starts_with(b), "{:?} under {:?}", p, q);
            assert_eq!(
                paths::strip_prefix(p, q),
                a.strip_prefix(b).ok().map(|r| r.to_str().unwrap()),
                "{:?} after {:?}",
                p,
                q
            );
            assert_eq!(paths::join(p, q), a.join(b).to_str().unwrap(), "{:?} join {:?}", p, q);
            assert_eq!(paths::same_path(p, q), a == b, "{:?} same {:?}", p, q);
            assert_eq!(paths::is_path_before(p, q), a < b, "{:?} before {:?}", p, q);
        }
    }
}
