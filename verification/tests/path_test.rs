use comment_checker::parser::languages::Language;
use comment_checker::path::path_extension;

const PATHS: [&str; 34] = [
    "main.rs",
    "src/main.rs",
    "/abs/dir/file.py",
    "a/b.rs/",
    "a/b.rs//",
    "a/b.rs/.",
    "a/./b.rs/./",
    "./c.go",
    ".",
    "./",
    "./.",
    "..",
    "a/..",
    "a/../b.ts",
    "/",
    "//",
    "/.",
    "",
    ".rs",
    ".hidden.rs",
    "dir/.rs",
    "a.",
    "a..",
    "...",
    "..x",
    "x.tar.gz",
    "dir.d/file",
    "dir.d/",
    "a/b/c.d/e.f.g",
    "no_extension",
    "trailing.dot./",
    "/.../x.rb",
    "é/ü.cpp",
    "a/.b/.c",
];

#[test]
fn extension_agrees_with_std() {
    for p in PATHS {
        let std_ext = std::path::Path::new(p).extension().and_then(|e| e.to_str());
        assert_eq!(path_extension(p), std_ext, "path {p:?}");
    }
}

#[test]
fn language_from_path_agrees_with_std() {
    for p in PATHS {
        let want = std::path::Path::new(p)
            .extension()
            .and_then(|e| e.to_str())
            .and_then(Language::from_extension);
        assert_eq!(Language::from_path(p), want, "path {p:?}");
    }
}
