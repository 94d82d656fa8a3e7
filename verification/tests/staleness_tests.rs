use java_lsp::compiler::{
    determine_classpath, determine_project_kind, find_files_to_compile, should_build_file,
    strip_extension, Compiler, FileStamp, ProjectKind,
};
use java_lsp::configuration::{data_directory, gradle_init_script_path};

fn stamp(path: &str, modified: Option<u64>) -> FileStamp {
    FileStamp { path: String::from(path), modified }
}

#[test]
fn artifact_newer_is_fresh() {
    let classes = vec![stamp("src/Foo.class", Some(20))];
    let source = stamp("src/Foo.java", Some(10));
    assert!(!should_build_file(&classes, &source));
}

#[test]
fn artifact_older_is_stale() {
    let classes = vec![stamp("src/Foo.class", Some(5))];
    let source = stamp("src/Foo.java", Some(10));
    assert!(should_build_file(&classes, &source));
}

#[test]
fn artifact_same_age_is_fresh() {
    let classes = vec![stamp("src/Foo.class", Some(10))];
    let source = stamp("src/Foo.java", Some(10));
    assert!(!should_build_file(&classes, &source));
}

#[test]
fn missing_artifact_is_stale() {
    let classes = vec![stamp("src/Bar.class", Some(99))];
    let source = stamp("src/Foo.java", Some(10));
    assert!(should_build_file(&classes, &source));
}

#[test]
fn unknown_timestamp_is_stale() {
    let classes = vec![stamp("src/Foo.class", None)];
    let source = stamp("src/Foo.java", Some(10));
    assert!(should_build_file(&classes, &source));
    let classes2 = vec![stamp("src/Foo.class", Some(20))];
    let source2 = stamp("src/Foo.java", None);
    assert!(should_build_file(&classes2, &source2));
}

#[test]
fn selection_excludes_fresh_sources() {
    let classes = vec![stamp("a/Fresh.class", Some(20)), stamp("a/Stale.class", Some(1))];
    let sources = vec![
        stamp("a/Fresh.java", Some(10)),
        stamp("a/Stale.java", Some(10)),
        stamp("a/New.java", Some(10)),
    ];
    let picked = find_files_to_compile(&classes, &sources, false);
    assert_eq!(picked, vec![String::from("a/Stale.java"), String::from("a/New.java")]);
}

#[test]
fn force_all_includes_everything() {
    let classes = vec![stamp("a/Fresh.class", Some(20))];
    let sources = vec![stamp("a/Fresh.java", Some(10)), stamp("a/New.java", Some(10))];
    let picked = find_files_to_compile(&classes, &sources, true);
    assert_eq!(picked, vec![String::from("a/Fresh.java"), String::from("a/New.java")]);
}

#[test]
fn strip_extension_cases() {
    let run = |p: &str| -> String {
        strip_extension(&p.chars().collect::<Vec<char>>()).into_iter().collect()
    };
    assert_eq!(run("src/Foo.java"), "src/Foo");
    assert_eq!(run("target/classes/Foo.class"), "target/classes/Foo");
    assert_eq!(run("noext"), "noext");
    assert_eq!(run(".hidden"), ".hidden");
    assert_eq!(run("a.b/c"), "a.b/c");
    assert_eq!(run("a.b/c.d"), "a.b/c");
}

#[test]
fn project_kind_detection() {
    assert_eq!(determine_project_kind(true, true), ProjectKind::Maven);
    assert_eq!(determine_project_kind(true, false), ProjectKind::Maven);
    assert_eq!(determine_project_kind(false, true), ProjectKind::Gradle);
    assert_eq!(determine_project_kind(false, false), ProjectKind::Javac);
}

#[test]
fn classpath_selection() {
    assert_eq!(determine_classpath(&ProjectKind::Javac, "ignored"), "");
    assert_eq!(determine_classpath(&ProjectKind::Maven, "a:b"), "a:b");
    assert_eq!(determine_classpath(&ProjectKind::Gradle, "x"), "x");
}

#[test]
fn target_directory_by_kind() {
    let maven = Compiler::new(ProjectKind::Maven, String::new());
    let gradle = Compiler::new(ProjectKind::Gradle, String::new());
    let javac = Compiler::new(ProjectKind::Javac, String::new());
    assert_eq!(maven.class_file_target_directory(), "target/classes");
    assert_eq!(gradle.class_file_target_directory(), "build/classes");
    assert_eq!(javac.class_file_target_directory(), "target/classes");
}

#[test]
fn compile_args_shape() {
    let c = Compiler::new(ProjectKind::Maven, String::from("lib.jar:cls"));
    assert_eq!(c.classpath(), "lib.jar:cls");
    let args = c.compile_args(&vec![String::from("A.java"), String::from("B.java")]);
    assert_eq!(
        args,
        vec![
            String::from("--class-path"),
            String::from("lib.jar:cls"),
            String::from("-d"),
            String::from("target/classes"),
            String::from("-Xdiags:verbose"),
            String::from("A.java"),
            String::from("B.java"),
        ]
    );
}

#[test]
fn gradle_init_script_path_cases() {
    assert_eq!(
        gradle_init_script_path("/home/u/.cache/java-lsp", true),
        Some(String::from("/home/u/.cache/java-lsp/gradle-init-script.gradle"))
    );
    assert_eq!(gradle_init_script_path("/home/u/.cache/java-lsp", false), None);
}

#[test]
fn data_directory_cases() {
    assert_eq!(data_directory("/home/u", true), "/home/u/.cache/java-lsp");
    assert_eq!(data_directory("/home/u", false), "/tmp/java-lsp");
}
