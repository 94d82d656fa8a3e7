//! The compiler session: project-kind detection, the derived classpath
//! and output directory, build-staleness tracking, and the argument list
//! handed to the external compiler.
//!
//! Directory walks, timestamps and process spawning happen outside; this
//! module takes the gathered file stamps as plain values and makes every
//! decision with a verified contract.

use vstd::prelude::*;

verus! {

/// The build system a project uses, detected once from the build files
/// present in the working directory.
#[derive(Debug, Clone, Copy, PartialEq, Eq, Structural)]
pub enum ProjectKind {
    Maven,
    Gradle,
    Javac,
}

/// One diagnostic extracted from the compiler's error stream: the row as
/// emitted (1-based), the 0-based column derived from the caret line, and
/// the message text.
#[derive(Debug, PartialEq, Eq)]
pub struct CompileError {
    pub row: u32,
    pub column: u32,
    pub error_message: String,
}

/// A file discovered on disk, with its canonical path and its
/// last-modified time; callers fall back to the creation time where
/// modification time is unavailable, and pass none when neither is known.
#[derive(Debug)]
pub struct FileStamp {
    pub path: String,
    pub modified: Option<u64>,
}

/// The compiler session: the detected project kind and the classpath
/// string an external build-tool collaborator produced (empty for plain
/// javac projects).  The classpath is opaque here; it is only ever handed
/// back as a compiler flag value.
pub struct Compiler {
    pub project_kind: ProjectKind,
    pub classpath: String,
}

/// The project kind the present build files imply: Maven when a pom file
/// exists, else Gradle when any Gradle build file exists, else plain
/// javac.
pub open spec fn spec_project_kind(pom_exists: bool, gradle_build_exists: bool) -> ProjectKind {
    if pom_exists {
        ProjectKind::Maven
    } else if gradle_build_exists {
        ProjectKind::Gradle
    } else {
        ProjectKind::Javac
    }
}

/// Detects the project kind from the presence of build files in the
/// working directory, checked by the caller.
pub fn determine_project_kind(pom_exists: bool, gradle_build_exists: bool) -> (r: ProjectKind)
    ensures
        r == spec_project_kind(pom_exists, gradle_build_exists),
{
    if pom_exists {
        ProjectKind::Maven
    } else if gradle_build_exists {
        ProjectKind::Gradle
    } else {
        ProjectKind::Javac
    }
}

/// The classpath a session uses: what the build-tool collaborator
/// produced for Maven and Gradle projects, and the empty string for
/// plain javac projects.
pub open spec fn spec_classpath(kind: ProjectKind, tool_classpath: Seq<char>) -> Seq<char> {
    match kind {
        ProjectKind::Javac => Seq::empty(),
        _ => tool_classpath,
    }
}

/// Selects the session classpath from the project kind and the string
/// the matching build tool returned.
pub fn determine_classpath(kind: &ProjectKind, tool_classpath: &str) -> (r: String)
    ensures
        r@ == spec_classpath(*kind, tool_classpath@),
{
    match kind {
        ProjectKind::Javac => String::new(),
        _ => tool_classpath.to_owned(),
    }
}

/// The directory compiled class files are written to, a static function
/// of the project kind.
pub open spec fn spec_target_directory(kind: ProjectKind) -> Seq<char> {
    match kind {
        ProjectKind::Gradle => "build/classes"@,
        _ => "target/classes"@,
    }
}

/// The flags and file list the external compiler is invoked with:
/// classpath flag, output-directory flag, the verbose-diagnostics flag,
/// then the source files to compile, in order.
pub open spec fn spec_compile_args(
    kind: ProjectKind,
    classpath: Seq<char>,
    files: Seq<Seq<char>>,
) -> Seq<Seq<char>> {
    seq![
        "--class-path"@,
        classpath,
        "-d"@,
        spec_target_directory(kind),
        "-Xdiags:verbose"@,
    ] + files
}

impl Compiler {
    /// Builds a session from an already detected project kind and an
    /// already derived classpath.
    pub fn new(project_kind: ProjectKind, classpath: String) -> (r: Compiler)
        ensures
            r.project_kind == project_kind,
            r.classpath@ == classpath@,
    {
        Compiler { project_kind, classpath }
    }

    /// The session classpath.
    pub fn classpath(&self) -> (r: &str)
        ensures
            r@ == self.classpath@,
    {
        self.classpath.as_str()
    }

    /// The directory compiled class files are written to.
    pub fn class_file_target_directory(&self) -> (r: String)
        ensures
            r@ == spec_target_directory(self.project_kind),
    {
        match self.project_kind {
            ProjectKind::Gradle => "build/classes".to_owned(),
            _ => "target/classes".to_owned(),
        }
    }

    /// The full argument list for one compiler invocation over the given
    /// source files.
    pub fn compile_args(&self, files: &Vec<String>) -> (r: Vec<String>)
        ensures
            r.deep_view() == spec_compile_args(self.project_kind, self.classpath@, files.deep_view()),
    {
        let mut r: Vec<String> = Vec::new();
        r.push("--class-path".to_owned());
        r.push(self.classpath.clone());
        r.push("-d".to_owned());
        r.push(self.class_file_target_directory());
        r.push("-Xdiags:verbose".to_owned());
        let ghost head = r.deep_view();
        let mut i: usize = 0;
        while i < files.len()
            invariant
                i <= files@.len(),
                r.deep_view() =~~= head + files.deep_view().subrange(0, i as int),
                head =~~= seq![
                    "--class-path"@,
                    self.classpath@,
                    "-d"@,
                    spec_target_directory(self.project_kind),
                    "-Xdiags:verbose"@,
                ],
            decreases files@.len() - i,
        {
            let ghost r0 = r.deep_view();
            r.push(files[i].clone());
            assert(r.deep_view() =~~= r0.push(files@[i as int]@));
            assert(head + files.deep_view().subrange(0, i + 1 as int) =~~= (head
                + files.deep_view().subrange(0, i as int)).push(files@[i as int]@));
            i += 1;
        }
        assert(files.deep_view().subrange(0, files@.len() as int) =~= files.deep_view());
        r
    }
}

/// The index of the last occurrence of `c` in `s`, if any.
pub open spec fn last_index_of(s: Seq<char>, c: char) -> Option<int>
    decreases s.len(),
{
    if s.len() == 0 {
        None
    } else if s.last() == c {
        Some(s.len() - 1)
    } else {
        last_index_of(s.drop_last(), c)
    }
}

proof fn lemma_last_index_scan(s: Seq<char>, c: char, i: int)
    requires
        0 <= i < s.len(),
        s[i] == c,
        forall|k: int| i < k < s.len() ==> s[k] != c,
    ensures
        last_index_of(s, c) == Some(i),
    decreases s.len(),
{
    if i == s.len() - 1 {
    } else {
        assert(s.drop_last()[i] == c);
        lemma_last_index_scan(s.drop_last(), c, i);
    }
}

proof fn lemma_last_index_none(s: Seq<char>, c: char)
    requires
        forall|k: int| 0 <= k < s.len() ==> s[k] != c,
    ensures
        last_index_of(s, c) is None,
    decreases s.len(),
{
    if s.len() > 0 {
        lemma_last_index_none(s.drop_last(), c);
    }
}

/// A path with the extension of its final component removed: everything
/// before the last `.`, provided that dot lies strictly inside the final
/// component; otherwise the path unchanged.
pub open spec fn strip_ext(s: Seq<char>) -> Seq<char> {
    let name_start: int = match last_index_of(s, '/') {
        None => 0,
        Some(i) => i + 1,
    };
    match last_index_of(s, '.') {
        None => s,
        Some(d) => if d > name_start {
            s.subrange(0, d)
        } else {
            s
        },
    }
}

/// Finds the last occurrence of `c` in `v`.
fn rfind_char(v: &Vec<char>, c: char) -> (r: Option<usize>)
    ensures
        match last_index_of(v@, c) {
            None => r is None,
            Some(i) => r matches Some(j) && j == i,
        },
        r matches Some(j) ==> j < v@.len(),
{
    let mut i: usize = v.len();
    while i > 0
        invariant
            i <= v@.len(),
            forall|k: int| i <= k < v@.len() ==> v@[k] != c,
        decreases i,
    {
        i -= 1;
        if v[i] == c {
            proof {
                lemma_last_index_scan(v@, c, i as int);
            }
            return Some(i);
        }
    }
    proof {
        lemma_last_index_none(v@, c);
    }
    None
}

/// Removes the final component's extension from a path, as
/// [`strip_ext`] describes.
pub fn strip_extension(path: &Vec<char>) -> (r: Vec<char>)
    ensures
        r@ == strip_ext(path@),
{
    let n = path.len();
    let name_start: usize = match rfind_char(path, '/') {
        None => 0,
        Some(i) => {
            assert(i < n);
            i + 1
        },
    };
    match rfind_char(path, '.') {
        None => path.clone(),
        Some(d) => {
            if d > name_start {
                let mut r: Vec<char> = Vec::new();
                let mut i: usize = 0;
                while i < d
                    invariant
                        d <= path@.len(),
                        i <= d,
                        r@ == path@.subrange(0, i as int),
                    decreases d - i,
                {
                    r.push(path[i]);
                    assert(r@ =~= path@.subrange(0, i + 1 as int));
                    i += 1;
                }
                r
            } else {
                path.clone()
            }
        },
    }
}

/// Whether an artifact stamp corresponds to a source stamp: their
/// canonical paths agree once each extension is stripped.
pub open spec fn stamp_matches(artifact: FileStamp, source: FileStamp) -> bool {
    strip_ext(artifact.path@) == strip_ext(source.path@)
}

/// The first artifact whose stripped path equals the source's, if any.
pub open spec fn find_artifact(class_files: Seq<FileStamp>, source: FileStamp) -> Option<FileStamp>
    decreases class_files.len(),
{
    if class_files.len() == 0 {
        None
    } else if stamp_matches(class_files[0], source) {
        Some(class_files[0])
    } else {
        find_artifact(class_files.subrange(1, class_files.len() as int), source)
    }
}

/// Whether a source file must be recompiled: true when no artifact
/// matches its stripped path, when either timestamp is unknown, or when
/// the matching artifact is strictly older than the source.
pub open spec fn spec_should_build(class_files: Seq<FileStamp>, source: FileStamp) -> bool {
    match find_artifact(class_files, source) {
        None => true,
        Some(a) => match (a.modified, source.modified) {
            (Some(at), Some(st)) => at < st,
            _ => true,
        },
    }
}

/// Decides whether one source file is stale relative to the compiled
/// artifacts, exactly as [`spec_should_build`] describes.
pub fn should_build_file(class_files: &Vec<FileStamp>, java_file: &FileStamp) -> (r: bool)
    ensures
        r == spec_should_build(class_files@, *java_file),
{
    let src_stripped = strip_extension(&crate::text::str_to_chars(java_file.path.as_str()));
    let mut i: usize = 0;
    while i < class_files.len()
        invariant
            i <= class_files@.len(),
            src_stripped@ == strip_ext(java_file.path@),
            forall|k: int|
                0 <= k < i ==> !stamp_matches(#[trigger] class_files@[k], *java_file),
        decreases class_files@.len() - i,
    {
        let cls_stripped = strip_extension(
            &crate::text::str_to_chars(class_files[i].path.as_str()),
        );
        let same = crate::text::chars_equal(&cls_stripped, &src_stripped);
        if same {
            proof {
                lemma_find_artifact_scan(class_files@, *java_file, i as int);
            }
            let r = match (class_files[i].modified, java_file.modified) {
                (Some(at), Some(st)) => at < st,
                _ => true,
            };
            return r;
        }
        assert(!stamp_matches(class_files@[i as int], *java_file));
        i += 1;
    }
    proof {
        lemma_find_artifact_none(class_files@, *java_file);
    }
    true
}

/// After a scan that saw no match strictly before `i`, the first
/// matching artifact is the one at `i` when `i` matches.
proof fn lemma_find_artifact_scan(class_files: Seq<FileStamp>, source: FileStamp, i: int)
    requires
        0 <= i < class_files.len(),
        stamp_matches(class_files[i], source),
        forall|k: int| 0 <= k < i ==> !stamp_matches(#[trigger] class_files[k], source),
    ensures
        find_artifact(class_files, source) == Some(class_files[i]),
    decreases class_files.len(),
{
    if i > 0 {
        let rest = class_files.subrange(1, class_files.len() as int);
        assert(forall|k: int| 0 <= k < i - 1 ==> rest[k] == #[trigger] class_files[k + 1]);
        lemma_find_artifact_scan(rest, source, i - 1);
    }
}

proof fn lemma_find_artifact_none(class_files: Seq<FileStamp>, source: FileStamp)
    requires
        forall|k: int|
            0 <= k < class_files.len() ==> !stamp_matches(#[trigger] class_files[k], source),
    ensures
        find_artifact(class_files, source) is None,
    decreases class_files.len(),
{
    if class_files.len() > 0 {
        lemma_find_artifact_none(class_files.subrange(1, class_files.len() as int), source);
    }
}

/// The paths of the sources one compile pass hands to the compiler: all
/// discovered sources when `force_all` holds, and the stale ones
/// otherwise, in discovery order.
pub open spec fn spec_files_to_compile(
    class_files: Seq<FileStamp>,
    java_files: Seq<FileStamp>,
    force_all: bool,
) -> Seq<Seq<char>>
    decreases java_files.len(),
{
    if java_files.len() == 0 {
        Seq::empty()
    } else {
        let rest = spec_files_to_compile(
            class_files,
            java_files.subrange(1, java_files.len() as int),
            force_all,
        );
        if force_all || spec_should_build(class_files, java_files[0]) {
            seq![java_files[0].path@] + rest
        } else {
            rest
        }
    }
}

/// Selects the source files one compile pass recompiles, exactly as
/// [`spec_files_to_compile`] describes.
pub fn find_files_to_compile(
    class_files: &Vec<FileStamp>,
    java_files: &Vec<FileStamp>,
    force_all: bool,
) -> (r: Vec<String>)
    ensures
        r.deep_view() == spec_files_to_compile(class_files@, java_files@, force_all),
{
    let mut r: Vec<String> = Vec::new();
    let mut i: usize = 0;
    assert(java_files@.subrange(0, java_files@.len() as int) =~= java_files@);
    assert(r.deep_view() =~~= Seq::<Seq<char>>::empty());
    assert(Seq::<Seq<char>>::empty() + spec_files_to_compile(class_files@, java_files@, force_all)
        =~~= spec_files_to_compile(class_files@, java_files@, force_all));
    while i < java_files.len()
        invariant
            i <= java_files@.len(),
            ({
                let rest = spec_files_to_compile(
                    class_files@,
                    java_files@.subrange(i as int, java_files@.len() as int),
                    force_all,
                );
                spec_files_to_compile(class_files@, java_files@, force_all) =~~= r.deep_view()
                    + rest
            }),
        decreases java_files@.len() - i,
    {
        let ghost remaining = java_files@.subrange(i as int, java_files@.len() as int);
        assert(remaining[0] == java_files@[i as int]);
        assert(remaining.subrange(1, remaining.len() as int) =~= java_files@.subrange(
            i + 1,
            java_files@.len() as int,
        ));
        let ghost r0 = r.deep_view();
        if force_all || should_build_file(class_files, &java_files[i]) {
            r.push(java_files[i].path.clone());
            assert(r.deep_view() =~~= r0.push(java_files@[i as int].path@));
            assert(r0 + (seq![java_files@[i as int].path@] + spec_files_to_compile(
                class_files@,
                java_files@.subrange(i + 1, java_files@.len() as int),
                force_all,
            )) =~~= r.deep_view() + spec_files_to_compile(
                class_files@,
                java_files@.subrange(i + 1, java_files@.len() as int),
                force_all,
            ));
        }
        i += 1;
    }
    assert(java_files@.subrange(java_files@.len() as int, java_files@.len() as int) =~= Seq::<
        FileStamp,
    >::empty());
    assert(r.deep_view() + Seq::<Seq<char>>::empty() =~~= r.deep_view());
    r
}

/// A forced pass selects exactly the discovered sources' paths, in
/// discovery order.
pub proof fn lemma_force_all_selects_everything(
    class_files: Seq<FileStamp>,
    java_files: Seq<FileStamp>,
)
    ensures
        spec_files_to_compile(class_files, java_files, true) =~= java_files.map_values(
            |f: FileStamp| f.path@,
        ),
    decreases java_files.len(),
{
    if java_files.len() > 0 {
        let rest = java_files.subrange(1, java_files.len() as int);
        lemma_force_all_selects_everything(class_files, rest);
        assert(spec_files_to_compile(class_files, java_files, true) =~= seq![
            java_files[0].path@,
        ] + spec_files_to_compile(class_files, rest, true));
        assert(java_files.map_values(|f: FileStamp| f.path@) =~= seq![java_files[0].path@]
            + rest.map_values(|f: FileStamp| f.path@));
    }
}

/// The staleness rule itself: a source with no matching artifact, or an
/// unknown timestamp on either side, or an artifact strictly older than
/// the source must be rebuilt; a source whose matching artifact is at
/// least as new, both times known, must not.
pub proof fn lemma_staleness_decision(class_files: Seq<FileStamp>, source: FileStamp)
    ensures
        find_artifact(class_files, source) is None ==> spec_should_build(class_files, source),
        (find_artifact(class_files, source) matches Some(a) && a.modified matches Some(at)
            && source.modified matches Some(st) && at >= st) ==> !spec_should_build(
            class_files,
            source,
        ),
        (find_artifact(class_files, source) matches Some(a) && a.modified matches Some(at)
            && source.modified matches Some(st) && at < st) ==> spec_should_build(
            class_files,
            source,
        ),
{
}

/// What one compile pass selects: a forced pass selects every discovered
/// source; an ordinary pass selects exactly the stale ones, so a source
/// whose path is shared by no other discovered source is selected if and
/// only if it is stale.
pub proof fn lemma_compile_selection(
    class_files: Seq<FileStamp>,
    java_files: Seq<FileStamp>,
    i: int,
)
    requires
        0 <= i < java_files.len(),
    ensures
        spec_files_to_compile(class_files, java_files, true).contains(java_files[i].path@),
        spec_should_build(class_files, java_files[i]) ==> spec_files_to_compile(
            class_files,
            java_files,
            false,
        ).contains(java_files[i].path@),
        (!spec_should_build(class_files, java_files[i]) && (forall|j: int|
            0 <= j < java_files.len() && j != i ==> (#[trigger] java_files[j]).path@
                != java_files[i].path@)) ==> !spec_files_to_compile(
            class_files,
            java_files,
            false,
        ).contains(java_files[i].path@),
    decreases java_files.len(),
{
    let rest = java_files.subrange(1, java_files.len() as int);
    if i == 0 {
        let full_t = spec_files_to_compile(class_files, java_files, true);
        assert(full_t[0] == java_files[0].path@);
        if spec_should_build(class_files, java_files[0]) {
            let full_f = spec_files_to_compile(class_files, java_files, false);
            assert(full_f[0] == java_files[0].path@);
        } else if forall|j: int|
            0 <= j < java_files.len() && j != 0 ==> (#[trigger] java_files[j]).path@
                != java_files[0].path@ {
            assert(forall|j: int|
                0 <= j < rest.len() ==> (#[trigger] rest[j]).path@ != java_files[0].path@);
            lemma_absent_when_no_path(class_files, rest, java_files[0].path@);
        }
    } else {
        lemma_compile_selection(class_files, rest, i - 1);
        assert(rest[i - 1] == java_files[i]);
        let rest_t = spec_files_to_compile(class_files, rest, true);
        let choose_t = choose|k: int| 0 <= k < rest_t.len() && rest_t[k] == java_files[i].path@;
        let full_t = spec_files_to_compile(class_files, java_files, true);
        assert(full_t == seq![java_files[0].path@] + rest_t);
        assert(full_t[choose_t + 1] == java_files[i].path@);
        let rest_f = spec_files_to_compile(class_files, rest, false);
        let full_f = spec_files_to_compile(class_files, java_files, false);
        if spec_should_build(class_files, java_files[i]) {
            let choose_f = choose|k: int|
                0 <= k < rest_f.len() && rest_f[k] == java_files[i].path@;
            if spec_should_build(class_files, java_files[0]) {
                assert(full_f == seq![java_files[0].path@] + rest_f);
                assert(full_f[choose_f + 1] == java_files[i].path@);
            } else {
                assert(full_f == rest_f);
            }
        } else if forall|j: int|
            0 <= j < java_files.len() && j != i ==> (#[trigger] java_files[j]).path@
                != java_files[i].path@ {
            assert(forall|j: int|
                0 <= j < rest.len() && j != i - 1 ==> (#[trigger] rest[j]).path@
                    != java_files[i].path@);
            if spec_should_build(class_files, java_files[0]) {
                assert(full_f == seq![java_files[0].path@] + rest_f);
                assert(java_files[0].path@ != java_files[i].path@);
                assert(forall|k: int|
                    0 <= k < full_f.len() ==> #[trigger] full_f[k] != java_files[i].path@) by {
                    assert(forall|k: int|
                        1 <= k < full_f.len() ==> #[trigger] full_f[k] == rest_f[k - 1]);
                }
            } else {
                assert(full_f == rest_f);
            }
        }
    }
}

/// A path carried by none of the sources never appears in the selection.
proof fn lemma_absent_when_no_path(
    class_files: Seq<FileStamp>,
    java_files: Seq<FileStamp>,
    p: Seq<char>,
)
    requires
        forall|j: int|
            0 <= j < java_files.len() ==> (#[trigger] java_files[j]).path@ != p,
    ensures
        !spec_files_to_compile(class_files, java_files, false).contains(p),
    decreases java_files.len(),
{
    if java_files.len() > 0 {
        let rest = java_files.subrange(1, java_files.len() as int);
        lemma_absent_when_no_path(class_files, rest, p);
        let full = spec_files_to_compile(class_files, java_files, false);
        let rest_s = spec_files_to_compile(class_files, rest, false);
        if spec_should_build(class_files, java_files[0]) {
            assert(full == seq![java_files[0].path@] + rest_s);
            assert(forall|k: int|
                0 <= k < full.len() ==> #[trigger] full[k] != p) by {
                assert(full[0] == java_files[0].path@);
                assert(forall|k: int|
                    1 <= k < full.len() ==> #[trigger] full[k] == rest_s[k - 1]);
            }
        }
    }
}

} // verus!
