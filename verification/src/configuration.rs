//! Configuration paths the session derives for its external build-tool
//! collaborators.
//!
//! Locating the data directory and checking the disk are the caller's
//! work; the path arithmetic is verified here.

use vstd::prelude::*;

verus! {

/// The path of the Gradle init script inside the data directory, when
/// the caller found the script present on disk, and none otherwise.
pub fn gradle_init_script_path(data_directory: &str, script_present: bool) -> (r: Option<String>)
    ensures
        script_present ==> (r matches Some(p) && p@ == data_directory@ + "/"@
            + "gradle-init-script.gradle"@),
        !script_present ==> r is None,
{
    if script_present {
        let mut p = data_directory.to_owned();
        p.append("/");
        p.append("gradle-init-script.gradle");
        Some(p)
    } else {
        None
    }
}

/// The directory the session's collaborator artifacts live in: the
/// java-lsp directory under the user's cache when the caller found
/// `<home>/.cache` present on disk, and a fallback under /tmp otherwise.
pub fn data_directory(home: &str, cache_present: bool) -> (r: String)
    ensures
        cache_present ==> r@ == home@ + "/.cache/java-lsp"@,
        !cache_present ==> r@ == "/tmp/java-lsp"@,
{
    if cache_present {
        let mut p = home.to_owned();
        p.append("/.cache/java-lsp");
        p
    } else {
        "/tmp/java-lsp".to_owned()
    }
}

} // verus!
