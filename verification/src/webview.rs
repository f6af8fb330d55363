//! The script that is handed to the page before it loads: a header that
//! names the platform, then the scripts of the desktop interface.

use vstd::prelude::*;
use vstd::string::*;
use crate::json::same_text;

verus! {

/// The name of a platform as the page expects it.
pub open spec fn platform_name(os: Seq<char>) -> Seq<char> {
    if os == "windows"@ {
        "win32"@
    } else if os == "macos"@ {
        "darwin"@
    } else {
        "linux"@
    }
}

/// The name of an architecture as the page expects it.
pub open spec fn arch_name(arch: Seq<char>) -> Seq<char> {
    if arch == "aarch64"@ {
        "arm64"@
    } else if arch == "x86"@ {
        "ia32"@
    } else {
        "x64"@
    }
}

/// The header of the script for a platform and an architecture.
pub open spec fn header(platform: Seq<char>, arch: Seq<char>) -> Seq<char> {
    "// Desktop API - Injected before page load\nwindow.isElectron = true;\nwindow.__TAURI_PLATFORM__ = '"@
        + platform + "';\nwindow.__TAURI_ARCH__ = '"@ + arch + "';\n"@
}

/// `head`, then each of `parts` after an empty line.
pub open spec fn joined(head: Seq<char>, parts: Seq<Seq<char>>) -> Seq<char>
    decreases parts.len(),
{
    if parts.len() == 0 {
        head
    } else {
        joined(head, parts.drop_last()) + "\n\n"@ + parts.last()
    }
}

/// The platform's name for the page, given the name of the operating system
/// that the program was built for: `win32` for `windows`, `darwin` for
/// `macos`, `linux` for any other.
pub fn get_platform(os: &str) -> (name: &'static str)
    ensures
        name@ == platform_name(os@),
{
    if same_text(os, "windows") {
        "win32"
    } else if same_text(os, "macos") {
        "darwin"
    } else {
        "linux"
    }
}

/// The architecture's name for the page, given the name of the architecture
/// that the program was built for: `arm64` for `aarch64`, `ia32` for `x86`,
/// `x64` for any other.
pub fn get_arch(arch: &str) -> (name: &'static str)
    ensures
        name@ == arch_name(arch@),
{
    if same_text(arch, "aarch64") {
        "arm64"
    } else if same_text(arch, "x86") {
        "ia32"
    } else {
        "x64"
    }
}

/// The whole script: the header for the platform, then the scripts in
/// their order, each after an empty line.
pub fn build_init_script(os: &str, arch: &str, scripts: &Vec<String>) -> (script: String)
    ensures
        script@ == joined(header(platform_name(os@), arch_name(arch@)), scripts.deep_view()),
{
    let mut script = String::from_str(
        "// Desktop API - Injected before page load\nwindow.isElectron = true;\nwindow.__TAURI_PLATFORM__ = '",
    );
    script.append(get_platform(os));
    script.append("';\nwindow.__TAURI_ARCH__ = '");
    script.append(get_arch(arch));
    script.append("';\n");
    let ghost head = script@;
    let ghost parts = scripts.deep_view();
    let mut i: usize = 0;
    assert(parts.subrange(0, 0) =~= Seq::<Seq<char>>::empty());
    while i < scripts.len()
        invariant
            i <= scripts@.len(),
            parts == scripts.deep_view(),
            script@ == joined(head, parts.subrange(0, i as int)),
        decreases scripts@.len() - i,
    {
        proof {
            let upto = parts.subrange(0, i + 1);
            assert(upto.drop_last() =~= parts.subrange(0, i as int));
            assert(upto.last() == scripts@[i as int]@);
        }
        script.append("\n\n");
        script.append(scripts[i].as_str());
        i += 1;
    }
    assert(parts.subrange(0, scripts@.len() as int) =~= parts);
    script
}

} // verus!
