//! Where the launcher looks for the backend workspace and where the Python
//! runtime lives in it. A path is held as the sequence of its components, as
//! `Path::components` gives them; joining a plain name appends it.

use vstd::prelude::*;
use crate::text::{chars_of, has_prefix, push_text, same_chars, starts_with, string_from};

verus! {

/// The operating system that the launcher runs on, as far as its rules differ.
#[derive(Clone, Copy, Debug, PartialEq, Eq, Structural)]
pub enum Platform {
    Windows,
    MacOs,
    Other,
}

/// The workspace directory inside a macOS app bundle.
pub const WORKSPACE_DIR_NAME: &'static str = "NTEPilot";

/// The files that mark a backend workspace.
pub const BACKEND_ENTRYPOINT: &'static str = "main.py";

pub const PYPROJECT_FILE: &'static str = "pyproject.toml";

pub const UV_LOCK_FILE: &'static str = "uv.lock";

/// The Python version that the runtime uses.
pub const PYTHON_VERSION: &'static str = "3.14.3";

/// A path, as the text of its components.
pub open spec fn parts(p: Seq<String>) -> Seq<Seq<char>> {
    p.map_values(|s: String| s@)
}

/// The text of each of `v`.
pub open spec fn texts(v: Seq<&str>) -> Seq<Seq<char>> {
    v.map_values(|s: &str| s@)
}

/// The same path, component by component.
pub fn same_path(a: &[String], b: &[String]) -> (r: bool)
    ensures
        r == (parts(a@) == parts(b@)),
{
    if a.len() != b.len() {
        assert(parts(a@).len() != parts(b@).len());
        return false;
    }
    let n = a.len();
    for i in 0..n
        invariant
            n == a@.len() == b@.len(),
            forall|j: int| 0 <= j < i ==> a@[j]@ == b@[j]@,
    {
        if a[i] != b[i] {
            assert(parts(a@)[i as int] != parts(b@)[i as int]);
            return false;
        }
    }
    assert(parts(a@) =~= parts(b@));
    true
}

/// `path` lies in `parent`: its first components are those of `parent`, as
/// `Path::starts_with` compares them.
pub open spec fn path_starts_with(path: Seq<Seq<char>>, parent: Seq<Seq<char>>) -> bool {
    parent.len() <= path.len() && path.take(parent.len() as int) == parent
}

/// Whether `path` lies in `parent` (both already made canonical).
pub fn path_is_inside(path: &[String], parent: &[String]) -> (r: bool)
    ensures
        r == path_starts_with(parts(path@), parts(parent@)),
{
    let k = parent.len();
    if k > path.len() {
        return false;
    }
    for i in 0..k
        invariant
            k == parent@.len() <= path@.len(),
            forall|j: int| 0 <= j < i ==> path@[j]@ == parent@[j]@,
    {
        if path[i] != parent[i] {
            assert(parts(path@).take(k as int)[i as int] != parts(parent@)[i as int]);
            return false;
        }
    }
    assert(parts(path@).take(k as int) =~= parts(parent@));
    true
}

/// `base` joined with the plain names `names`.
pub fn joined(base: &[String], names: &[&str]) -> (r: Vec<String>)
    ensures
        parts(r@) == parts(base@) + texts(names@),
{
    let mut r: Vec<String> = Vec::new();
    let n = base.len();
    for i in 0..n
        invariant
            n == base@.len(),
            r@.len() == i,
            parts(r@) == parts(base@).take(i as int),
    {
        let c = base[i].clone();
        let ghost before = r@;
        r.push(c);
        assert(r@ == before.push(c));
        assert(parts(r@) =~= parts(base@).take(i + 1)) by {
            assert(parts(r@)[i as int] == c@);
            assert(parts(base@).take(i + 1)[i as int] == base@[i as int]@);
        }
    }
    let m = names.len();
    assert(parts(base@).take(n as int) =~= parts(base@));
    for j in 0..m
        invariant
            m == names@.len(),
            n == base@.len(),
            r@.len() == n + j,
            parts(r@) == parts(base@) + texts(names@.take(j as int)),
    {
        let name: &str = names[j];
        let c: String = name.to_owned();
        let ghost before = r@;
        r.push(c);
        assert(r@ == before.push(c));
        assert(parts(r@) =~= parts(before).push(c@));
        assert(texts(names@.take(j + 1)) =~= texts(names@.take(j as int)).push(names@[j as int]@));
        assert(c@ == names@[j as int]@);
        assert(parts(r@) =~= parts(base@) + texts(names@.take(j + 1)));
    }
    assert(names@.take(m as int) =~= names@);
    r
}

/// The directories where the backend workspace may stand, in the order they
/// are tried: in a macOS app bundle (executable in `Contents/MacOS`),
/// `Contents/NTEPilot` first; then the executable's own directory.
pub open spec fn workspace_candidates_of(exe_dir: Seq<Seq<char>>, platform: Platform) -> Seq<
    Seq<Seq<char>>,
> {
    if platform == Platform::MacOs && exe_dir.len() > 0 && exe_dir.last() == "MacOS"@ {
        seq![exe_dir.drop_last().push(WORKSPACE_DIR_NAME@), exe_dir]
    } else {
        seq![exe_dir]
    }
}

fn is_macos_dir(exe_dir: &[String]) -> (r: bool)
    ensures
        r == (exe_dir@.len() > 0 && exe_dir@.last()@ == "MacOS"@),
{
    let n = exe_dir.len();
    if n == 0 {
        return false;
    }
    let last = chars_of(exe_dir[n - 1].as_str());
    let want = chars_of("MacOS");
    same_chars(last.as_slice(), want.as_slice())
}

pub fn workspace_candidates(exe_dir: &[String], platform: Platform) -> (r: Vec<Vec<String>>)
    ensures
        r@.map_values(|p: Vec<String>| parts(p@)) == workspace_candidates_of(parts(exe_dir@), platform),
{
    let mut r: Vec<Vec<String>> = Vec::new();
    let ghost e = parts(exe_dir@);
    if platform == Platform::MacOs && is_macos_dir(exe_dir) {
        let n = exe_dir.len();
        let contents = vstd::slice::slice_subrange(exe_dir, 0, n - 1);
        let inside = joined(contents, &[WORKSPACE_DIR_NAME]);
        assert(parts(inside@) =~= e.drop_last().push(WORKSPACE_DIR_NAME@));
        r.push(inside);
    }
    let own = joined(exe_dir, &[]);
    assert(parts(own@) =~= e);
    r.push(own);
    assert(r@.map_values(|p: Vec<String>| parts(p@)) =~= workspace_candidates_of(e, platform));
    r
}

/// The virtual environment of the workspace: `<workspace>/.venv`.
pub open spec fn venv_dir_of(workspace: Seq<Seq<char>>) -> Seq<Seq<char>> {
    workspace.push(".venv"@)
}

/// The directory of its executables: `Scripts` on Windows, `bin` elsewhere.
pub open spec fn venv_bin_dir_of(workspace: Seq<Seq<char>>, platform: Platform) -> Seq<Seq<char>> {
    venv_dir_of(workspace).push(
        if platform == Platform::Windows {
            "Scripts"@
        } else {
            "bin"@
        },
    )
}

pub fn venv_dir(workspace: &[String]) -> (r: Vec<String>)
    ensures
        parts(r@) == venv_dir_of(parts(workspace@)),
{
    let r = joined(workspace, &[".venv"]);
    assert(parts(r@) =~= venv_dir_of(parts(workspace@)));
    r
}

pub fn venv_bin_dir(workspace: &[String], platform: Platform) -> (r: Vec<String>)
    ensures
        parts(r@) == venv_bin_dir_of(parts(workspace@), platform),
{
    let r = if platform == Platform::Windows {
        joined(workspace, &[".venv", "Scripts"])
    } else {
        joined(workspace, &[".venv", "bin"])
    };
    assert(parts(r@) =~= venv_bin_dir_of(parts(workspace@), platform));
    r
}

/// The Python of the virtual environment: `python.exe` on Windows, `python`
/// elsewhere, in its executables' directory.
pub fn venv_python(workspace: &[String], platform: Platform) -> (r: Vec<String>)
    ensures
        parts(r@) == venv_bin_dir_of(parts(workspace@), platform).push(
            if platform == Platform::Windows {
                "python.exe"@
            } else {
                "python"@
            },
        ),
{
    let r = if platform == Platform::Windows {
        joined(workspace, &[".venv", "Scripts", "python.exe"])
    } else {
        joined(workspace, &[".venv", "bin", "python"])
    };
    assert(parts(r@) =~= venv_bin_dir_of(parts(workspace@), platform).push(
        if platform == Platform::Windows {
            "python.exe"@
        } else {
            "python"@
        },
    ));
    r
}

/// Everything of the runtime lies inside the workspace: the virtual
/// environment, its executables' directory, its Python, its uv and the managed
/// Python's install directory; so cleaning the workspace reaches them all.
pub proof fn lemma_runtime_inside_workspace(workspace: Seq<Seq<char>>, platform: Platform)
    ensures
        path_starts_with(venv_dir_of(workspace), workspace),
        path_starts_with(venv_bin_dir_of(workspace, platform), workspace),
        path_starts_with(venv_bin_dir_of(workspace, platform).push("python"@), workspace),
        path_starts_with(venv_bin_dir_of(workspace, platform).push("python.exe"@), workspace),
        path_starts_with(venv_bin_dir_of(workspace, platform).push("uv"@), workspace),
        path_starts_with(venv_bin_dir_of(workspace, platform).push("uv.exe"@), workspace),
        path_starts_with(venv_dir_of(workspace).push("python"@), workspace),
{
    let n = workspace.len() as int;
    assert(venv_dir_of(workspace).take(n) =~= workspace);
    assert(venv_bin_dir_of(workspace, platform).take(n) =~= workspace);
    assert(venv_bin_dir_of(workspace, platform).push("python"@).take(n) =~= workspace);
    assert(venv_bin_dir_of(workspace, platform).push("python.exe"@).take(n) =~= workspace);
    assert(venv_bin_dir_of(workspace, platform).push("uv"@).take(n) =~= workspace);
    assert(venv_bin_dir_of(workspace, platform).push("uv.exe"@).take(n) =~= workspace);
    assert(venv_dir_of(workspace).push("python"@).take(n) =~= workspace);
}

/// Where uv installs the managed Python: `<workspace>/.venv/python`.
pub fn venv_python_install_dir(workspace: &[String]) -> (r: Vec<String>)
    ensures
        parts(r@) == venv_dir_of(parts(workspace@)).push("python"@),
{
    let r = joined(workspace, &[".venv", "python"]);
    assert(parts(r@) =~= venv_dir_of(parts(workspace@)).push("python"@));
    r
}

/// The copy of uv in the virtual environment: `uv.exe` on Windows, `uv`
/// elsewhere, in its executables' directory.
pub fn venv_uv(workspace: &[String], platform: Platform) -> (r: Vec<String>)
    ensures
        parts(r@) == venv_bin_dir_of(parts(workspace@), platform).push(
            if platform == Platform::Windows {
                "uv.exe"@
            } else {
                "uv"@
            },
        ),
{
    let r = if platform == Platform::Windows {
        joined(workspace, &[".venv", "Scripts", "uv.exe"])
    } else {
        joined(workspace, &[".venv", "bin", "uv"])
    };
    assert(parts(r@) =~= venv_bin_dir_of(parts(workspace@), platform).push(
        if platform == Platform::Windows {
            "uv.exe"@
        } else {
            "uv"@
        },
    ));
    r
}

/// The runtime may be cleaned only when the workspace is the launcher's own
/// directory, or, on macOS, the `NTEPilot` directory beside the `MacOS`
/// directory of the app bundle that holds the launcher.
pub open spec fn cleanup_allowed(workspace: Seq<Seq<char>>, exe_dir: Seq<Seq<char>>, platform: Platform) -> bool {
    ||| workspace == exe_dir
    ||| (platform == Platform::MacOs && exe_dir.len() > 0 && exe_dir.last() == "MacOS"@ && workspace
        == exe_dir.drop_last().push(WORKSPACE_DIR_NAME@))
}

/// Whether the workspace to be cleaned belongs to this launcher (both paths
/// already made canonical; see `cleanup_allowed`).
pub fn cleanup_target_belongs_to_launcher(
    workspace: &[String],
    exe_dir: &[String],
    platform: Platform,
) -> (r: bool)
    ensures
        r == cleanup_allowed(parts(workspace@), parts(exe_dir@), platform),
{
    if same_path(workspace, exe_dir) {
        return true;
    }
    if platform != Platform::MacOs {
        return false;
    }
    if !is_macos_dir(exe_dir) {
        return false;
    }
    let n = exe_dir.len();
    let contents = vstd::slice::slice_subrange(exe_dir, 0, n - 1);
    let expected = joined(contents, &[WORKSPACE_DIR_NAME]);
    assert(parts(expected@) =~= parts(exe_dir@).drop_last().push(WORKSPACE_DIR_NAME@));
    same_path(workspace, expected.as_slice())
}

/// The entries of the virtual environment that are removed before it is made
/// again.
pub open spec fn virtualenv_layout_of(platform: Platform) -> Seq<Seq<char>> {
    if platform == Platform::Windows {
        seq!["Scripts"@, "Lib"@, "Include"@, "pyvenv.cfg"@]
    } else {
        seq!["bin"@, "lib"@, "include"@, "pyvenv.cfg"@]
    }
}

pub fn virtualenv_layout_entries(platform: Platform) -> (r: Vec<&'static str>)
    ensures
        texts(r@) == virtualenv_layout_of(platform),
{
    let mut r: Vec<&'static str> = Vec::new();
    if platform == Platform::Windows {
        r.push("Scripts");
        r.push("Lib");
        r.push("Include");
    } else {
        r.push("bin");
        r.push("lib");
        r.push("include");
    }
    r.push("pyvenv.cfg");
    assert(texts(r@) =~= virtualenv_layout_of(platform));
    r
}

/// The prefix of the directories in which uv installs the managed Python of
/// `PYTHON_VERSION`: `cpython-3.14.3-`.
pub open spec fn managed_python_prefix() -> Seq<char> {
    "cpython-"@ + PYTHON_VERSION@ + "-"@
}

/// The managed Python's directories are exactly the names `cpython-3.14.3-`
/// followed by anything (the platform and build that uv appends).
pub proof fn lemma_managed_python_dirs(name: Seq<char>)
    ensures
        starts_with(name, managed_python_prefix()) <==> exists|rest: Seq<char>|
            name == "cpython-3.14.3-"@ + rest,
        forall|rest: Seq<char>| #[trigger] starts_with("cpython-3.14.3-"@ + rest, managed_python_prefix()),
{
    reveal_strlit("cpython-");
    reveal_strlit("3.14.3");
    reveal_strlit("-");
    reveal_strlit("cpython-3.14.3-");
    assert(managed_python_prefix() =~= "cpython-3.14.3-"@);
    let p = "cpython-3.14.3-"@;
    assert forall|rest: Seq<char>| #[trigger] starts_with(p + rest, managed_python_prefix()) by {
        assert((p + rest).take(p.len() as int) =~= p);
    }
    if starts_with(name, managed_python_prefix()) {
        let rest = name.skip(p.len() as int);
        assert(name =~= p + rest);
    }
    if exists|rest: Seq<char>| name == p + rest {
        let rest = choose|rest: Seq<char>| name == p + rest;
        assert(name.take(p.len() as int) =~= p);
    }
}

/// Whether an entry of the Python install directory holds the managed Python.
pub fn is_managed_python_dir(name: &str) -> (r: bool)
    ensures
        r == starts_with(name@, managed_python_prefix()),
{
    let mut prefix = chars_of("cpython-");
    push_text(&mut prefix, PYTHON_VERSION);
    push_text(&mut prefix, "-");
    assert(prefix@ =~= managed_python_prefix());
    let cs = chars_of(name);
    has_prefix(cs.as_slice(), prefix.as_slice())
}

/// Where the Python executable stands in a managed Python directory, in the
/// order the candidates are tried.
pub open spec fn managed_python_candidates_of(dir: Seq<Seq<char>>, platform: Platform) -> Seq<Seq<Seq<char>>> {
    if platform == Platform::Windows {
        seq![dir.push("python.exe"@)]
    } else {
        seq![dir.push("bin"@).push("python3.14"@), dir.push("bin"@).push("python"@)]
    }
}

pub fn managed_python_candidates(dir: &[String], platform: Platform) -> (r: Vec<Vec<String>>)
    ensures
        r@.map_values(|p: Vec<String>| parts(p@)) == managed_python_candidates_of(parts(dir@), platform),
{
    let mut r: Vec<Vec<String>> = Vec::new();
    if platform == Platform::Windows {
        let a = joined(dir, &["python.exe"]);
        assert(parts(a@) =~= parts(dir@).push("python.exe"@));
        r.push(a);
    } else {
        let a = joined(dir, &["bin", "python3.14"]);
        let b = joined(dir, &["bin", "python"]);
        assert(parts(a@) =~= parts(dir@).push("bin"@).push("python3.14"@));
        assert(parts(b@) =~= parts(dir@).push("bin"@).push("python"@));
        r.push(a);
        r.push(b);
    }
    assert(r@.map_values(|p: Vec<String>| parts(p@)) =~= managed_python_candidates_of(parts(dir@), platform));
    r
}

/// The files that an executable named `name` may be in a directory of `PATH`:
/// the name itself, and on Windows the name with `.exe` after it.
pub open spec fn path_entry_candidates_of(dir: Seq<Seq<char>>, name: Seq<char>, platform: Platform) -> Seq<Seq<Seq<char>>> {
    if platform == Platform::Windows {
        seq![dir.push(name), dir.push(name + ".exe"@)]
    } else {
        seq![dir.push(name)]
    }
}

pub fn path_entry_candidates(dir: &[String], name: &str, platform: Platform) -> (r: Vec<Vec<String>>)
    ensures
        r@.map_values(|p: Vec<String>| parts(p@)) == path_entry_candidates_of(parts(dir@), name@, platform),
{
    let mut r: Vec<Vec<String>> = Vec::new();
    let plain = joined(dir, &[name]);
    assert(parts(plain@) =~= parts(dir@).push(name@));
    r.push(plain);
    if platform == Platform::Windows {
        let mut cs = chars_of(name);
        push_text(&mut cs, ".exe");
        let with_ext = string_from(cs.as_slice());
        let exe = joined(dir, &[with_ext.as_str()]);
        assert(parts(exe@) =~= parts(dir@).push(name@ + ".exe"@));
        r.push(exe);
    }
    assert(r@.map_values(|p: Vec<String>| parts(p@)) =~= path_entry_candidates_of(parts(dir@), name@, platform));
    r
}

/// The message given when no candidate directory holds the workspace files.
pub open spec fn workspace_missing_message(platform: Platform) -> Seq<char> {
    "Cannot find NTEPilot workspace. Expected "@ + BACKEND_ENTRYPOINT@ + ", "@ + PYPROJECT_FILE@
        + ", and "@ + UV_LOCK_FILE@ + " next to the launcher"@ + (if platform == Platform::MacOs {
        " or in NTEP Launcher.app/Contents/NTEPilot"@
    } else {
        Seq::<char>::empty()
    }) + "."@
}

pub fn workspace_not_found_message(platform: Platform) -> (r: String)
    ensures
        r@ == workspace_missing_message(platform),
{
    let mut cs: Vec<char> = Vec::new();
    push_text(&mut cs, "Cannot find NTEPilot workspace. Expected ");
    push_text(&mut cs, BACKEND_ENTRYPOINT);
    push_text(&mut cs, ", ");
    push_text(&mut cs, PYPROJECT_FILE);
    push_text(&mut cs, ", and ");
    push_text(&mut cs, UV_LOCK_FILE);
    push_text(&mut cs, " next to the launcher");
    let ghost before = cs@;
    if platform == Platform::MacOs {
        push_text(&mut cs, " or in NTEP Launcher.app/Contents/NTEPilot");
    } else {
        assert(cs@ =~= before + Seq::<char>::empty());
    }
    push_text(&mut cs, ".");
    assert(cs@ =~= workspace_missing_message(platform));
    string_from(cs.as_slice())
}

/// The mirrors from which uv downloads Python when none is configured.
pub open spec fn default_mirrors() -> Seq<Seq<char>> {
    seq![
        "https://registry.npmmirror.com/-/binary/python-build-standalone/"@,
        "https://mirror.nju.edu.cn/github-release/astral-sh/python-build-standalone/"@,
        "https://python-standalone.org/mirror/astral-sh/python-build-standalone/"@,
    ]
}

/// The first default mirror, which uv is given when `UV_PYTHON_INSTALL_MIRROR`
/// is not set.
pub fn primary_default_mirror() -> (r: &'static str)
    ensures
        r@ == default_mirrors()[0],
{
    "https://registry.npmmirror.com/-/binary/python-build-standalone/"
}

/// The mirrors to try, in order: the one that `UV_PYTHON_INSTALL_MIRROR` names
/// when it is set, else the default ones.
pub fn uv_python_install_mirrors(configured: Option<String>) -> (r: Vec<String>)
    ensures
        r@.map_values(|s: String| s@) == match configured {
            Some(m) => seq![m@],
            None => default_mirrors(),
        },
{
    let mut r: Vec<String> = Vec::new();
    match configured {
        Some(m) => {
            r.push(m);
        },
        None => {
            r.push("https://registry.npmmirror.com/-/binary/python-build-standalone/".to_owned());
            r.push(
                "https://mirror.nju.edu.cn/github-release/astral-sh/python-build-standalone/".to_owned(),
            );
            r.push(
                "https://python-standalone.org/mirror/astral-sh/python-build-standalone/".to_owned(),
            );
        },
    }
    assert(r@.map_values(|s: String| s@) =~= match configured {
        Some(m) => seq![m@],
        None => default_mirrors(),
    });
    r
}

/// How a mirror is named while Python downloads from it.
#[derive(Clone, Copy, Debug, PartialEq, Eq, Structural)]
pub enum MirrorLabel {
    Primary,
    Fallback,
}

/// The first mirror tried is the primary one; the others are fallbacks.
pub fn mirror_label(index: usize) -> (r: MirrorLabel)
    ensures
        r == (if index == 0 {
            MirrorLabel::Primary
        } else {
            MirrorLabel::Fallback
        }),
{
    if index == 0 {
        MirrorLabel::Primary
    } else {
        MirrorLabel::Fallback
    }
}

} // verus!
