//! Configuration values as the loader supplies them, and the assembly of
//! the default scan roots from environment values.

use vstd::prelude::*;
use vstd::string::StringExecFns;
use crate::text::{string_views, chars_of, string_of_chars};

verus! {

/// Search behaviour as the configuration loader supplies it.
pub struct SearchConfig {
    /// How many records a search returns at most.
    pub max_results: usize,
    /// The roots the scanner walks.
    pub scan_paths: Vec<String>,
    /// The extension allowlist, each entry with its leading dot.
    pub file_extensions: Vec<String>,
    /// Name tokens that exclude a candidate.
    pub exclude_patterns: Vec<String>,
    /// Whether matching beyond substring tests is wanted.
    pub enable_fuzzy_search: bool,
}

impl Default for SearchConfig {
    fn default() -> (r: Self)
        ensures
            r.max_results == 10,
            r.scan_paths@.len() == 0,
            string_views(r.file_extensions@) == seq![".exe"@, ".lnk"@, ".bat"@, ".cmd"@],
            string_views(r.exclude_patterns@) == seq!["unins"@, "setup"@, "install"@],
            r.enable_fuzzy_search,
    {
        let mut exts: Vec<String> = Vec::new();
        exts.push(String::from_str(".exe"));
        exts.push(String::from_str(".lnk"));
        exts.push(String::from_str(".bat"));
        exts.push(String::from_str(".cmd"));
        let mut excl: Vec<String> = Vec::new();
        excl.push(String::from_str("unins"));
        excl.push(String::from_str("setup"));
        excl.push(String::from_str("install"));
        proof {
            assert(string_views(exts@) =~= seq![".exe"@, ".lnk"@, ".bat"@, ".cmd"@]);
            assert(string_views(excl@) =~= seq!["unins"@, "setup"@, "install"@]);
        }
        SearchConfig {
            max_results: 10,
            scan_paths: Vec::new(),
            file_extensions: exts,
            exclude_patterns: excl,
            enable_fuzzy_search: true,
        }
    }
}

/// Keyboard bindings as the configuration loader supplies them.
pub struct HotkeyConfig {
    /// Shows or hides the whole launcher.
    pub toggle_launcher: String,
    /// Clears the typed query.
    pub clear_search: String,
    /// Launches the first result.
    pub launch_first: String,
}

impl Default for HotkeyConfig {
    fn default() -> (r: Self)
        ensures
            r.toggle_launcher@ == "Ctrl+Space"@,
            r.clear_search@ == "Escape"@,
            r.launch_first@ == "Enter"@,
    {
        HotkeyConfig {
            toggle_launcher: String::from_str("Ctrl+Space"),
            clear_search: String::from_str("Escape"),
            launch_first: String::from_str("Enter"),
        }
    }
}

/// The view of an optional string.
pub open spec fn opt_view(o: Option<String>) -> Option<Seq<char>> {
    match o {
        Option::Some(s) => Option::Some(s@),
        Option::None => Option::None,
    }
}

/// The pieces of a `;`-separated list from position `i` on, the piece under
/// construction and the finished pieces carried along; empty pieces are
/// dropped.
pub open spec fn spec_split_semi_from(
    s: Seq<char>,
    i: int,
    cur: Seq<char>,
    acc: Seq<Seq<char>>,
) -> Seq<Seq<char>>
    decreases s.len() - i,
{
    if i < 0 || i >= s.len() {
        if cur.len() > 0 {
            acc + seq![cur]
        } else {
            acc
        }
    } else if s[i] == ';' {
        spec_split_semi_from(
            s,
            i + 1,
            Seq::empty(),
            if cur.len() > 0 {
                acc + seq![cur]
            } else {
                acc
            },
        )
    } else {
        spec_split_semi_from(s, i + 1, cur.push(s[i]), acc)
    }
}

/// The non-empty pieces of a `;`-separated list, in order.
pub open spec fn spec_split_semi(s: Seq<char>) -> Seq<Seq<char>> {
    spec_split_semi_from(s, 0, Seq::empty(), Seq::empty())
}

/// Splits a search-path list on `;`, dropping empty pieces.
pub fn split_path_list(s: &str) -> (r: Vec<String>)
    ensures
        string_views(r@) == spec_split_semi(s@),
{
    let cs = chars_of(s);
    let mut acc: Vec<String> = Vec::new();
    let mut cur: Vec<char> = Vec::new();
    let mut i: usize = 0;
    proof {
        assert(string_views(acc@) =~= Seq::<Seq<char>>::empty());
        assert(cur@ =~= Seq::<char>::empty());
    }
    while i < cs.len()
        invariant
            cs@ == s@,
            i <= cs@.len(),
            spec_split_semi(s@) == spec_split_semi_from(cs@, i as int, cur@, string_views(acc@)),
        decreases cs@.len() - i,
    {
        let ghost cv0 = cur@;
        let ghost av0 = string_views(acc@);
        let c = cs[i];
        proof {
            if cs@[i as int] == ';' {
                if cv0.len() > 0 {
                    assert(spec_split_semi_from(cs@, i as int, cv0, av0) == spec_split_semi_from(
                        cs@,
                        i + 1,
                        Seq::empty(),
                        av0 + seq![cv0],
                    ));
                } else {
                    assert(cv0 =~= Seq::<char>::empty());
                    assert(spec_split_semi_from(cs@, i as int, cv0, av0) == spec_split_semi_from(
                        cs@,
                        i + 1,
                        Seq::empty(),
                        av0,
                    ));
                }
            } else {
                assert(spec_split_semi_from(cs@, i as int, cv0, av0) == spec_split_semi_from(
                    cs@,
                    i + 1,
                    cv0.push(cs@[i as int]),
                    av0,
                ));
            }
        }
        if c == ';' {
            if cur.len() > 0 {
                let ghost pre = string_views(acc@);
                let ghost cv = cur@;
                let piece = string_of_chars(&cur);
                acc.push(piece);
                proof {
                    assert forall|k: int|
                        0 <= k < acc@.len() implies string_views(acc@)[k] == (pre + seq![cv])[k] by {
                        if k < pre.len() {
                            assert(string_views(acc@)[k] == acc@[k]@);
                        }
                    }
                    assert(string_views(acc@) =~= pre + seq![cv]);
                }
                cur = Vec::new();
                proof {
                    assert(cur@ =~= Seq::<char>::empty());
                }
            }
        } else {
            cur.push(c);
        }
        i = i + 1;
    }
    if cur.len() > 0 {
        let ghost pre = string_views(acc@);
        let ghost cv = cur@;
        let piece = string_of_chars(&cur);
        acc.push(piece);
        proof {
            assert forall|k: int|
                0 <= k < acc@.len() implies string_views(acc@)[k] == (pre + seq![cv])[k] by {
                if k < pre.len() {
                    assert(string_views(acc@)[k] == acc@[k]@);
                }
            }
            assert(string_views(acc@) =~= pre + seq![cv]);
        }
    }
    acc
}

/// The scan roots a set of environment values yields, in their fixed order:
/// the two program-file directories, the per-user application directory,
/// the start-menu programs directory, the desktop, and every non-empty
/// entry of the search path.
pub open spec fn spec_default_scan_paths(
    program_files: Option<Seq<char>>,
    program_files_x86: Option<Seq<char>>,
    local_data: Option<Seq<char>>,
    data: Option<Seq<char>>,
    desktop: Option<Seq<char>>,
    path_env: Option<Seq<char>>,
) -> Seq<Seq<char>> {
    (match program_files {
        Option::Some(p) => seq![p],
        Option::None => Seq::empty(),
    }) + (match program_files_x86 {
        Option::Some(p) => seq![p],
        Option::None => Seq::empty(),
    }) + (match local_data {
        Option::Some(p) => seq![p + "\\Microsoft\\WindowsApps"@],
        Option::None => Seq::empty(),
    }) + (match data {
        Option::Some(p) => seq![p + "\\Microsoft\\Windows\\Start Menu\\Programs"@],
        Option::None => Seq::empty(),
    }) + (match desktop {
        Option::Some(p) => seq![p],
        Option::None => Seq::empty(),
    }) + (match path_env {
        Option::Some(p) => spec_split_semi(p),
        Option::None => Seq::empty(),
    })
}

/// Assembles the scan roots from already-read environment values.
pub fn assemble_scan_paths(
    program_files: Option<String>,
    program_files_x86: Option<String>,
    local_data: Option<String>,
    data: Option<String>,
    desktop: Option<String>,
    path_env: Option<String>,
) -> (r: Vec<String>)
    ensures
        string_views(r@) == spec_default_scan_paths(
            opt_view(program_files),
            opt_view(program_files_x86),
            opt_view(local_data),
            opt_view(data),
            opt_view(desktop),
            opt_view(path_env),
        ),
{
    let ghost e1 = match opt_view(program_files) {
        Option::Some(p) => seq![p],
        Option::None => Seq::empty(),
    };
    let ghost e2 = match opt_view(program_files_x86) {
        Option::Some(p) => seq![p],
        Option::None => Seq::empty(),
    };
    let ghost e3 = match opt_view(local_data) {
        Option::Some(p) => seq![p + "\\Microsoft\\WindowsApps"@],
        Option::None => Seq::empty(),
    };
    let ghost e4 = match opt_view(data) {
        Option::Some(p) => seq![p + "\\Microsoft\\Windows\\Start Menu\\Programs"@],
        Option::None => Seq::empty(),
    };
    let ghost e5 = match opt_view(desktop) {
        Option::Some(p) => seq![p],
        Option::None => Seq::empty(),
    };
    let ghost e6 = match opt_view(path_env) {
        Option::Some(p) => spec_split_semi(p),
        Option::None => Seq::empty(),
    };
    let mut r: Vec<String> = Vec::new();
    match program_files {
        Option::Some(p) => { r.push(p); },
        Option::None => {},
    }
    proof {
        assert(string_views(r@) =~= e1);
    }
    let ghost s1 = string_views(r@);
    match program_files_x86 {
        Option::Some(p) => { r.push(p); },
        Option::None => {},
    }
    proof {
        assert(string_views(r@) =~= s1 + e2);
    }
    let ghost s2 = string_views(r@);
    match local_data {
        Option::Some(p) => {
            let mut q = p;
            q.append("\\Microsoft\\WindowsApps");
            r.push(q);
        },
        Option::None => {},
    }
    proof {
        assert(string_views(r@) =~= s2 + e3);
    }
    let ghost s3 = string_views(r@);
    match data {
        Option::Some(p) => {
            let mut q = p;
            q.append("\\Microsoft\\Windows\\Start Menu\\Programs");
            r.push(q);
        },
        Option::None => {},
    }
    proof {
        assert(string_views(r@) =~= s3 + e4);
    }
    let ghost s4 = string_views(r@);
    match desktop {
        Option::Some(p) => { r.push(p); },
        Option::None => {},
    }
    proof {
        assert(string_views(r@) =~= s4 + e5);
    }
    let ghost s5 = string_views(r@);
    match path_env {
        Option::Some(p) => {
            let mut pieces = split_path_list(p.as_str());
            r.append(&mut pieces);
        },
        Option::None => {},
    }
    proof {
        assert(string_views(r@) =~= s5 + e6);
        assert(string_views(r@) =~= ((((e1 + e2) + e3) + e4) + e5) + e6);
    }
    r
}

/// Relies on `dirs::data_local_dir`: the user's local data directory, when
/// the platform reports one.  The result depends on the machine, so nothing
/// is promised of it.
#[verifier::external_body]
fn data_local_dir_string() -> Option<String> {
    dirs::data_local_dir().map(|p| p.to_string_lossy().to_string())
}

/// Relies on `dirs::data_dir`: the user's roaming data directory, when the
/// platform reports one.  The result depends on the machine, so nothing is
/// promised of it.
#[verifier::external_body]
fn data_dir_string() -> Option<String> {
    dirs::data_dir().map(|p| p.to_string_lossy().to_string())
}

/// Relies on `dirs::desktop_dir`: the user's desktop directory, when the
/// platform reports one.  The result depends on the machine, so nothing is
/// promised of it.
#[verifier::external_body]
fn desktop_dir_string() -> Option<String> {
    dirs::desktop_dir().map(|p| p.to_string_lossy().to_string())
}

/// The default scan roots: the given environment values, joined with
/// whatever the platform reports for the user's data and desktop
/// directories.  Those reports depend on the machine, so the result is
/// known only to be assembled from some such values.
pub fn get_default_scan_paths(
    program_files: Option<String>,
    program_files_x86: Option<String>,
    path_env: Option<String>,
) -> (r: Vec<String>)
    ensures
        exists|ld: Option<Seq<char>>, dd: Option<Seq<char>>, dt: Option<Seq<char>>|
            string_views(r@) == spec_default_scan_paths(
                opt_view(program_files),
                opt_view(program_files_x86),
                ld,
                dd,
                dt,
                opt_view(path_env),
            ),
{
    let ld = data_local_dir_string();
    let dd = data_dir_string();
    let dt = desktop_dir_string();
    let ghost lv = opt_view(ld);
    let ghost dv = opt_view(dd);
    let ghost tv = opt_view(dt);
    let r = assemble_scan_paths(program_files, program_files_x86, ld, dd, dt, path_env);
    proof {
        assert(string_views(r@) == spec_default_scan_paths(
            opt_view(program_files),
            opt_view(program_files_x86),
            lv,
            dv,
            tv,
            opt_view(path_env),
        ));
    }
    r
}

} // verus!
