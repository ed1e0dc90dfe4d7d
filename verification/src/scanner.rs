//! Per-entry scanning logic: which filesystem entries qualify as launch
//! targets, which names the denylist suppresses, and how a raw file stem
//! becomes a display name.

use vstd::prelude::*;
use vstd::string::StringExecFns;
use crate::record::AppInfo;
use crate::score::Score;
use crate::pathname::{spec_file_name, spec_name_stem, spec_path_ext, file_name_of, name_split};
use crate::text::{
    lower_of, upper_first_of, is_space, seq_contains, lowercase, upper_first, char_is_space,
    chars_of, chars_contains, string_of_chars, string_views,
};

verus! {

/// How many directory levels below a root the scanner visits.
pub const MAX_SCAN_DEPTH: usize = 3;

/// One filesystem entry met during a walk: its path, and whether it is a
/// regular file.
pub struct WalkEntry {
    pub path: String,
    pub is_file: bool,
}

/// The mathematical content of a `WalkEntry`.
pub struct WalkEntryV {
    pub path: Seq<char>,
    pub is_file: bool,
}

impl View for WalkEntry {
    type V = WalkEntryV;

    open spec fn view(&self) -> WalkEntryV {
        WalkEntryV { path: self.path@, is_file: self.is_file }
    }
}

/// The views of a sequence of walk entries.
pub open spec fn entry_views(s: Seq<WalkEntry>) -> Seq<WalkEntryV> {
    Seq::new(s.len(), |i: int| s[i]@)
}

/// Relies on `walkdir::WalkDir`: walks the tree under `root` at most
/// `max_depth` levels deep without following symbolic links, skipping
/// entries it cannot read.  What comes back depends on the disk, so nothing
/// is promised of it.
#[verifier::external_body]
pub(crate) fn walk_tree(root: &String, max_depth: usize) -> Vec<WalkEntry> {
    walkdir::WalkDir::new(root.as_str())
        .max_depth(max_depth)
        .follow_links(false)
        .into_iter()
        .filter_map(|e| e.ok())
        .map(|e| WalkEntry {
            path: e.path().to_string_lossy().to_string(),
            is_file: e.file_type().is_file(),
        })
        .collect()
}

/// A lowercased stem that contains any of these is noise from installers and
/// auxiliary binaries, not a launch target.
pub open spec fn spec_denied(stem_lower: Seq<char>) -> bool {
    ||| seq_contains(stem_lower, "unins"@)
    ||| seq_contains(stem_lower, "uninst"@)
    ||| seq_contains(stem_lower, "setup"@)
    ||| seq_contains(stem_lower, "install"@)
    ||| seq_contains(stem_lower, "update"@)
    ||| seq_contains(stem_lower, "crash"@)
    ||| seq_contains(stem_lower, "error"@)
    ||| seq_contains(stem_lower, "helper"@)
    ||| seq_contains(stem_lower, "service"@)
    ||| seq_contains(stem_lower, "daemon"@)
    ||| seq_contains(stem_lower, "background"@)
    ||| seq_contains(stem_lower, "launcher"@)
}

/// Whether the lowercased stem carries a denylist token.
fn is_denied(stem_lower: &Vec<char>) -> (r: bool)
    ensures
        r == spec_denied(stem_lower@),
{
    let p0 = chars_of("unins");
    if chars_contains(stem_lower, &p0) {
        return true;
    }
    let p1 = chars_of("uninst");
    if chars_contains(stem_lower, &p1) {
        return true;
    }
    let p2 = chars_of("setup");
    if chars_contains(stem_lower, &p2) {
        return true;
    }
    let p3 = chars_of("install");
    if chars_contains(stem_lower, &p3) {
        return true;
    }
    let p4 = chars_of("update");
    if chars_contains(stem_lower, &p4) {
        return true;
    }
    let p5 = chars_of("crash");
    if chars_contains(stem_lower, &p5) {
        return true;
    }
    let p6 = chars_of("error");
    if chars_contains(stem_lower, &p6) {
        return true;
    }
    let p7 = chars_of("helper");
    if chars_contains(stem_lower, &p7) {
        return true;
    }
    let p8 = chars_of("service");
    if chars_contains(stem_lower, &p8) {
        return true;
    }
    let p9 = chars_of("daemon");
    if chars_contains(stem_lower, &p9) {
        return true;
    }
    let p10 = chars_of("background");
    if chars_contains(stem_lower, &p10) {
        return true;
    }
    let p11 = chars_of("launcher");
    if chars_contains(stem_lower, &p11) {
        return true;
    }
    false
}

/// A character that name cleaning turns into a space.
pub open spec fn is_name_sep(c: char) -> bool {
    c == '_' || c == '-' || c == '.'
}

/// One cleaning pass from position `i` on, carrying whether a word is open
/// and what is built so far: separators count as spaces, space runs split
/// words, each word's first character is uppercased, and words are joined by
/// single spaces.
pub open spec fn spec_clean_from(s: Seq<char>, i: int, in_word: bool, acc: Seq<char>) -> Seq<char>
    decreases s.len() - i,
{
    if i < 0 || i >= s.len() {
        acc
    } else {
        let c = if is_name_sep(s[i]) {
            ' '
        } else {
            s[i]
        };
        if is_space(c) {
            spec_clean_from(s, i + 1, false, acc)
        } else if !in_word {
            let acc2 = if acc.len() > 0 {
                acc.push(' ').push(upper_first_of(c))
            } else {
                acc.push(upper_first_of(c))
            };
            spec_clean_from(s, i + 1, true, acc2)
        } else {
            spec_clean_from(s, i + 1, true, acc.push(c))
        }
    }
}

/// The display name cleaned from a raw file stem.
pub open spec fn spec_clean(s: Seq<char>) -> Seq<char> {
    spec_clean_from(s, 0, false, Seq::empty())
}

/// Cleans a raw file stem into a display name: separators become spaces,
/// words are title-cased and joined by single spaces.
pub fn clean_app_name(raw: &str) -> (r: String)
    ensures
        r@ == spec_clean(raw@),
{
    let cs = chars_of(raw);
    let mut acc: Vec<char> = Vec::new();
    let mut in_word: bool = false;
    let mut i: usize = 0;
    while i < cs.len()
        invariant
            i <= cs@.len(),
            cs@ == raw@,
            spec_clean(raw@) == spec_clean_from(cs@, i as int, in_word, acc@),
        decreases cs@.len() - i,
    {
        let c0 = cs[i];
        let c = if c0 == '_' || c0 == '-' || c0 == '.' {
            ' '
        } else {
            c0
        };
        if char_is_space(c) {
            in_word = false;
        } else if !in_word {
            if acc.len() > 0 {
                acc.push(' ');
            }
            acc.push(upper_first(c));
            in_word = true;
        } else {
            acc.push(c);
        }
        i = i + 1;
    }
    string_of_chars(&acc)
}

/// Always absent: no file metadata source is consulted for a description.
pub fn get_file_description(path: &String) -> (r: Option<String>)
    ensures
        r is None,
{
    Option::None
}

/// The record a path yields, or nothing when the path has no file name or
/// its stem carries a denylist token.
pub open spec fn spec_create(p: Seq<char>) -> Option<crate::record::AppInfoV> {
    let f = spec_file_name(p);
    if f.len() == 0 {
        Option::None
    } else {
        let stem = spec_name_stem(f);
        if spec_denied(lower_of(stem)) {
            Option::None
        } else {
            Option::Some(
                crate::record::AppInfoV {
                    name: spec_clean(stem),
                    path: p,
                    icon_path: Option::None,
                    description: Option::None,
                    score: Score::zero(),
                },
            )
        }
    }
}

/// Builds the record for a qualifying path, unless its stem carries a
/// denylist token.
pub fn create_app_info(path: &String) -> (r: Option<AppInfo>)
    ensures
        match r {
            Option::Some(a) => spec_create(path@) == Option::Some(a@),
            Option::None => spec_create(path@) is None,
        },
{
    let pc = chars_of(path.as_str());
    let f = file_name_of(&pc);
    if f.len() == 0 {
        return Option::None;
    }
    let se = name_split(&f);
    let stem = se.0;
    let stem_str = string_of_chars(&stem);
    let stem_low = lowercase(stem_str.as_str());
    let sl = chars_of(stem_low.as_str());
    if is_denied(&sl) {
        return Option::None;
    }
    let name = clean_app_name(stem_str.as_str());
    let a = AppInfo {
        name,
        path: path.clone(),
        icon_path: Option::None,
        description: get_file_description(path),
        score: Score { base: 0, name_bytes: 0 },
    };
    Option::Some(a)
}

/// The configured extension list admits this extension: some configured
/// entry is a dot followed by the extension's lowercase form.
pub open spec fn ext_allowed(ext: Seq<char>, exts: Seq<Seq<char>>) -> bool {
    exists|k: int| 0 <= k < exts.len() && exts[k] == seq!['.'] + lower_of(ext)
}

/// A walk entry qualifies when it is a regular file whose extension the
/// configured list admits.
pub open spec fn spec_qualifies(e: WalkEntryV, exts: Seq<Seq<char>>) -> bool {
    e.is_file && match spec_path_ext(e.path) {
        Option::Some(x) => ext_allowed(x, exts),
        Option::None => false,
    }
}

/// Whether a walk entry qualifies as a launch target candidate.
pub(crate) fn entry_qualifies(e: &WalkEntry, exts: &Vec<String>) -> (r: bool)
    ensures
        r == spec_qualifies(e@, string_views(exts@)),
{
    if !e.is_file {
        return false;
    }
    let se = crate::pathname::path_split(e.path.as_str());
    match se.1 {
        Option::None => false,
        Option::Some(ext) => {
            let ext_str = string_of_chars(&ext);
            let low = lowercase(ext_str.as_str());
            let mut dotted = String::from_str(".");
            dotted.append(low.as_str());
            proof {
                reveal_strlit(".");
                assert(dotted@ =~= seq!['.'] + lower_of(ext@));
            }
            let mut k: usize = 0;
            while k < exts.len()
                invariant
                    k <= exts@.len(),
                    e@.is_file,
                    dotted@ == seq!['.'] + lower_of(ext@),
                    spec_path_ext(e@.path) == Option::Some(ext@),
                    forall|j: int| 0 <= j < k ==> exts@[j]@ != dotted@,
                decreases exts@.len() - k,
            {
                if exts[k] == dotted {
                    proof {
                        assert(string_views(exts@)[k as int] == seq!['.'] + lower_of(ext@));
                    }
                    return true;
                }
                k = k + 1;
            }
            false
        },
    }
}

} // verus!
