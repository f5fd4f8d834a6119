//! Path resolution: deriving naming candidates for a stored file, parsing a
//! source-control remote into an (organization, repository) context, and the
//! small name transformations used on retrieval (trailing file name, leading
//! directory, date prefix).

use vstd::prelude::*;
use crate::text::{
    concat2, ends_with_str, last_sep_in, path_join, sep, spec_last_sep_in, starts_with_str,
    str_eq, str_to_string, lemma_last_sep_in, trim_str, trimmed,
};
use crate::{spec_root, root_folder_name, VaultError};

verus! {

/// The trailing file-name segment of an item name: everything after the last
/// `'/'` or `'\\'`, which may be empty when the name ends in a separator.
pub open spec fn spec_last_segment(s: Seq<char>) -> Seq<char> {
    s.subrange(spec_last_sep_in(s, true) + 1, s.len() as int)
}

/// The local file name an item is written to: its trailing segment, or the
/// fixed fallback when that segment is empty.
pub open spec fn spec_sanitize(s: Seq<char>) -> Seq<char> {
    if spec_last_segment(s).len() == 0 {
        "env"@
    } else {
        spec_last_segment(s)
    }
}

/// The trailing file-name segment of an item name, which may be empty when
/// the name ends in a separator.
pub fn last_segment(name: &str) -> (r: String)
    ensures
        r@ == spec_last_segment(name@),
{
    let len = name.unicode_len();
    proof {
        lemma_last_sep_in(name@, true);
    }
    let seg_start: usize = match last_sep_in(name, true) {
        Some(p) => p + 1,
        None => 0,
    };
    str_to_string(name.substring_char(seg_start, len))
}

/// Derive the local file name for a retrieved item.
///
/// The name's trailing segment (after the last `'/'` or `'\\'`) is kept; a
/// name without separators is kept whole; a name whose trailing segment is
/// empty falls back to the fixed default.
pub fn sanitize_filename(name: &str) -> (r: String)
    ensures
        r@ == spec_sanitize(name@),
{
    let seg = last_segment(name);
    if seg.as_str().unicode_len() == 0 {
        str_to_string("env")
    } else {
        seg
    }
}

/// The directory prefix of an item name: everything before the last `'/'`,
/// absent when there is no `'/'` or when that prefix would be empty.
pub open spec fn spec_item_dir(s: Seq<char>) -> Option<Seq<char>> {
    let p = spec_last_sep_in(s, false);
    if p >= 1 {
        Some(s.take(p))
    } else {
        None
    }
}

/// The directory prefix of an item name, used to group related items.
pub fn item_dir(name: &str) -> (r: Option<String>)
    ensures
        r is Some <==> spec_item_dir(name@) is Some,
        r is Some ==> r->0@ == spec_item_dir(name@)->0,
{
    proof {
        lemma_last_sep_in(name@, false);
    }
    match last_sep_in(name, false) {
        Some(p) => {
            if p >= 1 {
                Some(str_to_string(name.substring_char(0, p)))
            } else {
                None
            }
        },
        None => None,
    }
}

/// The date part of a vault timestamp: its first ten characters, or the
/// whole string when it is shorter.
pub open spec fn spec_format_date(s: Seq<char>) -> Seq<char> {
    if s.len() >= 10 {
        s.take(10)
    } else {
        s
    }
}

/// Keep only the date part of a vault timestamp for display.
pub fn format_date(date_str: &str) -> (r: String)
    ensures
        r@ == spec_format_date(date_str@),
{
    let len = date_str.unicode_len();
    if len >= 10 {
        proof {
            assert(date_str@.subrange(0, 10) =~= date_str@.take(10));
        }
        str_to_string(date_str.substring_char(0, 10))
    } else {
        str_to_string(date_str)
    }
}

/// `s` with one trailing `.git` removed, as a remote repository URL writes it.
pub open spec fn spec_strip_dot_git(s: Seq<char>) -> Seq<char> {
    if ".git"@.is_suffix_of(s) {
        s.take(s.len() - 4)
    } else {
        s
    }
}

/// Split `org/repo` at its only `'/'`; any other number of separators means
/// the remote does not name an (organization, repository) pair.
pub open spec fn spec_split_org_repo(s: Seq<char>) -> Option<(Seq<char>, Seq<char>)> {
    let p = spec_last_sep_in(s, false);
    if p >= 0 && spec_last_sep_in(s.take(p), false) == -1 {
        Some((s.take(p), s.subrange(p + 1, s.len() as int)))
    } else {
        None
    }
}

/// The (organization, repository) pair named by a git remote URL, after
/// trimming surrounding whitespace: the HTTPS and SSH forms of a
/// `github.com` remote are recognized, an optional `.git` suffix is dropped,
/// and the remainder must consist of exactly two `'/'`-separated parts.
/// Every other URL yields no context.
pub open spec fn spec_parse_github_remote(url: Seq<char>) -> Option<(Seq<char>, Seq<char>)> {
    let t = trimmed(url);
    if "https://github.com/"@.is_prefix_of(t) {
        spec_split_org_repo(spec_strip_dot_git(t.skip("https://github.com/"@.len() as int)))
    } else if "git@github.com:"@.is_prefix_of(t) {
        spec_split_org_repo(spec_strip_dot_git(t.skip("git@github.com:"@.len() as int)))
    } else {
        None
    }
}

/// Parse the origin remote URL of the working directory into the
/// (organization, repository) pair that biases naming and retrieval.
pub fn parse_github_remote(url: &str) -> (r: Option<(String, String)>)
    ensures
        r is Some <==> spec_parse_github_remote(url@) is Some,
        r is Some ==> (r->0).0@ == (spec_parse_github_remote(url@)->0).0,
        r is Some ==> (r->0).1@ == (spec_parse_github_remote(url@)->0).1,
{
    proof {
        reveal_strlit("https://github.com/");
        reveal_strlit("git@github.com:");
        reveal_strlit(".git");
    }
    let t = trim_str(url);
    let tlen = t.as_str().unicode_len();
    let rest: String = if starts_with_str(t.as_str(), "https://github.com/") {
        proof {
            assert(t@.subrange(19, tlen as int) =~= t@.skip(19));
        }
        str_to_string(t.as_str().substring_char(19, tlen))
    } else if starts_with_str(t.as_str(), "git@github.com:") {
        proof {
            assert(t@.subrange(15, tlen as int) =~= t@.skip(15));
        }
        str_to_string(t.as_str().substring_char(15, tlen))
    } else {
        return None;
    };
    let rlen = rest.as_str().unicode_len();
    let stripped: String = if ends_with_str(rest.as_str(), ".git") {
        proof {
            assert(rest@.subrange(0, rlen - 4) =~= rest@.take(rlen - 4));
        }
        str_to_string(rest.as_str().substring_char(0, rlen - 4))
    } else {
        rest
    };
    let slen = stripped.as_str().unicode_len();
    proof {
        lemma_last_sep_in(stripped@, false);
    }
    match last_sep_in(stripped.as_str(), false) {
        Some(p) => {
            let before = stripped.as_str().substring_char(0, p);
            proof {
                assert(stripped@.subrange(0, p as int) =~= stripped@.take(p as int));
                lemma_last_sep_in(stripped@.take(p as int), false);
            }
            match last_sep_in(before, false) {
                Some(_) => None,
                None => {
                    let org = str_to_string(before);
                    let repo = str_to_string(stripped.as_str().substring_char(p + 1, slen));
                    Some((org, repo))
                },
            }
        },
        None => None,
    }
}

/// The ordered naming candidates for a file, highest priority first: the
/// git-derived `org/repo/file` name (present only when a context is
/// available), the working-directory-derived `dir/file` name, and the bare
/// file name.
pub open spec fn spec_candidates(
    file: Seq<char>,
    dir: Seq<char>,
    git: Option<(Seq<char>, Seq<char>)>,
) -> Seq<Seq<char>> {
    (match git {
        Some(p) => seq![p.0 + seq![sep()] + p.1 + seq![sep()] + file],
        None => Seq::empty(),
    }) + seq![dir + seq![sep()] + file, file]
}

/// Naming candidates are a pure function of the file name, the working
/// directory name and the git context: for a fixed triple, repeated
/// resolution yields the identical ordered candidate list.
pub proof fn lemma_candidates_deterministic(
    file1: Seq<char>,
    dir1: Seq<char>,
    git1: Option<(Seq<char>, Seq<char>)>,
    file2: Seq<char>,
    dir2: Seq<char>,
    git2: Option<(Seq<char>, Seq<char>)>,
)
    requires
        file1 == file2,
        dir1 == dir2,
        git1 == git2,
    ensures
        spec_candidates(file1, dir1, git1) == spec_candidates(file2, dir2, git2),
{
}

/// The ordered naming candidates for a stored file, highest priority first:
/// the git-derived `org/repo/file` name (only when a context is available),
/// the working-directory-derived `dir/file` name, and the bare file name.
/// The interactively supplied custom name is handled at selection.
pub fn build_name_candidates(
    file_name: &str,
    dir_name: &str,
    git: &Option<(String, String)>,
) -> (r: Vec<String>)
    ensures
        r@.map_values(|s: String| s@) == spec_candidates(
            file_name@,
            dir_name@,
            match git {
                Some(p) => Some((p.0@, p.1@)),
                None => None,
            },
        ),
        git is Some ==> r@.len() == 3,
        git is None ==> r@.len() == 2,
{
    let mut r: Vec<String> = Vec::new();
    match git {
        Some(pair) => {
            let org_repo = path_join(pair.0.as_str(), pair.1.as_str());
            let g = path_join(org_repo.as_str(), file_name);
            proof {
                assert(g@ == pair.0@ + seq![sep()] + pair.1@ + seq![sep()] + file_name@);
            }
            r.push(g);
        },
        None => {},
    }
    r.push(path_join(dir_name, file_name));
    r.push(str_to_string(file_name));
    proof {
        assert(r@.map_values(|s: String| s@) =~= spec_candidates(
            file_name@,
            dir_name@,
            match git {
                Some(p) => Some((p.0@, p.1@)),
                None => None,
            },
        ));
    }
    r
}

/// Select one naming candidate by its 1-based menu number.
///
/// Numbers `1` through the number of candidates pick that candidate; the
/// next number picks the interactively supplied custom name, which is
/// trimmed and must be non-empty; anything else is an input error.
pub fn select_candidate(
    candidates: &Vec<String>,
    custom: Option<&str>,
    choice: usize,
) -> (r: Result<String, VaultError>)
    ensures
        1 <= choice <= candidates@.len() ==> r is Ok && r->Ok_0@ == candidates@[choice - 1]@,
        choice == candidates@.len() + 1 ==> match custom {
            Some(c) => {
                if trimmed(c@).len() > 0 {
                    r is Ok && r->Ok_0@ == trimmed(c@)
                } else {
                    r is Err && r->Err_0 == VaultError::Path
                }
            },
            None => r is Err && r->Err_0 == VaultError::Input,
        },
        choice == 0 || choice > candidates@.len() + 1 ==> r is Err && r->Err_0
            == VaultError::Input,
{
    if choice == 0 {
        return Err(VaultError::Input);
    }
    let idx = choice - 1;
    if idx < candidates.len() {
        let s = str_to_string(candidates[idx].as_str());
        Ok(s)
    } else if idx == candidates.len() {
        match custom {
            Some(c) => {
                let t = trim_str(c);
                if t.as_str().unicode_len() > 0 {
                    Ok(t)
                } else {
                    Err(VaultError::Path)
                }
            },
            None => Err(VaultError::Input),
        }
    } else {
        Err(VaultError::Input)
    }
}

/// How a chosen candidate is stored: in folder mode the nested folder path
/// to materialize plus the item's own trailing name, in flat mode no folder
/// path and the candidate as the item name.
pub struct StoreName {
    pub folder_path: Option<String>,
    pub item_name: String,
}

/// Turn a naming candidate into the stored folder path and item name.
///
/// In folder mode the candidate is prefixed with the root-namespace token
/// and treated as a folder path whose last segment is stripped off to become
/// the item's own name; the remainder is the nested folder path. The folder
/// path always begins with the root token, and with `root/` whenever the
/// candidate itself holds a separator. In flat mode the candidate becomes
/// the item name directly and no folder path is produced.
pub fn resolve_store_name(candidate: &str, folder_mode: bool) -> (r: StoreName)
    ensures
        !folder_mode ==> r.folder_path is None && r.item_name@ == candidate@,
        folder_mode ==> {
            let full = spec_root() + seq![sep()] + candidate@;
            let p = spec_last_sep_in(full, false);
            &&& r.folder_path is Some
            &&& r.folder_path->0@ == full.take(p)
            &&& r.item_name@ == full.subrange(p + 1, full.len() as int)
            &&& spec_root().is_prefix_of(r.folder_path->0@)
            &&& spec_last_sep_in(candidate@, false) >= 0 ==> (spec_root()
                + seq![sep()]).is_prefix_of(r.folder_path->0@)
        },
{
    if !folder_mode {
        return StoreName { folder_path: None, item_name: str_to_string(candidate) };
    }
    let root = root_folder_name();
    let full = path_join(root, candidate);
    let full_len = full.as_str().unicode_len();
    let ghost rl = spec_root().len() as int;
    proof {
        assert(full@[rl] == sep());
        lemma_last_sep_in(full@, false);
    }
    let p: usize = match last_sep_in(full.as_str(), false) {
        Some(p) => p,
        None => {
            proof {
                assert(false);
            }
            0
        },
    };
    let folder = str_to_string(full.as_str().substring_char(0, p));
    let item = str_to_string(full.as_str().substring_char(p + 1, full_len));
    proof {
        assert(full@.subrange(0, p as int) =~= full@.take(p as int));
        // The separator appended after the root token pins the last
        // separator at or past it, so the root is a prefix of the folder.
        assert(p >= rl);
        assert(spec_root() =~= folder@.subrange(0, rl));
        if spec_last_sep_in(candidate@, false) >= 0 {
            let q = spec_last_sep_in(candidate@, false);
            lemma_last_sep_in(candidate@, false);
            assert(full@[rl + 1 + q] == sep());
            assert(p >= rl + 1 + q);
            assert(spec_root() + seq![sep()] =~= folder@.subrange(0, rl + 1));
        }
    }
    StoreName { folder_path: Some(folder), item_name: item }
}

/// Does the folder path consist of non-empty `'/'`-separated segments?  An
/// empty path, a leading or trailing separator, or two adjacent separators
/// all mean an empty segment.
pub open spec fn has_empty_segment(p: Seq<char>) -> bool {
    ||| p.len() == 0
    ||| p.first() == sep()
    ||| p.last() == sep()
    ||| exists|i: int| 0 < i < p.len() && #[trigger] p[i] == sep() && p[i - 1] == sep()
}

/// A folder path the hierarchy manager accepts: non-empty segments, and
/// either the root-namespace token itself or a path nested beneath it.
pub open spec fn valid_folder_path(p: Seq<char>) -> bool {
    &&& !has_empty_segment(p)
    &&& (p == spec_root() || (spec_root() + seq![sep()]).is_prefix_of(p))
}

/// Check a folder path before the hierarchy is materialized: a path with an
/// empty segment or without the root-namespace prefix is rejected.
pub fn check_folder_path(path: &str) -> (r: Result<(), VaultError>)
    ensures
        r is Ok <==> valid_folder_path(path@),
        r is Err ==> r->Err_0 == VaultError::Path,
{
    let len = path.unicode_len();
    if len == 0 {
        return Err(VaultError::Path);
    }
    if path.get_char(0) == '/' || path.get_char(len - 1) == '/' {
        return Err(VaultError::Path);
    }
    let mut i: usize = 1;
    while i < len
        invariant
            len == path@.len(),
            1 <= i <= len,
            forall|j: int| 0 < j < i ==> !(#[trigger] path@[j] == sep() && path@[j - 1]
                == sep()),
        decreases len - i,
    {
        if path.get_char(i) == '/' && path.get_char(i - 1) == '/' {
            return Err(VaultError::Path);
        }
        i += 1;
    }
    let root = root_folder_name();
    if str_eq(path, root) {
        return Ok(());
    }
    proof {
        reveal_strlit("/");
    }
    let root_slash = concat2(root, "/");
    if starts_with_str(path, root_slash.as_str()) {
        proof {
            assert(spec_root() + seq![sep()] =~= root_slash@);
        }
        Ok(())
    } else {
        proof {
            assert(spec_root() + seq![sep()] =~= root_slash@);
        }
        Err(VaultError::Path)
    }
}

} // verus!
