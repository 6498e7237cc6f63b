use vstd::prelude::*;
use crate::seqs::{first_index, last_index, find_first_str, find_last_char, str_eq,
    lemma_first_index_bounds, lemma_last_index_bounds};

verus! {

/// Number of extension tokens that count as text.
pub const TEXT_EXTENSION_COUNT: usize = 23;

/// What `str::to_lowercase` makes of a string.
pub uninterp spec fn lower_of(s: Seq<char>) -> Seq<char>;

/// Relies on `str::to_lowercase`: the lower-case form depends on the characters alone.
#[verifier::external_body]
fn lowercase(s: &str) -> (r: String)
    ensures
        r@ == lower_of(s@),
{
    s.to_lowercase()
}

/// The tokens of text formats, in slot order.
pub open spec fn text_extensions() -> Seq<Seq<char>> {
    seq![
        ".txt"@,
        ".md"@,
        ".rs"@,
        ".py"@,
        ".js"@,
        ".ts"@,
        ".jsx"@,
        ".tsx"@,
        ".html"@,
        ".css"@,
        ".scss"@,
        ".json"@,
        ".yaml"@,
        ".yml"@,
        ".toml"@,
        ".c"@,
        ".cpp"@,
        ".h"@,
        ".hpp"@,
        ".java"@,
        ".go"@,
        ".rb"@,
        ".php"@
    ]
}

/// The last segment of a slash-separated path.
pub open spec fn file_name(p: Seq<char>) -> Seq<char> {
    p.subrange(last_index(p, '/') + 1, p.len() as int)
}

/// The part of the file name after its last dot; none for `..`, for a name
/// without a dot, and for a name whose only dot leads it.
pub open spec fn raw_extension(p: Seq<char>) -> Option<Seq<char>> {
    let name = file_name(p);
    let d = last_index(name, '.');
    if name == ".."@ || d <= 0 {
        None
    } else {
        Some(name.subrange(d + 1, name.len() as int))
    }
}

/// The normalized extension token: a dot and the lower-cased extension, or empty.
pub open spec fn ext_token(p: Seq<char>) -> Seq<char> {
    match raw_extension(p) {
        Some(e) => "."@ + lower_of(e),
        None => Seq::empty(),
    }
}

/// The slot of a token in the allowlist, if it is one.
pub open spec fn token_slot(t: Seq<char>) -> Option<nat> {
    let i = first_index(text_extensions(), t);
    if i >= 0 {
        Some(i as nat)
    } else {
        None
    }
}

/// The slot of a path's extension, if the path is eligible.
pub open spec fn path_slot(p: Seq<char>) -> Option<nat> {
    token_slot(ext_token(p))
}

pub proof fn lemma_token_slot_bound(t: Seq<char>)
    ensures
        token_slot(t) matches Some(i) ==> i < TEXT_EXTENSION_COUNT && text_extensions()[i as int] == t,
{
    lemma_first_index_bounds(text_extensions(), t);
}

/// The allowlisted tokens.
pub fn text_extension_list() -> (r: Vec<&'static str>)
    ensures
        r@.map_values(|t: &str| t@) == text_extensions(),
        r@.len() == TEXT_EXTENSION_COUNT,
{
    let r = vec![
        ".txt",
        ".md",
        ".rs",
        ".py",
        ".js",
        ".ts",
        ".jsx",
        ".tsx",
        ".html",
        ".css",
        ".scss",
        ".json",
        ".yaml",
        ".yml",
        ".toml",
        ".c",
        ".cpp",
        ".h",
        ".hpp",
        ".java",
        ".go",
        ".rb",
        ".php"
    ];
    assert(r@.map_values(|t: &str| t@) =~= text_extensions());
    r
}

/// The token for the extension at `slot`.
pub fn slot_token(slot: usize) -> (r: &'static str)
    requires
        slot < TEXT_EXTENSION_COUNT,
    ensures
        r@ == text_extensions()[slot as int],
{
    let l = text_extension_list();
    assert(l@.map_values(|t: &str| t@)[slot as int] == l@[slot as int]@);
    l[slot]
}

/// Finds the slot of an extension token in the allowlist.
pub fn find_token_slot(token: &str) -> (r: Option<usize>)
    ensures
        r matches Some(i) ==> i < TEXT_EXTENSION_COUNT,
        token_slot(token@) matches Some(k) ==> k < TEXT_EXTENSION_COUNT,
        r == (match token_slot(token@) { Some(i) => Some(i as usize), None => None::<usize> }),
{
    let l = text_extension_list();
    let r = find_first_str(&l, token);
    proof {
        lemma_token_slot_bound(token@);
    }
    r
}

/// The normalized extension token of a path.
pub fn extension_token(path: &str) -> (r: String)
    ensures
        r@ == ext_token(path@),
{
    let n = path.unicode_len();
    proof {
        lemma_last_index_bounds(path@, '/');
    }
    let start: usize = match find_last_char(path, '/') {
        Some(i) => i + 1,
        None => 0,
    };
    let name = path.substring_char(start, n);
    assert(name@ == file_name(path@));
    if str_eq(name, "..") {
        return String::new();
    }
    let m = name.unicode_len();
    proof {
        lemma_last_index_bounds(name@, '.');
    }
    match find_last_char(name, '.') {
        Some(d) => {
            if d == 0 {
                String::new()
            } else {
                let e = name.substring_char(d + 1, m);
                let low = lowercase(e);
                let mut t = String::from_str(".");
                t.append(low.as_str());
                t
            }
        },
        None => String::new(),
    }
}

/// The allowlist slot of a path's extension, or none when the path is not eligible.
pub fn text_slot(path: &str) -> (r: Option<usize>)
    ensures
        r matches Some(i) ==> i < TEXT_EXTENSION_COUNT,
        path_slot(path@) matches Some(k) ==> k < TEXT_EXTENSION_COUNT,
        r == (match path_slot(path@) { Some(i) => Some(i as usize), None => None::<usize> }),
{
    let t = extension_token(path);
    find_token_slot(t.as_str())
}

} // verus!
