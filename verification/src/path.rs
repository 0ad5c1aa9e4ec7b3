//! Paths as texts, read the same way on every platform: `/` and `\` both
//! separate components, so that a path written on one system can be
//! resolved on another.

use vstd::prelude::*;
use crate::text::texts;

verus! {

/// Whether `c` separates the components of a path.
pub open spec fn is_separator(c: char) -> bool {
    c == '/' || c == '\\'
}

/// The components read so far, and the component that is being read.
pub struct Scan {
    pub done: Seq<Seq<char>>,
    pub current: Seq<char>,
}

/// The state of reading `path` from left to right: a separator ends the
/// component that is being read, any other character adds to it. Empty
/// components are not kept.
pub open spec fn scan(path: Seq<char>) -> Scan
    decreases path.len(),
{
    if path.len() == 0 {
        Scan { done: Seq::empty(), current: Seq::empty() }
    } else {
        let before = scan(path.drop_last());
        if !is_separator(path.last()) {
            Scan { done: before.done, current: before.current.push(path.last()) }
        } else if before.current.len() > 0 {
            Scan { done: before.done.push(before.current), current: Seq::empty() }
        } else {
            Scan { done: before.done, current: Seq::empty() }
        }
    }
}

/// The components of `path`: the non-empty runs of characters between its
/// separators, in order.
pub open spec fn components(path: Seq<char>) -> Seq<Seq<char>> {
    let end = scan(path);
    if end.current.len() > 0 {
        end.done.push(end.current)
    } else {
        end.done
    }
}

/// Whether `path` starts at a root: with a separator.
pub open spec fn is_rooted(path: Seq<char>) -> bool {
    path.len() > 0 && is_separator(path[0])
}

/// Whether `path` starts with a drive: a letter and a colon.
pub open spec fn has_drive(path: Seq<char>) -> bool {
    path.len() >= 2 && path[1] == ':' && (('a' <= path[0] && path[0] <= 'z') || ('A' <= path[0]
        && path[0] <= 'Z'))
}

/// Whether `path` is absolute: it starts at a root, or with a drive that a
/// separator follows.
pub open spec fn is_absolute(path: Seq<char>) -> bool {
    is_rooted(path) || (has_drive(path) && path.len() >= 3 && is_separator(path[2]))
}

/// The separator that `path` uses: its last one, and `/` where it has none.
pub open spec fn separator_of(path: Seq<char>) -> char
    decreases path.len(),
{
    if path.len() == 0 {
        '/'
    } else if is_separator(path.last()) {
        path.last()
    } else {
        separator_of(path.drop_last())
    }
}

/// `parts` written one after the other with `separator` between them.
pub open spec fn joined(parts: Seq<Seq<char>>, separator: char) -> Seq<char>
    decreases parts.len(),
{
    if parts.len() == 0 {
        Seq::empty()
    } else if parts.len() == 1 {
        parts[0]
    } else {
        joined(parts.drop_last(), separator).push(separator) + parts.last()
    }
}

/// The path with the components `parts`, written with `separator`; it
/// starts at the root where `rooted` is set.
pub open spec fn path_text(rooted: bool, parts: Seq<Seq<char>>, separator: char) -> Seq<char> {
    if rooted {
        seq![separator] + joined(parts, separator)
    } else {
        joined(parts, separator)
    }
}

/// The path `rest` below the folder `base`, written with the separator of
/// `base`.
pub open spec fn joined_path(base: Seq<char>, rest: Seq<char>) -> Seq<char> {
    path_text(is_rooted(base), components(base) + components(rest), separator_of(base))
}

/// Whether two texts name the same path: both start at the root or neither
/// does, and they have the same components.
pub open spec fn same_path(a: Seq<char>, b: Seq<char>) -> bool {
    is_rooted(a) == is_rooted(b) && components(a) == components(b)
}

/// Whether `parts` begins with `prefix`.
pub open spec fn begins_with(parts: Seq<Seq<char>>, prefix: Seq<Seq<char>>) -> bool {
    prefix.len() <= parts.len() && parts.take(prefix.len() as int) == prefix
}

/// Whether `parts` ends with `suffix`.
pub open spec fn ends_with(parts: Seq<Seq<char>>, suffix: Seq<Seq<char>>) -> bool {
    suffix.len() <= parts.len() && parts.skip(parts.len() - suffix.len()) == suffix
}

/// Whether `run` stands in `parts` from position `i` on.
pub open spec fn run_at(parts: Seq<Seq<char>>, run: Seq<Seq<char>>, i: int) -> bool {
    0 <= i <= parts.len() - run.len() && parts.subrange(i, i + run.len()) == run
}

/// Whether `run` stands somewhere in `parts` as a whole.
pub open spec fn has_run(parts: Seq<Seq<char>>, run: Seq<Seq<char>>) -> bool {
    exists|i: int| run_at(parts, run, i)
}

/// Whether the path `path` lies in the folder `base` or is that folder.
pub open spec fn path_starts_with(path: Seq<char>, base: Seq<char>) -> bool {
    is_rooted(path) == is_rooted(base) && begins_with(components(path), components(base))
}

/// The name of the file at `path`: its last component, and the empty text
/// where it has none.
pub open spec fn file_name_of(path: Seq<char>) -> Seq<char> {
    if components(path).len() == 0 {
        Seq::empty()
    } else {
        components(path).last()
    }
}

/// Whether one of `paths` names the same path as `path`.
pub open spec fn names_path(paths: Seq<Seq<char>>, path: Seq<char>) -> bool {
    exists|i: int| 0 <= i < paths.len() && same_path(path, #[trigger] paths[i])
}

/// The position of the last `.` in `name`, or -1 where it has none.
pub open spec fn last_dot(name: Seq<char>) -> int
    decreases name.len(),
{
    if name.len() == 0 {
        -1
    } else if name.last() == '.' {
        name.len() - 1
    } else {
        last_dot(name.drop_last())
    }
}

/// The extension of a file name: what follows its last `.`, unless that is
/// the first character of the name.
pub open spec fn extension_of(name: Seq<char>) -> Option<Seq<char>> {
    if last_dot(name) <= 0 {
        None
    } else {
        Some(name.skip(last_dot(name) + 1))
    }
}

/// The extension of the file that `path` names.
pub open spec fn path_extension(path: Seq<char>) -> Option<Seq<char>> {
    if components(path).len() == 0 {
        None
    } else {
        extension_of(components(path).last())
    }
}

/// The file name `name` with its extension replaced by `extension`, which
/// is added where the name has none.
pub open spec fn with_extension(name: Seq<char>, extension: Seq<char>) -> Seq<char> {
    if last_dot(name) <= 0 {
        name.push('.') + extension
    } else {
        name.take(last_dot(name) + 1) + extension
    }
}

/// The runs of characters that a list of character vectors holds.
pub open spec fn parts_view(parts: Seq<Vec<char>>) -> Seq<Seq<char>> {
    parts.map_values(|part: Vec<char>| part@)
}

/// The characters of `text`.
pub fn to_chars(text: &str) -> (r: Vec<char>)
    ensures
        r@ == text@,
{
    let mut out: Vec<char> = Vec::new();
    for c in it: text.chars()
        invariant
            out@ == it.seq().take(it.index() as int),
    {
        out.push(c);
    }
    out
}

/// Collects characters into a `String` with `Iterator::collect`: the text of
/// the string is the run of characters.
#[verifier::external_body]
pub(crate) fn text_of(chars: &Vec<char>) -> (r: String)
    ensures
        r@ == chars@,
{
    chars.iter().collect()
}

/// Whether `c` separates the components of a path.
pub fn separates(c: char) -> (r: bool)
    ensures
        r == is_separator(c),
{
    c == '/' || c == '\\'
}

/// Whether two runs of characters are the same.
pub fn chars_equal(a: &Vec<char>, b: &Vec<char>) -> (r: bool)
    ensures
        r == (a@ == b@),
{
    if a.len() != b.len() {
        return false;
    }
    let mut i: usize = 0;
    while i < a.len()
        invariant
            i <= a.len(),
            a.len() == b.len(),
            forall|j: int| 0 <= j < i ==> a@[j] == b@[j],
        decreases a.len() - i,
    {
        if a[i] != b[i] {
            return false;
        }
        i += 1;
    }
    assert(a@ =~= b@);
    true
}

/// A copy of a run of characters.
pub fn clone_chars(chars: &Vec<char>) -> (r: Vec<char>)
    ensures
        r@ == chars@,
{
    let mut out: Vec<char> = Vec::new();
    let mut i: usize = 0;
    while i < chars.len()
        invariant
            i <= chars.len(),
            out@ == chars@.take(i as int),
        decreases chars.len() - i,
    {
        out.push(chars[i]);
        i += 1;
    }
    out
}

/// The components of `path`.
pub fn split_components(path: &Vec<char>) -> (r: Vec<Vec<char>>)
    ensures
        parts_view(r@) == components(path@),
{
    let mut done: Vec<Vec<char>> = Vec::new();
    let mut current: Vec<char> = Vec::new();
    let mut i: usize = 0;
    while i < path.len()
        invariant
            i <= path.len(),
            parts_view(done@) == scan(path@.take(i as int)).done,
            current@ == scan(path@.take(i as int)).current,
        decreases path.len() - i,
    {
        let c = path[i];
        assert(path@.take(i + 1).drop_last() =~= path@.take(i as int));
        if !separates(c) {
            current.push(c);
        } else if current.len() > 0 {
            done.push(current);
            current = Vec::new();
        }
        i += 1;
    }
    assert(path@.take(i as int) =~= path@);
    if current.len() > 0 {
        done.push(current);
    }
    done
}

/// Whether `path` starts at a root.
pub fn starts_at_root(path: &Vec<char>) -> (r: bool)
    ensures
        r == is_rooted(path@),
{
    path.len() > 0 && separates(path[0])
}

/// Whether `path` is absolute.
pub fn chars_absolute(path: &Vec<char>) -> (r: bool)
    ensures
        r == is_absolute(path@),
{
    if starts_at_root(path) {
        return true;
    }
    if path.len() < 3 {
        return false;
    }
    let letter = path[0];
    let is_letter = ('a' <= letter && letter <= 'z') || ('A' <= letter && letter <= 'Z');
    is_letter && path[1] == ':' && separates(path[2])
}

/// The separator that `path` uses.
pub fn find_separator(path: &Vec<char>) -> (r: char)
    ensures
        r == separator_of(path@),
{
    let mut i: usize = path.len();
    assert(path@.take(i as int) =~= path@);
    while i > 0
        invariant
            i <= path.len(),
            separator_of(path@) == separator_of(path@.take(i as int)),
        decreases i,
    {
        assert(path@.take(i as int).drop_last() =~= path@.take(i - 1));
        if separates(path[i - 1]) {
            return path[i - 1];
        }
        i -= 1;
    }
    '/'
}

/// The path with the components `parts`, written with `separator`.
pub fn join_parts(rooted: bool, parts: &Vec<Vec<char>>, separator: char) -> (r: Vec<char>)
    ensures
        r@ == path_text(rooted, parts_view(parts@), separator),
{
    let ghost all = parts_view(parts@);
    let mut out: Vec<char> = Vec::new();
    if rooted {
        out.push(separator);
    }
    let ghost start = out@;
    let mut i: usize = 0;
    while i < parts.len()
        invariant
            i <= parts.len(),
            all == parts_view(parts@),
            out@ == start + joined(all.take(i as int), separator),
        decreases parts.len() - i,
    {
        if i > 0 {
            out.push(separator);
        }
        let ghost middle = out@;
        let part = &parts[i];
        let mut k: usize = 0;
        while k < part.len()
            invariant
                k <= part.len(),
                out@ == middle + part@.take(k as int),
            decreases part.len() - k,
        {
            out.push(part[k]);
            k += 1;
        }
        i += 1;
        assert(all.take(i as int).drop_last() =~= all.take(i - 1));
    }
    assert(all.take(i as int) =~= all);
    out
}

/// Whether two lists hold the same runs of characters.
pub fn parts_equal(a: &Vec<Vec<char>>, b: &Vec<Vec<char>>) -> (r: bool)
    ensures
        r == (parts_view(a@) == parts_view(b@)),
{
    if a.len() != b.len() {
        return false;
    }
    let mut i: usize = 0;
    while i < a.len()
        invariant
            i <= a.len(),
            a.len() == b.len(),
            forall|j: int| 0 <= j < i ==> a@[j]@ == b@[j]@,
        decreases a.len() - i,
    {
        if !chars_equal(&a[i], &b[i]) {
            assert(parts_view(a@)[i as int] != parts_view(b@)[i as int]);
            return false;
        }
        i += 1;
    }
    assert(parts_view(a@) =~= parts_view(b@));
    true
}

/// Whether `run` stands in `parts` from position `start` on.
pub fn parts_match_at(parts: &Vec<Vec<char>>, run: &Vec<Vec<char>>, start: usize) -> (r: bool)
    ensures
        r == run_at(parts_view(parts@), parts_view(run@), start as int),
{
    if run.len() > parts.len() || start > parts.len() - run.len() {
        return false;
    }
    let ghost window = parts_view(parts@).subrange(start as int, start + run.len());
    let mut i: usize = 0;
    while i < run.len()
        invariant
            i <= run.len(),
            start + run.len() <= parts.len(),
            window == parts_view(parts@).subrange(start as int, start + run.len()),
            forall|j: int| 0 <= j < i ==> window[j] == parts_view(run@)[j],
        decreases run.len() - i,
    {
        if !chars_equal(&parts[start + i], &run[i]) {
            assert(parts_view(run@)[i as int] == run@[i as int]@);
            return false;
        }
        i += 1;
    }
    assert(window =~= parts_view(run@));
    true
}

/// Whether `run` stands somewhere in `parts` as a whole.
pub fn parts_have_run(parts: &Vec<Vec<char>>, run: &Vec<Vec<char>>) -> (r: bool)
    ensures
        r == has_run(parts_view(parts@), parts_view(run@)),
{
    if run.len() > parts.len() {
        assert forall|i: int| !run_at(parts_view(parts@), parts_view(run@), i) by {
        }
        return false;
    }
    let last = parts.len() - run.len();
    let mut i: usize = 0;
    while i < last
        invariant
            i <= last,
            last == parts.len() - run.len(),
            forall|j: int| 0 <= j < i ==> !run_at(parts_view(parts@), parts_view(run@), j),
        decreases last - i,
    {
        if parts_match_at(parts, run, i) {
            return true;
        }
        i += 1;
    }
    if parts_match_at(parts, run, last) {
        return true;
    }
    assert forall|j: int| !run_at(parts_view(parts@), parts_view(run@), j) by {
    }
    false
}

/// Whether `parts` begins with `prefix`.
pub fn parts_begin_with(parts: &Vec<Vec<char>>, prefix: &Vec<Vec<char>>) -> (r: bool)
    ensures
        r == begins_with(parts_view(parts@), parts_view(prefix@)),
{
    if prefix.len() > parts.len() {
        return false;
    }
    let r = parts_match_at(parts, prefix, 0);
    r
}

/// Whether `parts` ends with `suffix`.
pub fn parts_end_with(parts: &Vec<Vec<char>>, suffix: &Vec<Vec<char>>) -> (r: bool)
    ensures
        r == ends_with(parts_view(parts@), parts_view(suffix@)),
{
    if suffix.len() > parts.len() {
        return false;
    }
    let start = parts.len() - suffix.len();
    let r = parts_match_at(parts, suffix, start);
    r
}

/// The position of the last `.` in `name`, or `None` where it has none.
pub fn find_last_dot(name: &Vec<char>) -> (r: Option<usize>)
    ensures
        match r {
            Some(i) => i == last_dot(name@) && i < name.len() && name@[i as int] == '.',
            None => last_dot(name@) == -1,
        },
{
    let mut i: usize = name.len();
    assert(name@.take(i as int) =~= name@);
    while i > 0
        invariant
            i <= name.len(),
            last_dot(name@) == last_dot(name@.take(i as int)),
        decreases i,
    {
        assert(name@.take(i as int).drop_last() =~= name@.take(i - 1));
        if name[i - 1] == '.' {
            return Some(i - 1);
        }
        i -= 1;
    }
    None
}

/// The extension of the file name `name`.
pub fn name_extension(name: &Vec<char>) -> (r: Option<Vec<char>>)
    ensures
        match r {
            Some(extension) => extension_of(name@) == Some(extension@),
            None => extension_of(name@) is None,
        },
{
    match find_last_dot(name) {
        Some(dot) => {
            if dot == 0 {
                return None;
            }
            let mut out: Vec<char> = Vec::new();
            let mut i: usize = dot + 1;
            while i < name.len()
                invariant
                    dot + 1 <= i <= name.len(),
                    out@ == name@.subrange(dot + 1, i as int),
                decreases name.len() - i,
            {
                out.push(name[i]);
                i += 1;
            }
            Some(out)
        },
        None => None,
    }
}

/// The file name `name` with its extension replaced by `extension`.
pub fn replace_extension(name: &Vec<char>, extension: &Vec<char>) -> (r: Vec<char>)
    ensures
        r@ == with_extension(name@, extension@),
{
    let keep = match find_last_dot(name) {
        Some(dot) => if dot == 0 {
            name.len()
        } else {
            dot
        },
        None => name.len(),
    };
    let mut out: Vec<char> = Vec::new();
    let mut i: usize = 0;
    while i < keep
        invariant
            i <= keep <= name.len(),
            out@ == name@.take(i as int),
        decreases keep - i,
    {
        out.push(name[i]);
        i += 1;
    }
    out.push('.');
    let ghost stem = out@;
    let mut k: usize = 0;
    while k < extension.len()
        invariant
            k <= extension.len(),
            out@ == stem + extension@.take(k as int),
        decreases extension.len() - k,
    {
        out.push(extension[k]);
        k += 1;
    }
    out
}

/// Whether two texts name the same path.
pub fn is_same_path(a: &str, b: &str) -> (r: bool)
    ensures
        r == same_path(a@, b@),
{
    let x = to_chars(a);
    let y = to_chars(b);
    if starts_at_root(&x) != starts_at_root(&y) {
        return false;
    }
    let p = split_components(&x);
    let q = split_components(&y);
    parts_equal(&p, &q)
}

/// Whether the path `path` lies in the folder `base` or is that folder.
pub fn is_path_within(path: &str, base: &str) -> (r: bool)
    ensures
        r == path_starts_with(path@, base@),
{
    let x = to_chars(path);
    let y = to_chars(base);
    if starts_at_root(&x) != starts_at_root(&y) {
        return false;
    }
    let p = split_components(&x);
    let q = split_components(&y);
    parts_begin_with(&p, &q)
}

/// Whether the file that `path` names has the extension `extension`.
pub fn has_extension(path: &str, extension: &str) -> (r: bool)
    ensures
        r == (path_extension(path@) == Some(extension@)),
{
    let parts = split_components(&to_chars(path));
    if parts.len() == 0 {
        return false;
    }
    let wanted = to_chars(extension);
    match name_extension(&parts[parts.len() - 1]) {
        Some(found) => chars_equal(&found, &wanted),
        None => false,
    }
}

/// The name of the file that `path` names.
pub fn file_name(path: &str) -> (r: String)
    ensures
        r@ == file_name_of(path@),
{
    let parts = split_components(&to_chars(path));
    if parts.len() == 0 {
        return String::new();
    }
    text_of(&parts[parts.len() - 1])
}

/// Whether one of `paths` names the same path as `path`.
pub fn names_same_path(paths: &Vec<String>, path: &str) -> (r: bool)
    ensures
        r == names_path(texts(paths@), path@),
{
    let ghost all = texts(paths@);
    let mut i: usize = 0;
    while i < paths.len()
        invariant
            i <= paths.len(),
            all == texts(paths@),
            forall|j: int| 0 <= j < i ==> !same_path(path@, #[trigger] all[j]),
        decreases paths.len() - i,
    {
        assert(all[i as int] == paths@[i as int]@);
        if is_same_path(path, paths[i].as_str()) {
            return true;
        }
        i += 1;
    }
    false
}

/// The path `rest` below the folder `base`.
pub fn join_path(base: &str, rest: &str) -> (r: String)
    ensures
        r@ == joined_path(base@, rest@),
{
    let folder = to_chars(base);
    let mut parts = split_components(&folder);
    let mut more = split_components(&to_chars(rest));
    let ghost front = parts_view(parts@);
    let ghost back = parts_view(more@);
    parts.append(&mut more);
    assert(parts_view(parts@) =~= front + back);
    let path = join_parts(starts_at_root(&folder), &parts, find_separator(&folder));
    text_of(&path)
}

} // verus!
