//! How the text of a path is read on each system: its prefix, its root and its components.
use crate::paths::Platform;
use crate::text::{ascii_lower, ascii_lower_char, cat2, chars_of, same_text, text_of_range, views};
use vstd::prelude::*;
use vstd::string::*;

verus! {

/// Which characters part the components of a path.
#[derive(Debug, Clone, Copy, PartialEq, Eq, Structural)]
pub enum Marks {
    Slash,
    Both,
    Backslash,
}

/// Whether `c` parts two components.
#[verifier::allow_in_spec]
pub fn is_mark(marks: Marks, c: char) -> bool
    returns
        (c == '/' && marks != Marks::Backslash) || (c == '\\' && marks != Marks::Slash),
{
    (c == '/' && marks != Marks::Backslash) || (c == '\\' && marks != Marks::Slash)
}

/// The characters that part components on a system.
#[verifier::allow_in_spec]
pub fn usual_marks(platform: Platform) -> Marks
    returns
        (if platform == Platform::Windows {
            Marks::Both
        } else {
            Marks::Slash
        }),
{
    if platform == Platform::Windows {
        Marks::Both
    } else {
        Marks::Slash
    }
}

/// Whether `c` is an ASCII letter.
#[verifier::allow_in_spec]
pub fn is_letter(c: char) -> bool
    returns
        ('a' <= c && c <= 'z') || ('A' <= c && c <= 'Z'),
{
    ('a' <= c && c <= 'z') || ('A' <= c && c <= 'Z')
}

/// Whether a path begins with `\\?\`, behind which Windows takes every character as it stands.
pub open spec fn is_verbatim(platform: Platform, s: Seq<char>) -> bool {
    &&& platform is Windows
    &&& s.len() >= 4
    &&& s[0] == '\\'
    &&& s[1] == '\\'
    &&& s[2] == '?'
    &&& s[3] == '\\'
}

/// The characters that part the components of a path.
pub open spec fn marks_of(platform: Platform, s: Seq<char>) -> Marks {
    if is_verbatim(platform, s) {
        Marks::Backslash
    } else {
        usual_marks(platform)
    }
}

/// How many characters stand before the first mark.
pub open spec fn part_len(marks: Marks, s: Seq<char>) -> nat
    decreases s.len(),
{
    if s.len() == 0 || is_mark(marks, s[0]) {
        0
    } else {
        1 + part_len(marks, s.drop_first())
    }
}

/// Whether a drive, a letter and a colon, stands at `from`.
pub open spec fn drive_at(s: Seq<char>, from: int) -> bool {
    &&& s.len() >= from + 2
    &&& is_letter(s[from])
    &&& s[from + 1] == ':'
}

/// How long the names of a server and of a share are, where the first begins at `from`.
pub open spec fn share_at(marks: Marks, s: Seq<char>, from: nat) -> (nat, nat) {
    let server = part_len(marks, s.skip(from as int));
    let share = if from + server < s.len() {
        part_len(marks, s.skip((from + server + 1) as int))
    } else {
        0
    };
    (server, share)
}

/// Whether a verbatim path is that of a share.
pub open spec fn is_verbatim_share(s: Seq<char>) -> bool {
    &&& s.len() >= 8
    &&& s[4] == 'U'
    &&& s[5] == 'N'
    &&& s[6] == 'C'
    &&& s[7] == '\\'
}

/// Whether a verbatim path begins with a drive.
pub open spec fn is_verbatim_drive(s: Seq<char>) -> bool {
    drive_at(s, 4) && (s.len() == 6 || is_mark(Marks::Both, s[6]))
}

/// How many characters name the drive, the share or the device of a path: only Windows has such.
pub open spec fn prefix_len(platform: Platform, s: Seq<char>) -> nat {
    if !(platform is Windows) {
        0
    } else if is_verbatim(platform, s) {
        if is_verbatim_share(s) {
            let (server, share) = share_at(Marks::Backslash, s, 8);
            8 + server + if share > 0 {
                1 + share
            } else {
                0
            }
        } else if is_verbatim_drive(s) {
            6
        } else {
            4 + part_len(Marks::Backslash, s.skip(4))
        }
    } else if s.len() >= 2 && is_mark(Marks::Both, s[0]) && is_mark(Marks::Both, s[1]) {
        if s.len() >= 4 && s[2] == '.' && is_mark(Marks::Both, s[3]) {
            4 + part_len(Marks::Both, s.skip(4))
        } else {
            let (server, share) = share_at(Marks::Both, s, 2);
            if server > 0 && share > 0 {
                3 + server + share
            } else {
                0
            }
        }
    } else if drive_at(s, 0) {
        2
    } else {
        0
    }
}

/// How many characters stand before the first component: the prefix and the separator of the root.
pub open spec fn base_len(platform: Platform, s: Seq<char>) -> nat {
    let n = prefix_len(platform, s);
    if n < s.len() && is_mark(usual_marks(platform), s[n as int]) {
        n + 1
    } else {
        n
    }
}

/// Whether a path begins at a root. That of a share or of a device need not be written.
pub open spec fn is_rooted(platform: Platform, s: Seq<char>) -> bool {
    let n = prefix_len(platform, s);
    base_len(platform, s) > n || (n > 2 && !is_verbatim(platform, s))
}

/// The prefix of a path as paths are compared by it: the case of a drive and the kind of the
/// separators do not count.
pub open spec fn prefix_form(platform: Platform, s: Seq<char>) -> Seq<char> {
    let head = s.take(prefix_len(platform, s) as int);
    Seq::new(
        head.len(),
        |i: int|
            if drive_at(s, 0) || (is_verbatim(platform, s) && is_verbatim_drive(s)) {
                ascii_lower(head[i])
            } else if head[i] == '/' && !is_verbatim(platform, s) {
                '\\'
            } else {
                head[i]
            },
    )
}

/// `s` without the marks at its end and the components `.` there; the first `base` characters stay.
pub open spec fn without_tail_from(marks: Marks, base: nat, s: Seq<char>) -> Seq<char>
    decreases s.len(),
{
    if s.len() > base && s.len() > 0 && is_mark(marks, s.last()) {
        without_tail_from(marks, base, s.drop_last())
    } else if s.len() > base && s.len() > 1 && s.last() == '.' && marks != Marks::Backslash
        && is_mark(marks, s[s.len() - 2]) {
        without_tail_from(marks, base, s.drop_last())
    } else {
        s
    }
}

/// A path without the separators at its end and the components `.` there; its root stays.
pub open spec fn without_tail(platform: Platform, s: Seq<char>) -> Seq<char> {
    without_tail_from(marks_of(platform, s), base_len(platform, s), s)
}

/// How many characters of `s` stand before its last component, which begins behind the first `base`
/// characters.
pub open spec fn name_start_from(marks: Marks, base: nat, s: Seq<char>) -> nat
    decreases s.len(),
{
    if s.len() == 0 || s.len() <= base || is_mark(marks, s.last()) {
        s.len()
    } else {
        name_start_from(marks, base, s.drop_last())
    }
}

/// How many characters of a path stand before the name of its last component.
pub open spec fn name_start(platform: Platform, s: Seq<char>) -> nat {
    name_start_from(
        marks_of(platform, s),
        base_len(platform, s),
        without_tail(platform, s),
    )
}

/// The name of the last component of a path.
pub open spec fn last_name(platform: Platform, s: Seq<char>) -> Seq<char> {
    without_tail(platform, s).skip(name_start(platform, s) as int)
}

/// The path of the folder that a path lies in; `None` where it has no component.
pub open spec fn parent_of(platform: Platform, s: Seq<char>) -> Option<Seq<char>> {
    if without_tail(platform, s).len() <= base_len(platform, s) {
        None
    } else {
        Some(
            without_tail_from(
                marks_of(platform, s),
                base_len(platform, s),
                s.take(name_start(platform, s) as int),
            ),
        )
    }
}

/// The path of the folder that a path lies in: where it has no component, the current one.
pub open spec fn folder_of(platform: Platform, s: Seq<char>) -> Seq<char> {
    match parent_of(platform, s) {
        Some(folder) => folder,
        None => "."@,
    }
}

/// The character that is put between two components.
#[verifier::allow_in_spec]
pub fn main_separator(platform: Platform) -> char
    returns
        (if platform == Platform::Windows {
            '\\'
        } else {
            '/'
        }),
{
    if platform == Platform::Windows {
        '\\'
    } else {
        '/'
    }
}

/// Whether a path names a drive and nothing else.
pub open spec fn is_bare_drive(platform: Platform, s: Seq<char>) -> bool {
    platform is Windows && s.len() == 2 && drive_at(s, 0)
}

/// A folder as it is written before the name of something in it: with a separator at its end, but
/// directly behind a drive and behind nothing.
pub open spec fn as_folder(platform: Platform, folder: Seq<char>) -> Seq<char> {
    if folder.len() == 0 || is_mark(marks_of(platform, folder), folder.last()) || is_bare_drive(
        platform,
        folder,
    ) {
        folder
    } else {
        folder.push(main_separator(platform))
    }
}

/// A folder and the name of something in it as one path.
pub open spec fn joined_path(platform: Platform, folder: Seq<char>, name: Seq<char>) -> Seq<char> {
    as_folder(platform, folder) + name
}

/// A prefix of a path is no longer than the path, and what stands before the first mark neither.
pub proof fn lemma_part_len(marks: Marks, s: Seq<char>)
    ensures
        part_len(marks, s) <= s.len(),
    decreases s.len(),
{
    if s.len() > 0 && !is_mark(marks, s[0]) {
        lemma_part_len(marks, s.drop_first());
    }
}

/// What stands before the first component is part of the path.
pub proof fn lemma_base_len(platform: Platform, s: Seq<char>)
    ensures
        prefix_len(platform, s) <= base_len(platform, s) <= s.len(),
{
    lemma_part_len(Marks::Backslash, s.skip(4));
    lemma_part_len(Marks::Both, s.skip(4));
    lemma_part_len(Marks::Backslash, s.skip(8));
    lemma_part_len(
        Marks::Backslash,
        s.skip((8 + part_len(Marks::Backslash, s.skip(8)) + 1) as int),
    );
    lemma_part_len(Marks::Both, s.skip(2));
    lemma_part_len(Marks::Both, s.skip((2 + part_len(Marks::Both, s.skip(2)) + 1) as int));
}

/// Without its tail a path is the beginning of what it was, and keeps the first `base` characters.
pub proof fn lemma_without_tail(marks: Marks, base: nat, s: Seq<char>)
    ensures
        without_tail_from(marks, base, s).len() <= s.len(),
        without_tail_from(marks, base, s) == s.take(
            without_tail_from(marks, base, s).len() as int,
        ),
        s.len() >= base ==> without_tail_from(marks, base, s).len() >= base,
    decreases s.len(),
{
    let t = without_tail_from(marks, base, s);
    if t != s {
        lemma_without_tail(marks, base, s.drop_last());
        assert(s.drop_last().take(t.len() as int) =~= s.take(t.len() as int));
    } else {
        assert(s.take(s.len() as int) =~= s);
    }
}

/// A name begins in the text, behind the first `base` characters where the text has as many.
pub proof fn lemma_name_start(marks: Marks, base: nat, s: Seq<char>)
    ensures
        name_start_from(marks, base, s) <= s.len(),
        s.len() >= base ==> name_start_from(marks, base, s) >= base,
    decreases s.len(),
{
    if s.len() > 0 && s.len() > base && !is_mark(marks, s.last()) {
        lemma_name_start(marks, base, s.drop_last());
    }
}

/// Whether a path begins with `\\?\`.
fn begins_verbatim(platform: Platform, v: &Vec<char>) -> (r: bool)
    ensures
        r == is_verbatim(platform, v@),
{
    platform == Platform::Windows && v.len() >= 4 && v[0] == '\\' && v[1] == '\\' && v[2] == '?'
        && v[3] == '\\'
}

/// The characters that part the components of a path.
fn find_marks(platform: Platform, v: &Vec<char>) -> (r: Marks)
    ensures
        r == marks_of(platform, v@),
{
    if begins_verbatim(platform, v) {
        Marks::Backslash
    } else {
        usual_marks(platform)
    }
}

/// Whether a drive stands at `from`.
fn has_drive_at(v: &Vec<char>, from: usize) -> (r: bool)
    requires
        from <= 4,
    ensures
        r == drive_at(v@, from as int),
{
    v.len() >= from + 2 && is_letter(v[from]) && v[from + 1] == ':'
}

/// How many characters stand before the first mark behind `from`.
fn find_part_len(marks: Marks, v: &Vec<char>, from: usize) -> (r: usize)
    requires
        from <= v@.len(),
    ensures
        r == part_len(marks, v@.skip(from as int)),
        from + r <= v@.len(),
{
    let mut n: usize = from;
    while n < v.len() && !is_mark(marks, v[n])
        invariant
            from <= n <= v@.len(),
            part_len(marks, v@.skip(from as int)) == n - from + part_len(
                marks,
                v@.skip(n as int),
            ),
        decreases v@.len() - n,
    {
        assert(v@.skip(n as int).drop_first() =~= v@.skip(n + 1));
        n += 1;
    }
    n - from
}

/// How long the names of a server and of a share are, where the first begins at `from`.
fn find_share_at(marks: Marks, v: &Vec<char>, from: usize) -> (r: (usize, usize))
    requires
        from <= v@.len(),
    ensures
        r.0 == share_at(marks, v@, from as nat).0,
        r.1 == share_at(marks, v@, from as nat).1,
        from + r.0 + (if r.1 > 0 {
            1 + r.1
        } else {
            0
        }) <= v@.len(),
{
    let server: usize = find_part_len(marks, v, from);
    let share: usize = if server < v.len() - from {
        find_part_len(marks, v, from + server + 1)
    } else {
        0
    };
    (server, share)
}

/// How many characters name the drive, the share or the device of a path.
fn find_prefix_len(platform: Platform, v: &Vec<char>) -> (r: usize)
    ensures
        r == prefix_len(platform, v@),
        r <= v@.len(),
{
    if platform != Platform::Windows {
        return 0;
    }
    if begins_verbatim(platform, v) {
        if v.len() >= 8 && v[4] == 'U' && v[5] == 'N' && v[6] == 'C' && v[7] == '\\' {
            let (server, share) = find_share_at(Marks::Backslash, v, 8);
            return if share > 0 {
                8 + server + 1 + share
            } else {
                8 + server
            };
        }
        if has_drive_at(v, 4) && (v.len() == 6 || is_mark(Marks::Both, v[6])) {
            return 6;
        }
        let name: usize = find_part_len(Marks::Backslash, v, 4);
        return 4 + name;
    }
    if v.len() >= 2 && is_mark(Marks::Both, v[0]) && is_mark(Marks::Both, v[1]) {
        if v.len() >= 4 && v[2] == '.' && is_mark(Marks::Both, v[3]) {
            let name: usize = find_part_len(Marks::Both, v, 4);
            return 4 + name;
        }
        let (server, share) = find_share_at(Marks::Both, v, 2);
        return if server > 0 && share > 0 {
            2 + server + 1 + share
        } else {
            0
        };
    }
    if has_drive_at(v, 0) {
        2
    } else {
        0
    }
}

/// How many characters stand before the first component.
fn find_base_len(platform: Platform, v: &Vec<char>) -> (r: usize)
    ensures
        r == base_len(platform, v@),
        r <= v@.len(),
{
    let n: usize = find_prefix_len(platform, v);
    if n < v.len() && is_mark(usual_marks(platform), v[n]) {
        n + 1
    } else {
        n
    }
}

/// How many of the first `n` characters of `v` stay where the tail is taken off.
fn find_tail(marks: Marks, base: usize, v: &Vec<char>, len: usize) -> (n: usize)
    requires
        base <= len <= v@.len(),
    ensures
        base <= n <= len,
        v@.take(n as int) == without_tail_from(marks, base as nat, v@.take(len as int)),
{
    let mut n: usize = len;
    while n > base && (is_mark(marks, v[n - 1]) || (n > 1 && v[n - 1] == '.' && marks
        != Marks::Backslash && is_mark(marks, v[n - 2])))
        invariant
            base <= n <= len <= v@.len(),
            without_tail_from(marks, base as nat, v@.take(len as int)) == without_tail_from(
                marks,
                base as nat,
                v@.take(n as int),
            ),
        decreases n,
    {
        assert(v@.take(n as int).drop_last() =~= v@.take(n - 1));
        n -= 1;
    }
    n
}

/// How many of the first `n` characters of `v` stand before the name of the last component.
fn find_name(marks: Marks, base: usize, v: &Vec<char>, n: usize) -> (r: usize)
    requires
        base <= n <= v@.len(),
    ensures
        r == name_start_from(marks, base as nat, v@.take(n as int)),
        base <= r <= n,
{
    let mut r: usize = n;
    while r > base && !is_mark(marks, v[r - 1])
        invariant
            base <= r <= n <= v@.len(),
            name_start_from(marks, base as nat, v@.take(n as int)) == name_start_from(
                marks,
                base as nat,
                v@.take(r as int),
            ),
        decreases r,
    {
        assert(v@.take(r as int).drop_last() =~= v@.take(r - 1));
        r -= 1;
    }
    r
}

/// Where the parts of a path end: what stands before the first component, what stands before the
/// last one, and that one.
pub struct PathCuts {
    pub marks: Marks,
    pub base: usize,
    pub start: usize,
    pub end: usize,
}

impl PathCuts {
    /// Whether the cuts are those of a path.
    pub open spec fn cut(self, platform: Platform, s: Seq<char>) -> bool {
        &&& self.marks == marks_of(platform, s)
        &&& self.base == base_len(platform, s)
        &&& self.start == name_start(platform, s)
        &&& self.end == without_tail(platform, s).len()
        &&& s.take(self.end as int) == without_tail(platform, s)
        &&& self.base <= self.start <= self.end <= s.len()
    }
}

/// Where the parts of a path end.
pub fn cut_path(platform: Platform, v: &Vec<char>) -> (r: PathCuts)
    ensures
        r.cut(platform, v@),
{
    let marks: Marks = find_marks(platform, v);
    let base: usize = find_base_len(platform, v);
    assert(v@.take(v@.len() as int) =~= v@);
    let end: usize = find_tail(marks, base, v, v.len());
    let start: usize = find_name(marks, base, v, end);
    PathCuts { marks, base, start, end }
}

/// The name of the last component of a path.
pub fn path_name(platform: Platform, path: &str) -> (r: String)
    ensures
        r@ == last_name(platform, path@),
{
    let v: Vec<char> = chars_of(path);
    let cuts: PathCuts = cut_path(platform, &v);
    let r: String = text_of_range(&v, cuts.start, cuts.end);
    assert(r@ =~= v@.take(cuts.end as int).skip(cuts.start as int));
    r
}

/// The path of the folder that a path lies in; `None` where it has no component.
pub fn path_parent(platform: Platform, path: &str) -> (r: Option<String>)
    ensures
        match r {
            Some(folder) => parent_of(platform, path@) == Some(folder@),
            None => parent_of(platform, path@) is None,
        },
{
    let v: Vec<char> = chars_of(path);
    let cuts: PathCuts = cut_path(platform, &v);
    if cuts.end <= cuts.base {
        return None;
    }
    let n: usize = find_tail(cuts.marks, cuts.base, &v, cuts.start);
    let r: String = text_of_range(&v, 0, n);
    assert(r@ =~= v@.take(n as int));
    Some(r)
}

/// The path of the folder that a path lies in: where it has no component, the current one.
pub fn path_folder(platform: Platform, path: &str) -> (r: String)
    ensures
        r@ == folder_of(platform, path@),
{
    match path_parent(platform, path) {
        Some(folder) => folder,
        None => ".".to_owned(),
    }
}

/// A folder as it is written before the name of something in it.
pub fn folder_text(platform: Platform, folder: &str) -> (r: String)
    ensures
        r@ == as_folder(platform, folder@),
{
    let v: Vec<char> = chars_of(folder);
    let mut r: String = folder.to_owned();
    if v.len() == 0 || is_mark(find_marks(platform, &v), v[v.len() - 1]) {
        return r;
    }
    if platform == Platform::Windows && v.len() == 2 && has_drive_at(&v, 0) {
        return r;
    }
    r.push(main_separator(platform));
    r
}

/// A folder and the name of something in it as one path.
pub fn join_path(platform: Platform, folder: &str, name: &str) -> (r: String)
    ensures
        r@ == joined_path(platform, folder@, name@),
{
    let before: String = folder_text(platform, folder);
    cat2(before.as_str(), name)
}

/// The components read so far, with one more: nothing between two marks is none, and `.` is one
/// only where a path without a root begins with it, and in a verbatim path.
pub open spec fn with_component(
    marks: Marks,
    rooted: bool,
    done: Seq<Seq<char>>,
    next: Seq<char>,
) -> Seq<Seq<char>> {
    if next.len() == 0 || (next == seq!['.'] && marks != Marks::Backslash && (rooted || done.len()
        > 0)) {
        done
    } else {
        done.push(next)
    }
}

/// The components that end in `s`, and what stands behind its last mark.
pub open spec fn read_components(marks: Marks, rooted: bool, s: Seq<char>) -> (
    Seq<Seq<char>>,
    Seq<char>,
)
    decreases s.len(),
{
    if s.len() == 0 {
        (Seq::empty(), Seq::empty())
    } else {
        let (done, next) = read_components(marks, rooted, s.drop_last());
        if is_mark(marks, s.last()) {
            (with_component(marks, rooted, done, next), Seq::empty())
        } else {
            (done, next.push(s.last()))
        }
    }
}

/// The components of a path.
pub open spec fn components(platform: Platform, s: Seq<char>) -> Seq<Seq<char>> {
    let marks = marks_of(platform, s);
    let rooted = is_rooted(platform, s);
    let (done, next) = read_components(marks, rooted, s.skip(base_len(platform, s) as int));
    with_component(marks, rooted, done, next)
}

/// Whether two texts write the same path: with the same prefix, root and components.
pub open spec fn same_path(platform: Platform, a: Seq<char>, b: Seq<char>) -> bool {
    &&& prefix_form(platform, a) == prefix_form(platform, b)
    &&& is_rooted(platform, a) == is_rooted(platform, b)
    &&& components(platform, a) == components(platform, b)
}

/// Adds a component to those that were read.
fn add_component(marks: Marks, rooted: bool, done: &mut Vec<String>, next: String)
    ensures
        views(final(done)@) == with_component(marks, rooted, views(old(done)@), next@),
{
    proof {
        reveal_strlit(".");
        assert("."@ =~= seq!['.']);
    }
    if next.as_str().is_empty() || (same_text(next.as_str(), ".") && marks != Marks::Backslash && (
    rooted || done.len() > 0)) {
        return;
    }
    let ghost before = done@;
    let ghost part = next@;
    done.push(next);
    assert(views(done@) =~= views(before).push(part));
}

/// The prefix, the root and the components of a path.
struct PathParts {
    prefix: String,
    rooted: bool,
    names: Vec<String>,
}

/// The prefix of a path as paths are compared by it.
fn read_prefix(platform: Platform, v: &Vec<char>, n: usize) -> (r: String)
    requires
        n == prefix_len(platform, v@),
        n <= v@.len(),
    ensures
        r@ == prefix_form(platform, v@),
{
    let verbatim: bool = begins_verbatim(platform, v);
    let drive: bool = has_drive_at(v, 0) || (verbatim && has_drive_at(v, 4) && (v.len() == 6
        || is_mark(Marks::Both, v[6])));
    let mut r: String = String::new();
    let mut i: usize = 0;
    while i < n
        invariant
            i <= n <= v@.len(),
            n == prefix_len(platform, v@),
            verbatim == is_verbatim(platform, v@),
            drive == (drive_at(v@, 0) || (verbatim && is_verbatim_drive(v@))),
            r@ == prefix_form(platform, v@).take(i as int),
        decreases n - i,
    {
        let c: char = if drive {
            ascii_lower_char(v[i])
        } else if v[i] == '/' && !verbatim {
            '\\'
        } else {
            v[i]
        };
        let ghost before = r@;
        r.push(c);
        assert(c == prefix_form(platform, v@)[i as int]);
        assert(before.push(c) =~= prefix_form(platform, v@).take(i + 1));
        i += 1;
    }
    assert(prefix_form(platform, v@).take(i as int) =~= prefix_form(platform, v@));
    r
}

/// The prefix, the root and the components of a path.
fn read_parts(platform: Platform, path: &str) -> (r: PathParts)
    ensures
        r.prefix@ == prefix_form(platform, path@),
        r.rooted == is_rooted(platform, path@),
        views(r.names@) == components(platform, path@),
{
    let v: Vec<char> = chars_of(path);
    let marks: Marks = find_marks(platform, &v);
    let n: usize = find_prefix_len(platform, &v);
    let base: usize = find_base_len(platform, &v);
    let rooted: bool = base > n || (n > 2 && !begins_verbatim(platform, &v));
    let prefix: String = read_prefix(platform, &v, n);
    let ghost body = v@.skip(base as int);
    let mut names: Vec<String> = Vec::new();
    let mut next: String = String::new();
    let mut i: usize = base;
    assert(body.take(0) =~= Seq::<char>::empty());
    assert(views(names@) =~= Seq::<Seq<char>>::empty());
    while i < v.len()
        invariant
            base <= i <= v@.len(),
            body == v@.skip(base as int),
            (views(names@), next@) == read_components(marks, rooted, body.take(i - base)),
        decreases v@.len() - i,
    {
        assert(body.take(i + 1 - base).drop_last() =~= body.take(i - base));
        assert(body.take(i + 1 - base).last() == v@[i as int]);
        if is_mark(marks, v[i]) {
            add_component(marks, rooted, &mut names, next);
            next = String::new();
        } else {
            next.push(v[i]);
        }
        i += 1;
    }
    assert(body.take(i - base) =~= body);
    add_component(marks, rooted, &mut names, next);
    PathParts { prefix, rooted, names }
}

/// Whether two lists hold the same texts.
fn same_names(a: &Vec<String>, b: &Vec<String>) -> (r: bool)
    ensures
        r == (views(a@) == views(b@)),
{
    if a.len() != b.len() {
        assert(views(a@).len() != views(b@).len());
        return false;
    }
    let mut i: usize = 0;
    while i < a.len()
        invariant
            a@.len() == b@.len(),
            i <= a@.len(),
            forall|k: int| 0 <= k < i ==> views(a@)[k] == views(b@)[k],
        decreases a@.len() - i,
    {
        if !same_text(a[i].as_str(), b[i].as_str()) {
            assert(views(a@)[i as int] != views(b@)[i as int]);
            return false;
        }
        i += 1;
    }
    assert(views(a@) =~= views(b@));
    true
}

/// Whether two texts write the same path.
pub fn paths_equal(platform: Platform, a: &str, b: &str) -> (r: bool)
    ensures
        r == same_path(platform, a@, b@),
{
    let x: PathParts = read_parts(platform, a);
    let y: PathParts = read_parts(platform, b);
    same_text(x.prefix.as_str(), y.prefix.as_str()) && x.rooted == y.rooted && same_names(
        &x.names,
        &y.names,
    )
}

/// Whether `name` is the name of one component.
pub open spec fn is_plain_name(platform: Platform, name: Seq<char>) -> bool {
    &&& name.len() > 0
    &&& name != "."@
    &&& forall|i: int| 0 <= i < name.len() ==> !is_mark(usual_marks(platform), #[trigger] name[i])
}

/// The name of a path that was put together is the name that was put into it, where that is not read
/// as part of the prefix (as behind the name of a server, where it is that of a share).
pub proof fn lemma_name_of_joined(platform: Platform, folder: Seq<char>, name: Seq<char>)
    requires
        is_plain_name(platform, name),
        base_len(platform, joined_path(platform, folder, name)) <= as_folder(
            platform,
            folder,
        ).len(),
    ensures
        last_name(platform, joined_path(platform, folder, name)) == name,
{
    reveal_strlit(".");
    let whole = joined_path(platform, folder, name);
    let head = as_folder(platform, folder);
    let marks = marks_of(platform, whole);
    let base = base_len(platform, whole);
    assert(whole.last() == name.last());
    assert(!is_mark(usual_marks(platform), name[name.len() - 1]));
    assert(head.len() <= base || is_mark(marks, head.last())) by {
        lemma_joined_marks(platform, folder, name);
    }
    assert(without_tail(platform, whole) == whole) by {
        if whole.len() > 1 && whole.last() == '.' && is_mark(marks, whole[whole.len() - 2]) {
            if name.len() == 1 {
                assert(name =~= "."@);
            } else {
                assert(whole[whole.len() - 2] == name[name.len() - 2]);
            }
        }
    }
    lemma_name_start_before(marks, base, head, name, name.len());
    assert(head + name.take(name.len() as int) =~= whole);
    assert(whole.skip(head.len() as int) =~= name);
}

/// What is put before a name ends in a mark of the whole path, unless all of it is prefix and root.
proof fn lemma_joined_marks(platform: Platform, folder: Seq<char>, name: Seq<char>)
    requires
        is_plain_name(platform, name),
        base_len(platform, joined_path(platform, folder, name)) <= as_folder(
            platform,
            folder,
        ).len(),
    ensures
        ({
            let whole = joined_path(platform, folder, name);
            let head = as_folder(platform, folder);
            head.len() <= base_len(platform, whole) || is_mark(
                marks_of(platform, whole),
                head.last(),
            )
        }),
{
    let whole = joined_path(platform, folder, name);
    let head = as_folder(platform, folder);
    assert(!is_mark(usual_marks(platform), name[0]));
    if is_bare_drive(platform, folder) {
        assert(drive_at(whole, 0));
        assert(whole[2] == name[0]);
    } else if is_verbatim(platform, whole) && !is_verbatim(platform, folder) {
        if head.len() <= 3 {
            assert(whole[3] == name[3 - head.len()]);
        } else if folder.len() >= 4 {
            assert(forall|i: int| 0 <= i < 4 ==> whole[i] == folder[i]);
        } else {
            assert(head =~= folder.push('\\'));
            assert(whole.skip(4) =~= name);
            assert(whole[4] == name[0]);
            if is_verbatim_share(whole) {
                assert(whole[7] == name[3]);
            }
        }
    } else if is_verbatim(platform, folder) {
        assert(forall|i: int| 0 <= i < 4 ==> whole[i] == folder[i]);
    }
}

/// Behind a mark, a name without one begins.
proof fn lemma_name_start_before(
    marks: Marks,
    base: nat,
    head: Seq<char>,
    name: Seq<char>,
    n: nat,
)
    requires
        n <= name.len(),
        base <= head.len(),
        head.len() <= base || is_mark(marks, head.last()),
        forall|i: int| 0 <= i < name.len() ==> !is_mark(marks, #[trigger] name[i]),
    ensures
        name_start_from(marks, base, head + name.take(n as int)) == head.len(),
    decreases n,
{
    let s = head + name.take(n as int);
    if n == 0 {
        assert(s =~= head);
    } else {
        assert(s.last() == name[n - 1]);
        assert(s.drop_last() =~= head + name.take(n - 1));
        lemma_name_start_before(marks, base, head, name, (n - 1) as nat);
    }
}

/// On a platform without drives, the folder that a path lies in is the one that a name was put
/// into, and the components of the path are those of the folder and the name.
pub proof fn lemma_folder_of_joined(platform: Platform, folder: Seq<char>, name: Seq<char>)
    requires
        !(platform is Windows),
        is_plain_name(platform, name),
        folder.len() > 0,
        folder.last() != '/',
    ensures
        folder.last() != '.' ==> parent_of(platform, joined_path(platform, folder, name)) == Some(
            folder,
        ),
        folder.last() != '.' ==> folder_of(platform, joined_path(platform, folder, name)) == folder,
        components(platform, joined_path(platform, folder, name)) == components(
            platform,
            folder,
        ).push(name),
{
    reveal_strlit(".");
    let whole = joined_path(platform, folder, name);
    let head = as_folder(platform, folder);
    let marks = marks_of(platform, whole);
    let base = base_len(platform, whole);
    assert(head == folder.push('/'));
    assert(whole[0] == folder[0]);
    assert(base == base_len(platform, folder) && base <= folder.len());
    assert(whole.last() == name.last());
    assert(!is_mark(usual_marks(platform), name[name.len() - 1]));
    assert(without_tail(platform, whole) == whole) by {
        if whole.len() > 1 && whole.last() == '.' && is_mark(marks, whole[whole.len() - 2]) {
            if name.len() == 1 {
                assert(name =~= "."@);
            } else {
                assert(whole[whole.len() - 2] == name[name.len() - 2]);
            }
        }
    }
    lemma_name_start_before(marks, base, head, name, name.len());
    assert(head + name.take(name.len() as int) =~= whole);
    assert(whole.take(head.len() as int) =~= head);
    assert(head.drop_last() =~= folder);
    if folder.last() != '.' {
        assert(without_tail_from(marks, base, folder) == folder);
        assert(without_tail_from(marks, base, head) == folder);
    }
    let rooted = is_rooted(platform, whole);
    let inner = folder.skip(base as int);
    assert(head.skip(base as int) =~= inner.push('/'));
    assert(inner.push('/').drop_last() =~= inner);
    assert(whole.skip(base as int) =~= inner.push('/') + name.take(name.len() as int));
    lemma_components_before(marks, rooted, inner.push('/'), name, name.len());
    assert(name.take(name.len() as int) =~= name);
    assert(Seq::<char>::empty() + name =~= name);
    assert("."@ =~= seq!['.']);
}

/// A name without marks is read behind what stands before it.
proof fn lemma_components_before(
    marks: Marks,
    rooted: bool,
    head: Seq<char>,
    name: Seq<char>,
    n: nat,
)
    requires
        n <= name.len(),
        forall|i: int| 0 <= i < name.len() ==> !is_mark(marks, #[trigger] name[i]),
    ensures
        read_components(marks, rooted, head + name.take(n as int)) == (
            read_components(marks, rooted, head).0,
            read_components(marks, rooted, head).1 + name.take(n as int),
        ),
    decreases n,
{
    let s = head + name.take(n as int);
    if n == 0 {
        assert(s =~= head);
        assert(read_components(marks, rooted, head).1 + name.take(0) =~= read_components(
            marks,
            rooted,
            head,
        ).1);
    } else {
        lemma_components_before(marks, rooted, head, name, (n - 1) as nat);
        assert(s.drop_last() =~= head + name.take(n - 1));
        assert(s.last() == name[n - 1]);
        assert((read_components(marks, rooted, head).1 + name.take(n - 1)).push(name[n - 1])
            =~= read_components(marks, rooted, head).1 + name.take(n as int));
    }
}

/// A path is the same as itself, and on a platform without drives also with a separator at its end.
pub proof fn lemma_same_path(platform: Platform, path: Seq<char>)
    ensures
        same_path(platform, path, path),
        !(platform is Windows) && path.len() > 0 ==> same_path(platform, path, path.push('/')),
{
    if !(platform is Windows) && path.len() > 0 {
        let long = path.push('/');
        let base = base_len(platform, path);
        assert(long[0] == path[0]);
        assert(long.skip(base as int) =~= path.skip(base as int).push('/'));
        assert(path.skip(base as int).push('/').drop_last() =~= path.skip(base as int));
        assert(prefix_form(platform, path) =~= prefix_form(platform, long));
    }
}

} // verus!
