//! File paths as texts, as they are written on Unix and on Windows.

pub mod joining;

use vstd::prelude::*;

use crate::text;

verus! {

/// How paths are written.
#[derive(Debug, Clone, Copy, PartialEq, Eq, Structural)]
pub enum PathStyle {
    /// With `/` between names.
    Unix,
    /// With `\` or `/` between names, and a drive or a network share in front.
    Windows,
}

/// Whether a character stands between the names of a path.
pub open spec fn separator(style: PathStyle, c: char) -> bool {
    c == '/' || (style == PathStyle::Windows && c == '\\')
}

/// A path with `/` between its names.
pub open spec fn slashed(style: PathStyle, path: Seq<char>) -> Seq<char> {
    Seq::new(
        path.len(),
        |i: int|
            if separator(style, path[i]) {
                '/'
            } else {
                path[i]
            },
    )
}

/// The pieces of a path between separators.
pub open spec fn pieces(style: PathStyle, path: Seq<char>) -> Seq<Seq<char>> {
    text::split_on(slashed(style, path), '/')
}

/// Whether a path begins with a drive, such as `C:`.
pub open spec fn has_drive(style: PathStyle, path: Seq<char>) -> bool {
    &&& style == PathStyle::Windows
    &&& path.len() >= 2
    &&& 'a' <= path[0] <= 'z' || 'A' <= path[0] <= 'Z'
    &&& path[1] == ':'
}

/// Whether a path begins with two separators.
pub open spec fn begins_doubly(style: PathStyle, path: Seq<char>) -> bool {
    path.len() >= 2 && separator(style, path[0]) && separator(style, path[1])
}

/// Whether a path is verbatim: it begins with `\\?\`, and no `/` in it
/// separates names.
pub open spec fn verbatim(style: PathStyle, path: Seq<char>) -> bool {
    &&& style == PathStyle::Windows
    &&& path.len() >= 4
    &&& path[0] == '\\' && path[1] == '\\' && path[2] == '?' && path[3] == '\\'
}

/// Whether a path leads to a device: it begins with `\\.\`.
pub open spec fn device(style: PathStyle, path: Seq<char>) -> bool {
    &&& style == PathStyle::Windows
    &&& begins_doubly(style, path)
    &&& path.len() >= 4
    &&& path[2] == '.' && separator(style, path[3])
}

/// Whether what follows `\\?\` begins with `UNC`.
pub open spec fn begins_unc(body: Seq<char>) -> bool {
    body.len() >= 3 && body[0] == 'U' && body[1] == 'N' && body[2] == 'C'
}

/// Whether what follows `\\?\` is on a network share.
pub open spec fn verbatim_share(body: Seq<char>) -> bool {
    begins_unc(body) && body.len() >= 4 && separator(PathStyle::Windows, body[3])
}

/// Whether what follows `\\?\` is on a drive.
pub open spec fn verbatim_drive(body: Seq<char>) -> bool {
    has_drive(PathStyle::Windows, body) && (body.len() == 2 || separator(
        PathStyle::Windows,
        body[2],
    ))
}

/// Whether a character ends a name of a Windows path.
pub open spec fn ends_name(verbatim: bool, c: char) -> bool {
    c == '\\' || (!verbatim && c == '/')
}

/// How many characters the name at the beginning of a text has.
pub open spec fn name_len(verbatim: bool, s: Seq<char>) -> nat
    decreases s.len(),
{
    if s.len() == 0 || ends_name(verbatim, s[0]) {
        0
    } else {
        1 + name_len(verbatim, s.drop_first())
    }
}

/// How many characters the second name of a text has, after one separator.
pub open spec fn next_name_len(verbatim: bool, s: Seq<char>) -> nat {
    if name_len(verbatim, s) < s.len() {
        name_len(verbatim, s.skip(name_len(verbatim, s) as int + 1))
    } else {
        0
    }
}

/// How many characters a server and its share have.
pub open spec fn share_len(verbatim: bool, s: Seq<char>) -> nat {
    name_len(verbatim, s) + (if next_name_len(verbatim, s) > 0 {
        1 + next_name_len(verbatim, s)
    } else {
        0
    })
}

/// How many characters the drive, the share or the device at the beginning of a
/// path takes up.
pub open spec fn prefix_len(style: PathStyle, path: Seq<char>) -> nat {
    if verbatim(style, path) {
        let body = path.skip(4);
        if verbatim_share(body) {
            8 + share_len(true, body.skip(4))
        } else if verbatim_drive(body) {
            6
        } else {
            4 + name_len(true, body)
        }
    } else if device(style, path) {
        4 + name_len(false, path.skip(4))
    } else if has_drive(style, path) {
        2
    } else if style == PathStyle::Windows && begins_doubly(style, path) && name_len(
        false,
        path.skip(2),
    ) > 0 && next_name_len(false, path.skip(2)) > 0 {
        2 + share_len(false, path.skip(2))
    } else {
        0
    }
}

/// The names in a list of path pieces: empty pieces name nothing, and neither
/// does `.` unless the path is verbatim.
pub open spec fn names_of(verbatim: bool, pieces: Seq<Seq<char>>) -> Seq<Seq<char>>
    decreases pieces.len(),
{
    if pieces.len() == 0 {
        seq![]
    } else {
        let before = names_of(verbatim, pieces.drop_last());
        if pieces.last().len() == 0 || (!verbatim && pieces.last() == "."@) {
            before
        } else {
            before.push(pieces.last())
        }
    }
}

/// A text without the separator that it begins with.
pub open spec fn after_root(style: PathStyle, rest: Seq<char>) -> Seq<char> {
    if rest.len() > 0 && separator(style, rest[0]) {
        rest.drop_first()
    } else {
        rest
    }
}

/// The names that a path goes through, after its drive or share.
pub open spec fn names(style: PathStyle, path: Seq<char>) -> Seq<Seq<char>> {
    let rest = path.skip(prefix_len(style, path) as int);
    if verbatim(style, path) {
        names_of(true, text::split_on(after_root(style, rest), '\\'))
    } else {
        names_of(false, pieces(style, rest))
    }
}

/// The name of the file that a path leads to.
pub open spec fn file_name_of(style: PathStyle, path: Seq<char>) -> Option<Seq<char>> {
    let n = names(style, path);
    if n.len() == 0 || n.last() == ".."@ || n.last() == "."@ {
        None
    } else {
        Some(n.last())
    }
}

/// The position of the last dot of a file name.
pub open spec fn last_dot(name: Seq<char>) -> Option<int>
    decreases name.len(),
{
    if name.len() == 0 {
        None
    } else if name.last() == '.' {
        Some(name.len() - 1)
    } else {
        last_dot(name.drop_last())
    }
}

/// A file name without its extension.
pub open spec fn stem_of(name: Seq<char>) -> Seq<char> {
    match last_dot(name) {
        Some(i) if i > 0 => name.take(i),
        _ => name,
    }
}

/// The extension of a file name. A dot at its beginning starts none.
pub open spec fn extension_of(name: Seq<char>) -> Option<Seq<char>> {
    match last_dot(name) {
        Some(i) if i > 0 => Some(name.skip(i + 1)),
        _ => None,
    }
}

fn is_separator(style: PathStyle, c: char) -> (r: bool)
    ensures
        r == separator(style, c),
{
    c == '/' || (style == PathStyle::Windows && c == '\\')
}

/// The pieces of a path between separators.
pub fn path_pieces(style: PathStyle, path: &str) -> (r: Vec<String>)
    ensures
        text::texts(r@) == pieces(style, path@),
        r@.len() > 0,
{
    let x = text::chars_of(path);
    let mut out = String::new();
    let mut i: usize = 0;
    while i < x.len()
        invariant
            x@ == path@,
            i <= x@.len(),
            out@ == slashed(style, path@).take(i as int),
        decreases x@.len() - i,
    {
        if is_separator(style, x[i]) {
            out.push('/');
        } else {
            out.push(x[i]);
        }
        assert(out@ =~= slashed(style, path@).take(i + 1));
        i += 1;
    }
    assert(slashed(style, path@).take(i as int) =~= slashed(style, path@));
    text::split(out.as_str(), '/')
}

/// Whether a path begins with a separator.
pub fn begins_with_separator(style: PathStyle, path: &str) -> (r: bool)
    ensures
        r == (path@.len() > 0 && separator(style, path@[0])),
{
    let x = text::chars_of(path);
    x.len() > 0 && is_separator(style, x[0])
}

/// Whether a path begins with a drive.
pub fn begins_with_drive(style: PathStyle, path: &str) -> (r: bool)
    ensures
        r == has_drive(style, path@),
{
    if style != PathStyle::Windows {
        return false;
    }
    let x = text::chars_of(path);
    x.len() >= 2 && (('a' <= x[0] && x[0] <= 'z') || ('A' <= x[0] && x[0] <= 'Z')) && x[1] == ':'
}

/// A name ends within the text that it begins.
pub proof fn lemma_name_len(verbatim: bool, s: Seq<char>)
    ensures
        name_len(verbatim, s) <= s.len(),
        name_len(verbatim, s) < s.len() ==> ends_name(verbatim, s[name_len(verbatim, s) as int]),
        forall|i: int|
            0 <= i < name_len(verbatim, s) ==> !ends_name(verbatim, #[trigger] s[i]),
        share_len(verbatim, s) <= s.len(),
    decreases s.len(),
{
    if s.len() > 0 && !ends_name(verbatim, s[0]) {
        let tail = s.drop_first();
        lemma_name_len(verbatim, tail);
        assert forall|i: int| 0 <= i < name_len(verbatim, s) implies !ends_name(
            verbatim,
            #[trigger] s[i],
        ) by {
            if i > 0 {
                assert(tail[i - 1] == s[i]);
            }
        }
    }
    let a = name_len(verbatim, s) as int;
    if a < s.len() {
        lemma_name_len(verbatim, s.skip(a + 1));
    }
}

/// The drive, the share or the device is part of the path.
pub proof fn lemma_prefix_len(style: PathStyle, path: Seq<char>)
    ensures
        prefix_len(style, path) <= path.len(),
{
    if verbatim(style, path) {
        lemma_name_len(true, path.skip(4));
        if verbatim_share(path.skip(4)) {
            lemma_name_len(true, path.skip(4).skip(4));
        }
    } else if device(style, path) {
        lemma_name_len(false, path.skip(4));
    } else if begins_doubly(style, path) {
        lemma_name_len(false, path.skip(2));
    }
}

/// Where the name that begins at a position ends.
fn name_end(x: &[char], from: usize, verbatim: bool) -> (r: usize)
    requires
        from <= x@.len(),
    ensures
        r == from + name_len(verbatim, x@.skip(from as int)),
        r <= x@.len(),
{
    let mut i: usize = from;
    while i < x.len() && !(x[i] == '\\' || (!verbatim && x[i] == '/'))
        invariant
            from <= i <= x@.len(),
            from + name_len(verbatim, x@.skip(from as int)) == i + name_len(
                verbatim,
                x@.skip(i as int),
            ),
        decreases x@.len() - i,
    {
        assert(x@.skip(i as int).drop_first() =~= x@.skip(i + 1));
        assert(x@.skip(i as int)[0] == x@[i as int]);
        i += 1;
    }
    proof {
        if i < x@.len() {
            assert(x@.skip(i as int)[0] == x@[i as int]);
        }
    }
    i
}

/// Where the server that begins at a position and its share end, and whether
/// both have a name.
fn share_end(x: &[char], from: usize, verbatim: bool) -> (r: (usize, bool))
    requires
        from <= x@.len(),
    ensures
        r.0 == from + share_len(verbatim, x@.skip(from as int)),
        r.0 <= x@.len(),
        r.1 == (name_len(verbatim, x@.skip(from as int)) > 0 && next_name_len(
            verbatim,
            x@.skip(from as int),
        ) > 0),
{
    let server: usize = name_end(x, from, verbatim);
    if server == x.len() {
        return (server, false);
    }
    let share: usize = name_end(x, server + 1, verbatim);
    assert(x@.skip(from as int).skip(server - from + 1) =~= x@.skip(server + 1));
    if share == server + 1 {
        (server, false)
    } else {
        (share, server > from)
    }
}

/// Whether a path is verbatim.
pub fn is_verbatim(style: PathStyle, path: &str) -> (r: bool)
    ensures
        r == verbatim(style, path@),
{
    let x = text::chars_of(path);
    style == PathStyle::Windows && x.len() >= 4 && x[0] == '\\' && x[1] == '\\' && x[2] == '?'
        && x[3] == '\\'
}

/// How many characters the drive, the share or the device at the beginning of a
/// path takes up.
pub fn path_prefix(style: PathStyle, path: &str) -> (r: usize)
    ensures
        r == prefix_len(style, path@),
        r <= path@.len(),
{
    proof {
        lemma_prefix_len(style, path@);
    }
    if style != PathStyle::Windows {
        return 0;
    }
    let x = text::chars_of(path);
    if is_verbatim(style, path) {
        let body = text::string_between(x.as_slice(), 4, x.len());
        assert(body@ =~= path@.skip(4));
        if x.len() >= 8 && x[4] == 'U' && x[5] == 'N' && x[6] == 'C' && is_separator(style, x[7]) {
            assert(path@.skip(4).skip(4) =~= path@.skip(8));
            let end: (usize, bool) = share_end(x.as_slice(), 8, true);
            return end.0;
        }
        if begins_with_drive(style, body.as_str()) && (x.len() == 6 || is_separator(style, x[6])) {
            return 6;
        }
        return name_end(x.as_slice(), 4, true);
    }
    let doubly = x.len() >= 2 && is_separator(style, x[0]) && is_separator(style, x[1]);
    if doubly && x.len() >= 4 && x[2] == '.' && is_separator(style, x[3]) {
        return name_end(x.as_slice(), 4, false);
    }
    if begins_with_drive(style, path) {
        return 2;
    }
    if !doubly {
        return 0;
    }
    let end: (usize, bool) = share_end(x.as_slice(), 2, false);
    if end.1 {
        end.0
    } else {
        0
    }
}

/// The names that a path goes through.
pub fn path_names(style: PathStyle, path: &str) -> (r: Vec<String>)
    ensures
        text::texts(r@) == names(style, path@),
{
    broadcast use text::lemma_texts_push;

    let x = text::chars_of(path);
    let prefix: usize = path_prefix(style, path);
    let as_written = is_verbatim(style, path);
    let ghost rest = path@.skip(prefix as int);
    let pieces = if as_written {
        let from: usize = if prefix < x.len() && is_separator(style, x[prefix]) {
            prefix + 1
        } else {
            prefix
        };
        let below = text::string_between(x.as_slice(), from, x.len());
        assert(below@ =~= after_root(style, rest));
        text::split(below.as_str(), '\\')
    } else {
        let below = text::string_between(x.as_slice(), prefix, x.len());
        assert(below@ =~= rest);
        path_pieces(style, below.as_str())
    };
    let ghost all = text::texts(pieces@);
    let mut out: Vec<String> = Vec::new();
    let mut i: usize = 0;
    assert(text::texts(out@) =~= Seq::<Seq<char>>::empty());
    while i < pieces.len()
        invariant
            all == text::texts(pieces@),
            i <= pieces@.len(),
            text::texts(out@) == names_of(as_written, all.take(i as int)),
        decreases pieces@.len() - i,
    {
        proof {
            assert(all.take(i + 1).drop_last() =~= all.take(i as int));
            assert(all.take(i + 1).last() == pieces@[i as int]@);
        }
        if !pieces[i].as_str().is_empty() && (as_written || !text::same(pieces[i].as_str(), ".")) {
            out.push(pieces[i].clone());
        }
        i += 1;
    }
    assert(all.take(i as int) =~= all);
    out
}

/// The name of the file that a path leads to.
pub fn file_name(style: PathStyle, path: &str) -> (r: Option<String>)
    ensures
        text::opt_text(r) == file_name_of(style, path@),
{
    let names = path_names(style, path);
    let n: usize = names.len();
    assert(text::texts(names@).len() == n);
    if n == 0 {
        return None;
    }
    assert(text::texts(names@).last() == names@[n - 1]@);
    if text::same(names[n - 1].as_str(), "..") || text::same(names[n - 1].as_str(), ".") {
        None
    } else {
        Some(names[n - 1].clone())
    }
}

fn find_last_dot(name: &[char]) -> (r: Option<usize>)
    ensures
        match r {
            Some(i) => last_dot(name@) == Some(i as int) && i < name@.len(),
            None => last_dot(name@) is None,
        },
{
    let mut n: usize = name.len();
    assert(name@.take(n as int) =~= name@);
    while n > 0
        invariant
            n <= name@.len(),
            last_dot(name@) == last_dot(name@.take(n as int)),
        decreases n,
    {
        proof {
            assert(name@.take(n as int).last() == name@[n - 1]);
            assert(name@.take(n as int).drop_last() =~= name@.take(n - 1));
        }
        if name[n - 1] == '.' {
            return Some(n - 1);
        }
        n -= 1;
    }
    None
}

/// The stem of the file that a path leads to.
pub fn file_stem(style: PathStyle, path: &str) -> (r: Option<String>)
    ensures
        text::opt_text(r) == (match file_name_of(style, path@) {
            Some(name) => Some(stem_of(name)),
            None => None,
        }),
{
    match file_name(style, path) {
        None => None,
        Some(name) => {
            let x = text::chars_of(name.as_str());
            match find_last_dot(x.as_slice()) {
                Some(i) if i > 0 => {
                    let stem = text::string_between(x.as_slice(), 0, i);
                    assert(stem@ =~= name@.take(i as int));
                    Some(stem)
                },
                _ => Some(name),
            }
        },
    }
}

/// The extension of the file that a path leads to.
pub fn extension(style: PathStyle, path: &str) -> (r: Option<String>)
    ensures
        text::opt_text(r) == (match file_name_of(style, path@) {
            Some(name) => extension_of(name),
            None => None,
        }),
{
    match file_name(style, path) {
        None => None,
        Some(name) => {
            let x = text::chars_of(name.as_str());
            match find_last_dot(x.as_slice()) {
                Some(i) if i > 0 => {
                    assert(i < x.len());
                    let extension = text::string_between(x.as_slice(), i + 1, x.len());
                    assert(extension@ =~= name@.skip(i + 1));
                    Some(extension)
                },
                _ => None,
            }
        },
    }
}

/// Where names lead from other names: `..` leads back over a name.
pub open spec fn walked(from: Seq<Seq<char>>, steps: Seq<Seq<char>>) -> Seq<Seq<char>>
    decreases steps.len(),
{
    if steps.len() == 0 {
        from
    } else {
        let before = walked(from, steps.drop_last());
        if steps.last() != ".."@ {
            before.push(steps.last())
        } else if before.len() > 0 && before.last() != ".."@ && before.last() != "."@ {
            before.drop_last()
        } else {
            before
        }
    }
}

/// A path that starts in a verbatim directory, written with `\` between names
/// and without `.` and `..` of its own.
pub open spec fn verbatim_joined(dir: Seq<char>, name: Seq<char>) -> Seq<char> {
    let style = PathStyle::Windows;
    let prefix = prefix_len(style, dir) as int;
    let anew = separator(style, name[0]);
    let rooted = anew || (prefix < dir.len() && separator(style, dir[prefix]));
    let all = walked(
        if anew {
            Seq::empty()
        } else {
            names(style, dir)
        },
        names(style, name),
    );
    dir.take(prefix) + (if rooted || all.len() > 0 {
        "\\"@
    } else {
        Seq::empty()
    }) + text::joined(all, "\\"@)
}

/// A path that starts in a directory. One with a drive or a share of its own
/// stays as it is, and one that begins with a separator starts at the drive or
/// share of the directory.
pub open spec fn joined(style: PathStyle, dir: Seq<char>, name: Seq<char>) -> Seq<char> {
    if prefix_len(style, name) > 0 {
        name
    } else if verbatim(style, dir) && name.len() > 0 {
        verbatim_joined(dir, name)
    } else if name.len() > 0 && separator(style, name[0]) {
        dir.take(prefix_len(style, dir) as int) + name
    } else if dir.len() == 0 || separator(style, dir.last()) || (dir.len() == 2 && has_drive(
        style,
        dir,
    )) {
        dir + name
    } else {
        dir.push(main_separator(style)) + name
    }
}

/// The separator that is put between names.
pub open spec fn main_separator(style: PathStyle) -> char {
    match style {
        PathStyle::Unix => '/',
        PathStyle::Windows => '\\',
    }
}

/// Where names lead from other names.
fn walk(from: Vec<String>, steps: &[String]) -> (r: Vec<String>)
    ensures
        text::texts(r@) == walked(text::texts(from@), text::texts(steps@)),
{
    broadcast use text::lemma_texts_push;

    let ghost base = text::texts(from@);
    let ghost all = text::texts(steps@);
    let mut out = from;
    let mut i: usize = 0;
    assert(all.take(0) =~= Seq::<Seq<char>>::empty());
    while i < steps.len()
        invariant
            all == text::texts(steps@),
            i <= steps@.len(),
            text::texts(out@) == walked(base, all.take(i as int)),
        decreases steps@.len() - i,
    {
        let ghost before = out@;
        proof {
            assert(all.take(i + 1).drop_last() =~= all.take(i as int));
            assert(all.take(i + 1).last() == steps@[i as int]@);
            if before.len() > 0 {
                assert(text::texts(before).last() == before.last()@);
            }
        }
        if !text::same(steps[i].as_str(), "..") {
            out.push(steps[i].clone());
        } else {
            let n: usize = out.len();
            if n > 0 && !text::same(out[n - 1].as_str(), "..") && !text::same(
                out[n - 1].as_str(),
                ".",
            ) {
                out.pop();
                assert(text::texts(out@) =~= text::texts(before).drop_last());
            }
        }
        i += 1;
    }
    assert(all.take(i as int) =~= all);
    out
}

/// A path that starts in a verbatim directory.
fn join_verbatim(dir: &str, name: &str) -> (r: String)
    requires
        name@.len() > 0,
    ensures
        r@ == verbatim_joined(dir@, name@),
{
    let style = PathStyle::Windows;
    let prefix: usize = path_prefix(style, dir);
    let d = text::chars_of(dir);
    let anew = begins_with_separator(style, name);
    let rooted = anew || (prefix < d.len() && is_separator(style, d[prefix]));
    let from = if anew {
        let none: Vec<String> = Vec::new();
        assert(text::texts(none@) =~= Seq::<Seq<char>>::empty());
        none
    } else {
        path_names(style, dir)
    };
    let steps = path_names(style, name);
    let all = walk(from, steps.as_slice());
    let mut out = text::string_between(d.as_slice(), 0, prefix);
    assert(out@ =~= dir@.take(prefix as int));
    if rooted || all.len() > 0 {
        out.append("\\");
    }
    let below = text::join(all.as_slice(), "\\");
    out.append(below.as_str());
    proof {
        assert(text::texts(all@).len() == all@.len());
        assert(out@ =~= verbatim_joined(dir@, name@));
    }
    out
}

/// A path that starts in a directory.
pub fn join(style: PathStyle, dir: &str, name: &str) -> (r: String)
    ensures
        r@ == joined(style, dir@, name@),
{
    if path_prefix(style, name) > 0 {
        return text::owned(name);
    }
    let n = text::chars_of(name);
    let d = text::chars_of(dir);
    if n.len() > 0 && is_verbatim(style, dir) {
        return join_verbatim(dir, name);
    }
    if n.len() > 0 && is_separator(style, n[0]) {
        let prefix: usize = path_prefix(style, dir);
        let start = text::string_between(d.as_slice(), 0, prefix);
        assert(start@ =~= dir@.take(prefix as int));
        return text::concat2(start.as_str(), name);
    }
    if d.len() == 0 || is_separator(style, d[d.len() - 1]) || (d.len() == 2 && begins_with_drive(
        style,
        dir,
    )) {
        return text::concat2(dir, name);
    }
    let mut out = text::owned(dir);
    out.push(
        match style {
            PathStyle::Unix => '/',
            PathStyle::Windows => '\\',
        },
    );
    out.append(name);
    out
}

/// A file name is its stem, a dot and its extension, where it has one: then
/// the last dot parts them, and it is not the first character. A name without
/// such a dot is all stem.
pub proof fn law_stems_and_extensions(name: Seq<char>)
    ensures
        extension_of(name) matches Some(e) ==> name == stem_of(name).push('.') + e && stem_of(
            name,
        ).len() > 0 && forall|i: int| 0 <= i < e.len() ==> #[trigger] e[i] != '.',
        extension_of(name) is None ==> stem_of(name) == name && forall|i: int|
            1 <= i < name.len() ==> #[trigger] name[i] != '.',
{
    lemma_last_dot(name);
    match last_dot(name) {
        Some(i) if i > 0 => {
            assert(name =~= name.take(i).push('.') + name.skip(i + 1));
        },
        _ => {},
    }
}

proof fn lemma_last_dot(name: Seq<char>)
    ensures
        match last_dot(name) {
            Some(i) => 0 <= i < name.len() && name[i] == '.' && forall|j: int|
                i < j < name.len() ==> #[trigger] name[j] != '.',
            None => forall|j: int| 0 <= j < name.len() ==> #[trigger] name[j] != '.',
        },
    decreases name.len(),
{
    if name.len() > 0 && name.last() != '.' {
        let init = name.drop_last();
        lemma_last_dot(init);
        assert forall|j: int| 0 <= j < init.len() implies init[j] == #[trigger] name[j] by {}
    }
}

/// The file that a path leads to is the last of its names, unless that leads
/// nowhere in particular.
pub proof fn law_file_names(style: PathStyle, path: Seq<char>)
    ensures
        file_name_of(style, path) matches Some(name) ==> names(style, path).len() > 0 && name
            == names(style, path).last() && name != ".."@ && name != "."@,
        file_name_of(style, path) is None ==> names(style, path).len() == 0 || names(
            style,
            path,
        ).last() == ".."@ || names(style, path).last() == "."@,
{
}

/// Among names `..` leads back over the one before it, and any other leads on.
pub proof fn law_walking(from: Seq<Seq<char>>, name: Seq<char>)
    ensures
        walked(from, seq![]) == from,
        name != ".."@ ==> walked(from, seq![name]) == from.push(name),
        from.len() > 0 && from.last() != ".."@ && from.last() != "."@ ==> walked(from, seq![".."@])
            == from.drop_last(),
        from.len() == 0 ==> walked(from, seq![".."@]) == from,
{
    assert(seq![name].drop_last() =~= Seq::<Seq<char>>::empty());
    assert(seq![".."@].drop_last() =~= Seq::<Seq<char>>::empty());
    assert(walked(from, Seq::<Seq<char>>::empty()) == from);
}

/// A plain path in a plain directory is the directory, a separator where it does
/// not end with one, and the path.
pub proof fn law_joined_texts(style: PathStyle, dir: Seq<char>, name: Seq<char>)
    requires
        prefix_len(style, name) == 0,
        !verbatim(style, dir),
        name.len() > 0,
        !separator(style, name[0]),
        dir.len() > 2,
    ensures
        separator(style, dir.last()) ==> joined(style, dir, name) == dir + name,
        !separator(style, dir.last()) && style == PathStyle::Unix ==> joined(style, dir, name)
            == dir + seq!['/'] + name,
        !separator(style, dir.last()) && style == PathStyle::Windows ==> joined(style, dir, name)
            == dir + seq!['\\'] + name,
{
    assert(dir.push('/') =~= dir + seq!['/']);
    assert(dir.push('\\') =~= dir + seq!['\\']);
}

/// Slashes separate names, and on Windows backslashes do too.
pub proof fn law_separators(c: char)
    ensures
        separator(PathStyle::Unix, c) <==> c == '/',
        separator(PathStyle::Windows, c) <==> c == '/' || c == '\\',
{
}

/// The names among the pieces of a path are those that are not empty and, unless
/// the path is verbatim, not a single dot; they keep their order.
pub proof fn law_names_are_pieces(verbatim: bool, pieces: Seq<Seq<char>>) -> (from: Seq<int>)
    ensures
        from.len() == names_of(verbatim, pieces).len(),
        forall|k: int|
            0 <= k < from.len() ==> 0 <= #[trigger] from[k] < pieces.len() && names_of(
                verbatim,
                pieces,
            )[k] == pieces[from[k]] && pieces[from[k]].len() > 0 && (verbatim || pieces[from[k]]
                != "."@),
        forall|k: int, l: int| 0 <= k < l < from.len() ==> #[trigger] from[k] < #[trigger] from[l],
        forall|i: int|
            0 <= i < pieces.len() && (#[trigger] pieces[i]).len() > 0 && (verbatim || pieces[i]
                != "."@) ==> from.contains(i),
    decreases pieces.len(),
{
    if pieces.len() == 0 {
        seq![]
    } else {
        let init = pieces.drop_last();
        let m = init.len() as int;
        let before = law_names_are_pieces(verbatim, init);
        let from = if pieces.last().len() == 0 || (!verbatim && pieces.last() == "."@) {
            before
        } else {
            before.push(m)
        };
        assert forall|i: int|
            0 <= i < pieces.len() && (#[trigger] pieces[i]).len() > 0 && (verbatim || pieces[i]
                != "."@) implies from.contains(i) by {
            if i < m {
                assert(init[i] == pieces[i]);
                let k = choose|k: int| 0 <= k < before.len() && before[k] == i;
                assert(from[k] == i);
            } else {
                assert(from[before.len() as int] == i);
            }
        }
        from
    }
}

} // verus!
