//! What the names of a joined path are.

use vstd::prelude::*;

use crate::paths;
use crate::paths::PathStyle;
use crate::text;

verus! {

proof fn lemma_names_concat(verbatim: bool, a: Seq<Seq<char>>, b: Seq<Seq<char>>)
    ensures
        paths::names_of(verbatim, a + b) == paths::names_of(verbatim, a) + paths::names_of(
            verbatim,
            b,
        ),
    decreases b.len(),
{
    if b.len() == 0 {
        assert(a + b =~= a);
        assert(paths::names_of(verbatim, a) + paths::names_of(verbatim, b) =~= paths::names_of(
            verbatim,
            a,
        ));
    } else {
        assert((a + b).drop_last() =~= a + b.drop_last());
        lemma_names_concat(verbatim, a, b.drop_last());
        assert(paths::names_of(verbatim, a + b) =~= paths::names_of(verbatim, a) + paths::names_of(
            verbatim,
            b,
        ));
    }
}

/// Every name is one of the pieces, and not empty.
pub proof fn lemma_names_among_pieces(verbatim: bool, pieces: Seq<Seq<char>>, i: int)
    requires
        0 <= i < paths::names_of(verbatim, pieces).len(),
    ensures
        paths::names_of(verbatim, pieces)[i].len() > 0,
        exists|j: int| 0 <= j < pieces.len() && pieces[j] == paths::names_of(verbatim, pieces)[i],
    decreases pieces.len(),
{
    let before = paths::names_of(verbatim, pieces.drop_last());
    if i < before.len() {
        lemma_names_among_pieces(verbatim, pieces.drop_last(), i);
        let j = choose|j: int|
            0 <= j < pieces.drop_last().len() && pieces.drop_last()[j] == before[i];
        assert(pieces[j] == paths::names_of(verbatim, pieces)[i]);
    } else {
        assert(pieces[pieces.len() - 1] == paths::names_of(verbatim, pieces)[i]);
    }
}

proof fn lemma_slashed_concat(style: PathStyle, a: Seq<char>, b: Seq<char>)
    ensures
        paths::slashed(style, a + b) == paths::slashed(style, a) + paths::slashed(style, b),
{
    assert(paths::slashed(style, a + b) =~= paths::slashed(style, a) + paths::slashed(style, b));
}

/// The pieces of a directory and those of a path in it, where the directory
/// ends with a separator.
proof fn lemma_pieces_below(style: PathStyle, dir: Seq<char>, path: Seq<char>)
    requires
        dir.len() > 0,
        paths::separator(style, dir.last()),
    ensures
        paths::pieces(style, dir) == paths::pieces(style, dir.drop_last()).push(
            Seq::<char>::empty(),
        ),
        paths::pieces(style, dir + path) == paths::pieces(style, dir.drop_last()) + paths::pieces(
            style,
            path,
        ),
{
    let front = dir.drop_last();
    let flat = paths::slashed(style, front);
    assert(paths::slashed(style, dir) =~= flat.push('/'));
    assert(flat.push('/').drop_last() =~= flat);
    lemma_slashed_concat(style, dir, path);
    text::lemma_split_concat(flat, paths::slashed(style, path), '/');
}

/// A separator at the end of a directory names nothing, and the names of a path
/// come after it.
proof fn lemma_names_below(style: PathStyle, dir: Seq<char>, path: Seq<char>)
    requires
        dir.len() > 0,
        paths::separator(style, dir.last()),
    ensures
        paths::names_of(false, paths::pieces(style, dir)) == paths::names_of(
            false,
            paths::pieces(style, dir.drop_last()),
        ),
        paths::names_of(false, paths::pieces(style, dir + path)) == paths::names_of(
            false,
            paths::pieces(style, dir),
        ) + paths::names_of(false, paths::pieces(style, path)),
{
    lemma_pieces_below(style, dir, path);
    let front = paths::pieces(style, dir.drop_last());
    assert(front.push(Seq::<char>::empty()).drop_last() =~= front);
    lemma_names_concat(false, front, paths::pieces(style, path));
}

/// Whether a directory that begins like a network share or a device names the
/// whole of one.
pub open spec fn whole_share(style: PathStyle, dir: Seq<char>) -> bool {
    (style == PathStyle::Windows && paths::begins_doubly(style, dir)) ==> if paths::verbatim(
        style,
        dir,
    ) {
        let body = dir.skip(4);
        &&& !(paths::begins_unc(body) && body.len() == 3)
        &&& paths::verbatim_share(body) ==> paths::next_name_len(true, body.skip(4)) > 0
    } else if paths::device(style, dir) {
        paths::name_len(false, dir.skip(4)) > 0
    } else {
        paths::prefix_len(style, dir) > 0
    }
}

/// A name ends where it did, whatever follows a separator.
proof fn lemma_name_cut(verbatim: bool, s: Seq<char>, t: Seq<char>)
    requires
        t.len() == 0 || paths::ends_name(verbatim, t[0]),
    ensures
        paths::name_len(verbatim, s.take(paths::name_len(verbatim, s) as int) + t)
            == paths::name_len(verbatim, s),
    decreases s.len(),
{
    let n = paths::name_len(verbatim, s) as int;
    paths::lemma_name_len(verbatim, s);
    let cut = s.take(n) + t;
    if n > 0 {
        let tail = s.drop_first();
        lemma_name_cut(verbatim, tail, t);
        assert(cut.drop_first() =~= tail.take(n - 1) + t);
        assert(cut[0] == s[0]);
    } else {
        assert(cut =~= t);
    }
}

/// A server and its share end where they did.
proof fn lemma_share_cut(verbatim: bool, s: Seq<char>, t: Seq<char>)
    requires
        t.len() == 0 || paths::ends_name(verbatim, t[0]),
        paths::next_name_len(verbatim, s) > 0,
    ensures
        ({
            let cut = s.take(paths::share_len(verbatim, s) as int) + t;
            &&& paths::name_len(verbatim, cut) == paths::name_len(verbatim, s)
            &&& paths::next_name_len(verbatim, cut) == paths::next_name_len(verbatim, s)
        }),
{
    paths::lemma_name_len(verbatim, s);
    let n = paths::share_len(verbatim, s) as int;
    let cut = s.take(n) + t;
    let a = paths::name_len(verbatim, s) as int;
    let second = s.skip(a + 1);
    let b = paths::name_len(verbatim, second) as int;
    let behind = s.subrange(a, n) + t;
    assert(cut =~= s.take(a) + behind);
    assert(behind[0] == s[a]);
    lemma_name_cut(verbatim, s, behind);
    assert(cut.skip(a + 1) =~= second.take(b) + t);
    lemma_name_cut(verbatim, second, t);
}

/// What stands behind a drive or a share has no part in it.
proof fn lemma_prefix_cut(style: PathStyle, dir: Seq<char>, t: Seq<char>)
    requires
        whole_share(style, dir),
        paths::prefix_len(style, dir) > 0,
        t.len() == 0 || paths::separator(style, t[0]) || paths::has_drive(style, dir),
        t.len() > 0 && paths::verbatim(style, dir) ==> t[0] == '\\',
    ensures
        paths::prefix_len(style, dir.take(paths::prefix_len(style, dir) as int) + t)
            == paths::prefix_len(style, dir),
        paths::verbatim(style, dir.take(paths::prefix_len(style, dir) as int) + t)
            == paths::verbatim(style, dir),
{
    paths::lemma_prefix_len(style, dir);
    let k = paths::prefix_len(style, dir) as int;
    let cut = dir.take(k) + t;
    assert(forall|i: int| 0 <= i < k ==> cut[i] == dir[i]);
    if paths::verbatim(style, dir) {
        let body = dir.skip(4);
        let cut_body = cut.skip(4);
        assert(forall|i: int| 0 <= i < k - 4 ==> cut_body[i] == body[i]);
        if paths::verbatim_share(body) {
            let s = body.skip(4);
            assert(cut_body.skip(4) =~= s.take(paths::share_len(true, s) as int) + t);
            lemma_share_cut(true, s, t);
        } else if paths::verbatim_drive(body) {
            assert(t.len() > 0 ==> cut_body[2] == t[0]);
        } else {
            let n = paths::name_len(true, body) as int;
            paths::lemma_name_len(true, body);
            assert(cut_body =~= body.take(n) + t);
            lemma_name_cut(true, body, t);
            assert(t.len() > 0 ==> cut_body[n] == t[0]);
            assert(!paths::verbatim_share(cut_body));
            assert(!paths::verbatim_drive(cut_body));
        }
    } else if paths::device(style, dir) {
        let body = dir.skip(4);
        assert(cut.skip(4) =~= body.take(paths::name_len(false, body) as int) + t);
        lemma_name_cut(false, body, t);
    } else if !paths::has_drive(style, dir) {
        let s = dir.skip(2);
        assert(cut.skip(2) =~= s.take(paths::share_len(false, s) as int) + t);
        lemma_share_cut(false, s, t);
    }
}

/// Where a drive or a share ends: it does not end with a separator, and what
/// follows a share begins with one.
proof fn lemma_prefix_end(style: PathStyle, dir: Seq<char>)
    requires
        whole_share(style, dir),
        !paths::verbatim(style, dir),
        paths::prefix_len(style, dir) > 0,
    ensures
        !paths::separator(style, dir[paths::prefix_len(style, dir) - 1]),
        paths::prefix_len(style, dir) < dir.len() && !paths::has_drive(style, dir)
            ==> paths::separator(style, dir[paths::prefix_len(style, dir) as int]),
{
    paths::lemma_prefix_len(style, dir);
    let k = paths::prefix_len(style, dir) as int;
    if paths::device(style, dir) {
        let body = dir.skip(4);
        paths::lemma_name_len(false, body);
        assert(body[k - 5] == dir[k - 1]);
        assert(k < dir.len() ==> body[k - 4] == dir[k]);
    } else if !paths::has_drive(style, dir) {
        let s = dir.skip(2);
        paths::lemma_name_len(false, s);
        let a = paths::name_len(false, s) as int;
        let second = s.skip(a + 1);
        paths::lemma_name_len(false, second);
        let b = paths::name_len(false, second) as int;
        assert(second[b - 1] == dir[k - 1]);
        assert(k < dir.len() ==> second[b] == dir[k]);
    }
}

/// A directory that ends with a separator, or that is given one, and a path in
/// it.
proof fn lemma_plain_joined(style: PathStyle, dir: Seq<char>, path: Seq<char>, closed: Seq<char>)
    requires
        whole_share(style, dir),
        !paths::verbatim(style, dir),
        dir.len() > 0,
        path.len() > 0,
        !paths::separator(style, path[0]),
        paths::prefix_len(style, path) == 0,
        closed == (if paths::separator(style, dir.last()) {
            dir
        } else {
            dir.push(paths::main_separator(style))
        }),
    ensures
        paths::names(style, closed + path) == paths::names(style, dir) + paths::names(style, path),
{
    paths::lemma_prefix_len(style, dir);
    let k = paths::prefix_len(style, dir) as int;
    let whole = closed + path;
    let below = closed.skip(k);
    assert(path.skip(0) =~= path);
    if k > 0 {
        lemma_prefix_end(style, dir);
        let t = below + path;
        assert(whole =~= dir.take(k) + t);
        if k < dir.len() {
            assert(t[0] == dir[k]);
        } else {
            assert(t[0] == paths::main_separator(style));
        }
        lemma_prefix_cut(style, dir, t);
    } else {
        assert(whole[0] == dir[0]);
        if dir.len() > 1 {
            assert(whole[1] == dir[1]);
        } else if closed.len() > 1 {
            assert(whole[1] == paths::main_separator(style));
        } else {
            assert(whole[1] == path[0]);
        }
        assert(paths::prefix_len(style, whole) == 0);
    }
    assert(whole.skip(k) =~= below + path);
    assert(below.len() > 0);
    assert(below.last() == closed.last());
    lemma_names_below(style, below, path);
    if !paths::separator(style, dir.last()) {
        assert(below.drop_last() =~= dir.skip(k));
    }
}

proof fn lemma_no_names(style: PathStyle, s: Seq<char>)
    requires
        s.len() == 0,
    ensures
        paths::names_of(false, paths::pieces(style, s)) == Seq::<Seq<char>>::empty(),
        paths::names_of(true, text::split_on(s, '\\')) == Seq::<Seq<char>>::empty(),
{
    let one = seq![Seq::<char>::empty()];
    assert(paths::slashed(style, s) =~= Seq::<char>::empty());
    assert(one.drop_last() =~= Seq::<Seq<char>>::empty());
    assert(paths::names_of(false, one.drop_last()) == Seq::<Seq<char>>::empty());
    assert(paths::names_of(true, one.drop_last()) == Seq::<Seq<char>>::empty());
}

/// Without `..`, names lead on from where they start.
proof fn lemma_walked(from: Seq<Seq<char>>, steps: Seq<Seq<char>>)
    requires
        forall|i: int| 0 <= i < steps.len() ==> #[trigger] steps[i] != ".."@,
    ensures
        paths::walked(from, steps) == from + steps,
    decreases steps.len(),
{
    if steps.len() == 0 {
        assert(from + steps =~= from);
    } else {
        let init = steps.drop_last();
        assert forall|i: int| 0 <= i < init.len() implies #[trigger] init[i] != ".."@ by {
            assert(steps[i] != ".."@);
        }
        lemma_walked(from, init);
        assert(steps[steps.len() - 1] == steps.last());
        assert((from + init).push(steps.last()) =~= from + steps);
    }
}

/// Pieces that are not empty are names.
proof fn lemma_all_names(pieces: Seq<Seq<char>>)
    requires
        forall|i: int| 0 <= i < pieces.len() ==> (#[trigger] pieces[i]).len() > 0,
    ensures
        paths::names_of(true, pieces) == pieces,
    decreases pieces.len(),
{
    if pieces.len() > 0 {
        let init = pieces.drop_last();
        assert forall|i: int| 0 <= i < init.len() implies (#[trigger] init[i]).len() > 0 by {
            assert(pieces[i].len() > 0);
        }
        lemma_all_names(init);
        assert(pieces[pieces.len() - 1] == pieces.last());
        assert(init.push(pieces.last()) =~= pieces);
    } else {
        assert(paths::names_of(true, pieces) =~= pieces);
    }
}

/// A name of a Windows path is not empty and holds no `\`.
proof fn lemma_name_is_plain(path: Seq<char>, i: int)
    requires
        0 <= i < paths::names(PathStyle::Windows, path).len(),
    ensures
        paths::names(PathStyle::Windows, path)[i].len() > 0,
        forall|c: int|
            0 <= c < paths::names(PathStyle::Windows, path)[i].len() ==> #[trigger] paths::names(
                PathStyle::Windows,
                path,
            )[i][c] != '\\',
{
    let style = PathStyle::Windows;
    let rest = path.skip(paths::prefix_len(style, path) as int);
    let name = paths::names(style, path)[i];
    if paths::verbatim(style, path) {
        let s = paths::after_root(style, rest);
        let pieces = text::split_on(s, '\\');
        lemma_names_among_pieces(true, pieces, i);
        let j = choose|j: int|
            0 <= j < pieces.len() && pieces[j] == paths::names_of(true, pieces)[i];
        text::lemma_split_chars(s, '\\');
        assert forall|c: int| 0 <= c < name.len() implies #[trigger] name[c] != '\\' by {
            assert(pieces[j][c] != '\\');
        }
    } else {
        let s = paths::slashed(style, rest);
        let pieces = text::split_on(s, '/');
        lemma_names_among_pieces(false, pieces, i);
        let j = choose|j: int|
            0 <= j < pieces.len() && pieces[j] == paths::names_of(false, pieces)[i];
        text::lemma_split_chars(s, '/');
        assert forall|c: int| 0 <= c < name.len() implies #[trigger] name[c] != '\\' by {
            assert(pieces[j][c] != '/');
            assert(s.contains(pieces[j][c]));
        }
    }
}

proof fn lemma_verbatim_joined(dir: Seq<char>, path: Seq<char>)
    requires
        whole_share(PathStyle::Windows, dir),
        paths::verbatim(PathStyle::Windows, dir),
        path.len() > 0,
        !paths::separator(PathStyle::Windows, path[0]),
        forall|i: int|
            0 <= i < paths::names(PathStyle::Windows, path).len() ==> #[trigger] paths::names(
                PathStyle::Windows,
                path,
            )[i] != ".."@,
    ensures
        paths::names(PathStyle::Windows, paths::verbatim_joined(dir, path)) == paths::names(
            PathStyle::Windows,
            dir,
        ) + paths::names(PathStyle::Windows, path),
        paths::verbatim_joined(dir, path).take(
            paths::prefix_len(PathStyle::Windows, dir) as int,
        ) == dir.take(paths::prefix_len(PathStyle::Windows, dir) as int),
{
    let style = PathStyle::Windows;
    paths::lemma_prefix_len(style, dir);
    let k = paths::prefix_len(style, dir) as int;
    let before = paths::names(style, dir);
    let steps = paths::names(style, path);
    lemma_walked(before, steps);
    let all = before + steps;
    let whole = paths::verbatim_joined(dir, path);
    let list = text::joined(all, "\\"@);
    reveal_strlit("\\");
    assert("\\"@ =~= seq!['\\']);
    let t = whole.skip(k);
    assert(whole.take(k) =~= dir.take(k));
    assert(whole =~= dir.take(k) + t);
    let rooted = k < dir.len() && paths::separator(style, dir[k]);
    assert(t =~= (if rooted || all.len() > 0 {
        "\\"@
    } else {
        Seq::empty()
    }) + list);
    lemma_prefix_cut(style, dir, t);
    if all.len() == 0 {
        assert(paths::after_root(style, t) =~= Seq::<char>::empty());
        lemma_no_names(style, Seq::<char>::empty());
        assert(paths::names(style, whole) =~= all);
    } else {
        assert(paths::after_root(style, t) =~= list);
        assert forall|j: int| 0 <= j < all.len() implies (#[trigger] all[j]).len() > 0 && (forall|
            i: int,
        |
            0 <= i < all[j].len() ==> #[trigger] all[j][i] != '\\') by {
            if j < before.len() {
                lemma_name_is_plain(dir, j);
            } else {
                lemma_name_is_plain(path, j - before.len());
            }
        }
        text::lemma_split_joined(all, '\\');
        lemma_all_names(all);
    }
}

/// A joined path goes through the names of the directory and then through those
/// of the path in it. In a verbatim directory that holds of paths without `..`,
/// which is taken out there. The directory is not the mere beginning of a
/// network share, which the path would complete.
pub proof fn law_joined_names(style: PathStyle, dir: Seq<char>, path: Seq<char>)
    requires
        whole_share(style, dir),
        path.len() > 0,
        !paths::separator(style, path[0]),
        paths::prefix_len(style, path) == 0,
        paths::verbatim(style, dir) ==> forall|i: int|
            0 <= i < paths::names(style, path).len() ==> #[trigger] paths::names(style, path)[i]
                != ".."@,
    ensures
        paths::names(style, paths::joined(style, dir, path)) == paths::names(style, dir)
            + paths::names(style, path),
        paths::joined(style, dir, path).take(paths::prefix_len(style, dir) as int) == dir.take(
            paths::prefix_len(style, dir) as int,
        ),
{
    paths::lemma_prefix_len(style, dir);
    assert(path.skip(0) =~= path);
    if paths::verbatim(style, dir) {
        lemma_verbatim_joined(dir, path);
    } else if dir.len() == 0 {
        assert(dir + path =~= path);
        assert(dir.skip(0) =~= dir);
        lemma_no_names(style, dir);
        assert(paths::names(style, dir) + paths::names(style, path) =~= paths::names(style, path));
    } else if !paths::separator(style, dir.last()) && dir.len() == 2 && paths::has_drive(
        style,
        dir,
    ) {
        let whole = dir + path;
        assert(dir.take(2) =~= dir);
        lemma_prefix_cut(style, dir, path);
        assert(whole.skip(2) =~= path);
        assert(dir.skip(2) =~= Seq::<char>::empty());
        lemma_no_names(style, dir.skip(2));
        assert(paths::names(style, dir) + paths::names(style, path) =~= paths::names(style, path));
    } else {
        let closed = if paths::separator(style, dir.last()) {
            dir
        } else {
            dir.push(paths::main_separator(style))
        };
        lemma_plain_joined(style, dir, path, closed);
    }
    let k = paths::prefix_len(style, dir) as int;
    if !paths::verbatim(style, dir) {
        assert(paths::joined(style, dir, path).take(k) =~= dir.take(k));
    }
}

} // verus!
