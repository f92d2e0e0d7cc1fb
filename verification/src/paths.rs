//! Path rules on `/`-separated paths: workspace names that are a single
//! directory, the last name of a path, and joining a name onto a path.

use vstd::prelude::*;
use vstd::string::*;

use crate::text::{
    chars_of, lemma_split_concat, lemma_split_nonempty, lemma_split_single_iff, message, push_chars,
    split, split_chars,
    views,
};

verus! {

/// The error for an empty project name.
pub open spec fn empty_project_message() -> Seq<char> {
    "project name cannot be empty."@
}

/// The error for a project name that is not a single directory name.
pub open spec fn invalid_project_message(project: Seq<char>) -> Seq<char> {
    "invalid project name `"@ + project + "`; use a single directory name."@
}

/// The error for a path that names no workspace.
pub open spec fn workspace_name_message(path: Seq<char>) -> Seq<char> {
    "could not determine workspace name from `"@ + path + "`."@
}

/// A piece of a path that names nothing: empty (from a repeated or
/// trailing `/`) or `.`.
pub open spec fn is_empty_component(piece: Seq<char>) -> bool {
    piece.len() == 0 || piece == seq!['.']
}

/// A path whose components are exactly one normal name: its first piece is
/// a name (not empty, which would be the root, nor `.` or `..`), and every
/// later piece names nothing.
pub open spec fn is_single_normal_component(p: Seq<char>) -> bool {
    let pieces = split(p, '/');
    &&& pieces[0].len() > 0
    &&& pieces[0] != seq!['.']
    &&& pieces[0] != seq!['.', '.']
    &&& forall|i: int| 1 <= i < pieces.len() ==> is_empty_component(#[trigger] pieces[i])
}

/// What [`validate_project_name`] gives.
pub open spec fn spec_validate_project_name(project: Seq<char>) -> Result<(), Seq<char>> {
    if project.len() == 0 {
        Err(empty_project_message())
    } else if !is_single_normal_component(project) || project.contains('\\') {
        Err(invalid_project_message(project))
    } else {
        Ok(())
    }
}

/// The last piece of `pieces` that names something.
pub open spec fn last_named_piece(pieces: Seq<Seq<char>>) -> Option<Seq<char>>
    decreases pieces.len(),
{
    if pieces.len() == 0 {
        None
    } else if is_empty_component(pieces.last()) {
        last_named_piece(pieces.drop_last())
    } else {
        Some(pieces.last())
    }
}

/// The final name of a path (`Path::file_name`): none for a path that
/// ends in `..`, is the root, or names nothing.
pub open spec fn file_name(path: Seq<char>) -> Option<Seq<char>> {
    match last_named_piece(split(path, '/')) {
        Some(name) => if name == seq!['.', '.'] {
            None
        } else {
            Some(name)
        },
        None => None,
    }
}

/// What [`workspace_name`] gives.
pub open spec fn spec_workspace_name(path: Seq<char>) -> Result<Seq<char>, Seq<char>> {
    match file_name(path) {
        Some(name) => Ok(name),
        None => Err(workspace_name_message(path)),
    }
}

/// `name` joined onto `base` (`Path::join`): an absolute `name` stands
/// alone; otherwise a `/` separates them unless `base` is empty or already
/// ends with one.
pub open spec fn join_path(base: Seq<char>, name: Seq<char>) -> Seq<char> {
    if name.len() > 0 && name[0] == '/' {
        name
    } else if base.len() == 0 || base.last() == '/' {
        base + name
    } else {
        base + seq!['/'] + name
    }
}

/// A project name is accepted only when it is one normal directory name
/// without a backslash, so that joining it onto the workspace root never
/// leaves the root.
pub fn validate_project_name(project: &str) -> (res: Result<(), String>)
    ensures
        match spec_validate_project_name(project@) {
            Ok(_) => res is Ok,
            Err(e) => res matches Err(m) && m@ == e,
        },
{
    let p = chars_of(project);
    if p.len() == 0 {
        return Err("project name cannot be empty.".to_owned());
    }
    let pieces = split_chars(&p, '/');
    proof {
        lemma_split_nonempty(p@, '/');
        assert(views(pieces@)[0] == pieces@[0]@);
    }
    let first = &pieces[0];
    let mut single = first.len() > 0 && !(first.len() == 1 && first[0] == '.') && !(first.len()
        == 2 && first[0] == '.' && first[1] == '.');
    proof {
        if first@.len() == 1 && first@[0] == '.' {
            assert(first@ == seq!['.']);
        }
        if first@.len() == 2 && first@[0] == '.' && first@[1] == '.' {
            assert(first@ == seq!['.', '.']);
        }
    }
    let n = pieces.len();
    let mut i: usize = 1;
    while i < n
        invariant
            1 <= i <= n,
            n == pieces@.len(),
            views(pieces@) == split(p@, '/'),
            single ==> forall|k: int| 1 <= k < i ==> is_empty_component(#[trigger] split(p@, '/')[k]),
            single == (pieces@[0]@.len() > 0 && pieces@[0]@ != seq!['.'] && pieces@[0]@ != seq![
                '.',
                '.',
            ] && forall|k: int| 1 <= k < i ==> is_empty_component(#[trigger] split(p@, '/')[k])),
        decreases n - i,
    {
        let piece = &pieces[i];
        assert(views(pieces@)[i as int] == piece@);
        let empty = piece.len() == 0 || (piece.len() == 1 && piece[0] == '.');
        proof {
            if piece@.len() == 1 && piece@[0] == '.' {
                assert(piece@ == seq!['.']);
            }
        }
        if !empty {
            single = false;
        }
        i += 1;
    }
    if !single || crate::text::contains_char(&p, '\\') {
        return Err(message("invalid project name `", &p, "`; use a single directory name."));
    }
    Ok(())
}

/// The name of the workspace at `path`: its final name.
pub fn workspace_name(path: &str) -> (res: Result<String, String>)
    ensures
        match spec_workspace_name(path@) {
            Ok(name) => res matches Ok(s) && s@ == name,
            Err(e) => res matches Err(m) && m@ == e,
        },
{
    let p = chars_of(path);
    let pieces = split_chars(&p, '/');
    let ghost pv = views(pieces@);
    let mut k: usize = pieces.len();
    assert(pv.take(k as int) == pv);
    while k > 0 && (pieces[k - 1].len() == 0 || (pieces[k - 1].len() == 1 && pieces[k - 1][0]
        == '.'))
        invariant
            k <= pieces@.len(),
            pv == views(pieces@),
            pv == split(p@, '/'),
            last_named_piece(pv.take(k as int)) == last_named_piece(pv),
        decreases k,
    {
        assert(pv[k - 1] == pieces@[k - 1]@);
        proof {
            if pieces@[k - 1]@.len() == 1 {
                assert(pieces@[k - 1]@ == seq!['.']);
            }
        }
        assert(pv.take(k as int).drop_last() == pv.take(k - 1));
        k -= 1;
    }
    if k == 0 {
        assert(pv.take(0) == Seq::<Seq<char>>::empty());
        return Err(message("could not determine workspace name from `", &p, "`."));
    }
    let last = &pieces[k - 1];
    assert(pv[k - 1] == last@);
    proof {
        assert(!(last@.len() == 1 && last@[0] == '.'));
        if last@ == seq!['.'] {
            assert(last@[0] == '.');
        }
    }
    if last.len() == 2 && last[0] == '.' && last[1] == '.' {
        assert(last@ == seq!['.', '.']);
        return Err(message("could not determine workspace name from `", &p, "`."));
    }
    let mut name = String::new();
    push_chars(&mut name, last.as_slice());
    assert(name@ == last@);
    Ok(name)
}

/// `name` joined onto `base` as `Path::join` does.
pub fn join_path_chars(base: &[char], name: &[char]) -> (res: String)
    ensures
        res@ == join_path(base@, name@),
{
    let mut out = String::new();
    if name.len() > 0 && name[0] == '/' {
        push_chars(&mut out, name);
        return out;
    }
    push_chars(&mut out, base);
    if !(base.len() == 0 || base[base.len() - 1] == '/') {
        out.append("/");
        proof {
            reveal_strlit("/");
        }
    }
    push_chars(&mut out, name);
    out
}

/// `name` joined onto `base` as `Path::join` does.
pub fn join_path_str(base: &str, name: &str) -> (res: String)
    ensures
        res@ == join_path(base@, name@),
{
    let b = chars_of(base);
    let n = chars_of(name);
    join_path_chars(&b, &n)
}

/// The pieces of a split path that name something.
pub open spec fn named_pieces(pieces: Seq<Seq<char>>) -> Seq<Seq<char>>
    decreases pieces.len(),
{
    if pieces.len() == 0 {
        Seq::empty()
    } else {
        let rest = named_pieces(pieces.drop_last());
        if is_empty_component(pieces.last()) {
            rest
        } else {
            rest.push(pieces.last())
        }
    }
}

/// The components of a path, as `Path::components` yields them: `/` for
/// the root, `.` for a leading current directory, then each piece that
/// names something (`..` included).
pub open spec fn components(p: Seq<char>) -> Seq<Seq<char>> {
    let pieces = split(p, '/');
    let head: Seq<Seq<char>> = if p.len() > 0 && p[0] == '/' {
        seq![seq!['/']]
    } else if pieces[0] == seq!['.'] {
        seq![seq!['.']]
    } else {
        Seq::empty()
    };
    head + named_pieces(pieces)
}

/// A component that is a name: not the root, `.` or `..`.
pub open spec fn is_normal_component(c: Seq<char>) -> bool {
    c != seq!['/'] && c != seq!['.'] && c != seq!['.', '.']
}

proof fn lemma_split_first_piece(s: Seq<char>, sep: char)
    requires
        s.len() > 0,
    ensures
        split(s, sep)[0].len() > 0 <==> s[0] != sep,
        split(s, sep)[0].len() > 0 ==> split(s, sep)[0][0] == s[0],
    decreases s.len(),
{
    let d = s.drop_last();
    lemma_split_nonempty(d, sep);
    if s.len() == 1 {
        assert(d =~= Seq::<char>::empty());
        assert(s.last() == s[0]);
    } else {
        lemma_split_first_piece(d, sep);
        lemma_split_single_iff(d, sep);
        let p = split(d, sep);
        if s.last() != sep && p.len() == 1 {
            assert(p[0] == d);
            assert(d[0] == s[0]);
            if s[0] == sep {
                assert(d.contains(sep));
            }
            assert(p[0].push(s.last())[0] == s[0]);
        }
    }
}

proof fn lemma_named_pieces_concat(a: Seq<Seq<char>>, b: Seq<Seq<char>>)
    ensures
        named_pieces(a + b) == named_pieces(a) + named_pieces(b),
    decreases b.len(),
{
    if b.len() == 0 {
        assert(a + b == a);
        assert(named_pieces(a) + named_pieces(b) == named_pieces(a));
    } else {
        assert((a + b).drop_last() == a + b.drop_last());
        assert((a + b).last() == b.last());
        lemma_named_pieces_concat(a, b.drop_last());
        if !is_empty_component(b.last()) {
            assert(named_pieces(a) + named_pieces(b.drop_last()).push(b.last()) == (named_pieces(a)
                + named_pieces(b.drop_last())).push(b.last()));
        }
    }
}

proof fn lemma_named_pieces_none(s: Seq<Seq<char>>)
    ensures
        named_pieces(s).len() == 0 <==> forall|i: int| 0 <= i < s.len() ==> is_empty_component(#[trigger] s[i]),
    decreases s.len(),
{
    if s.len() > 0 {
        lemma_named_pieces_none(s.drop_last());
        if named_pieces(s).len() == 0 {
            assert forall|i: int| 0 <= i < s.len() implies is_empty_component(#[trigger] s[i]) by {
                if i < s.len() - 1 {
                    assert(s.drop_last()[i] == s[i]);
                }
            }
        }
        if forall|i: int| 0 <= i < s.len() ==> is_empty_component(#[trigger] s[i]) {
            assert forall|i: int| 0 <= i < s.drop_last().len() implies is_empty_component(
                #[trigger] s.drop_last()[i],
            ) by {
                assert(s.drop_last()[i] == s[i]);
            }
            assert(is_empty_component(s[s.len() - 1]));
        }
    }
}

/// A project name is accepted exactly when, as a path, it is one normal
/// component (not the root, `.` or `..`) and holds no backslash: joined
/// onto the workspace root it names a direct child of the root.
pub proof fn lemma_project_name_is_one_component(project: Seq<char>)
    ensures
        spec_validate_project_name(project) is Ok <==> ({
            let c = components(project);
            &&& c.len() == 1
            &&& is_normal_component(c[0])
            &&& !project.contains('\\')
        }),
{
    let pieces = split(project, '/');
    lemma_split_nonempty(project, '/');
    let first = seq![pieces[0]];
    let rest = pieces.skip(1);
    assert(pieces == first + rest);
    lemma_named_pieces_concat(first, rest);
    assert(first.drop_last() =~= Seq::<Seq<char>>::empty());
    assert(named_pieces(first.drop_last()) =~= Seq::<Seq<char>>::empty());
    assert(first.last() == pieces[0]);
    lemma_named_pieces_none(rest);
    assert forall|i: int| 0 <= i < rest.len() implies rest[i] == #[trigger] pieces[i + 1] by {}
    if project.len() == 0 {
        assert(pieces =~= seq![Seq::<char>::empty()]);
        lemma_named_pieces_none(pieces);
        assert(is_empty_component(pieces[0]));
        assert(named_pieces(pieces).len() == 0);
        assert(components(project) =~= Seq::<Seq<char>>::empty());
    } else {
        lemma_split_first_piece(project, '/');
        if spec_validate_project_name(project) is Ok {
            assert forall|i: int| 0 <= i < rest.len() implies is_empty_component(#[trigger] rest[i]) by {
                assert(rest[i] == pieces[i + 1]);
            }
            assert(!is_empty_component(pieces[0]));
            assert(named_pieces(first) =~= seq![pieces[0]]);
            assert(named_pieces(rest) =~= Seq::<Seq<char>>::empty());
            assert(named_pieces(pieces) =~= seq![pieces[0]]);
            assert(components(project) =~= seq![pieces[0]]);
        }
        let c = components(project);
        if c.len() == 1 && is_normal_component(c[0]) && !project.contains('\\') {
            if project[0] == '/' {
                assert(c[0] == seq!['/']);
            }
            if pieces[0] == seq!['.'] {
                assert(c[0] == seq!['.']);
            }
            assert(!is_empty_component(pieces[0]));
            assert(named_pieces(first) == seq![pieces[0]]);
            assert(named_pieces(rest).len() == 0);
            assert forall|i: int| 1 <= i < pieces.len() implies is_empty_component(#[trigger] pieces[i]) by {
                assert(pieces[i] == rest[i - 1]);
            }
            assert(c[0] == pieces[0]);
        }
    }
}

/// The last named piece of pieces that end with a name is that name.
proof fn lemma_last_named_piece_push(pieces: Seq<Seq<char>>, name: Seq<char>)
    requires
        !is_empty_component(name),
    ensures
        last_named_piece(pieces.push(name)) == Some(name),
{
    assert(pieces.push(name).last() == name);
}

/// An accepted project name without `/`, joined onto any root, is the
/// workspace name of the path it makes.
pub proof fn lemma_workspace_name_of_joined(root: Seq<char>, name: Seq<char>)
    requires
        spec_validate_project_name(name) is Ok,
        !name.contains('/'),
    ensures
        spec_workspace_name(join_path(root, name)) == Ok::<Seq<char>, Seq<char>>(name),
{
    lemma_split_single_iff(name, '/');
    let pieces = split(name, '/');
    assert(pieces.len() == 1 && pieces[0] == name);
    assert(name.len() > 0);
    assert(name[0] != '/') by {
        if name[0] == '/' {
            assert(name.contains('/'));
        }
    }
    assert(!is_empty_component(name));
    let joined = join_path(root, name);
    if root.len() == 0 {
        assert(joined == name);
        assert(pieces == Seq::<Seq<char>>::empty().push(name));
        lemma_last_named_piece_push(Seq::<Seq<char>>::empty(), name);
    } else {
        let base = if root.last() == '/' {
            root.drop_last()
        } else {
            root
        };
        if root.last() == '/' {
            assert(root == root.drop_last() + seq!['/']);
        }
        assert(joined == base + seq!['/'] + name);
        lemma_split_concat(base, name, '/');
        assert(split(joined, '/') == split(base, '/').push(name));
        lemma_last_named_piece_push(split(base, '/'), name);
    }
}

/// What [`current_workspace`] gives: the workspace whose name is the first
/// component of `current` below `root`, joined onto `root`.
pub open spec fn spec_current_workspace(root: Seq<char>, current: Seq<char>) -> Option<Seq<char>> {
    let r = components(root);
    let c = components(current);
    if r.len() < c.len() && c.take(r.len() as int) == r && is_normal_component(c[r.len() as int]) {
        Some(join_path(root, c[r.len() as int]))
    } else {
        None
    }
}

fn is_empty_piece(piece: &[char]) -> (res: bool)
    ensures
        res == is_empty_component(piece@),
{
    let res = piece.len() == 0 || (piece.len() == 1 && piece[0] == '.');
    proof {
        if piece@.len() == 1 && piece@[0] == '.' {
            assert(piece@ == seq!['.']);
        }
        if piece@ == seq!['.'] {
            assert(piece@[0] == '.');
        }
    }
    res
}

fn components_of(p: &[char]) -> (res: Vec<Vec<char>>)
    ensures
        views(res@) == components(p@),
{
    let pieces = split_chars(p, '/');
    proof {
        lemma_split_nonempty(p@, '/');
    }
    assert(views(pieces@)[0] == pieces@[0]@);
    let mut res: Vec<Vec<char>> = Vec::new();
    if p.len() > 0 && p[0] == '/' {
        let mut root: Vec<char> = Vec::new();
        root.push('/');
        res.push(root);
        assert(views(res@) =~= seq![seq!['/']]);
    } else if pieces[0].len() == 1 && pieces[0][0] == '.' {
        let mut cur: Vec<char> = Vec::new();
        cur.push('.');
        res.push(cur);
        assert(views(res@) =~= seq![seq!['.']]);
    } else {
        assert(views(res@) =~= Seq::<Seq<char>>::empty());
    }
    proof {
        if pieces@[0]@.len() == 1 && pieces@[0]@[0] == '.' {
            assert(pieces@[0]@ == seq!['.']);
        }
        if pieces@[0]@ == seq!['.'] {
            assert(pieces@[0]@[0] == '.');
        }
    }
    let ghost head = views(res@);
    let ghost pv = views(pieces@);
    let n = pieces.len();
    assert(pv.take(0) == Seq::<Seq<char>>::empty());
    assert(head + named_pieces(pv.take(0)) == head);
    for i in 0..n
        invariant
            n == pieces@.len(),
            pv == views(pieces@),
            views(res@) == head + named_pieces(pv.take(i as int)),
    {
        assert(pv.take(i + 1).drop_last() == pv.take(i as int));
        assert(pv[i as int] == pieces@[i as int]@);
        if !is_empty_piece(pieces[i].as_slice()) {
            let piece = crate::text::slice_chars(pieces[i].as_slice(), 0, pieces[i].len());
            assert(piece@ == pv[i as int]);
            assert(pv.take(i + 1).last() == pv[i as int]);
            assert(named_pieces(pv.take(i + 1)) == named_pieces(pv.take(i as int)).push(pv[i as int]));
            let ghost before = views(res@);
            res.push(piece);
            assert(views(res@) == before.push(piece@));
            assert(views(res@) =~= head + named_pieces(pv.take(i + 1)));
        }
    }
    assert(pv.take(n as int) == pv);
    res
}

/// The workspace that the directory `current` lies in, below the
/// workspace root `root` (both as `fs::canonicalize` gives them): `root`
/// joined with the first name of `current` below it; `None` when `current`
/// is not below `root`.
pub fn current_workspace(root: &str, current: &str) -> (res: Option<String>)
    ensures
        match spec_current_workspace(root@, current@) {
            Some(path) => res matches Some(s) && s@ == path,
            None => res is None,
        },
{
    let rp = chars_of(root);
    let cp = chars_of(current);
    let r = components_of(&rp);
    let c = components_of(&cp);
    let ghost rv = views(r@);
    let ghost cv = views(c@);
    assert(rv == components(root@));
    assert(cv == components(current@));
    if r.len() >= c.len() {
        return None;
    }
    let n = r.len();
    for i in 0..n
        invariant
            n == r@.len(),
            n < c@.len(),
            rv == views(r@),
            cv == views(c@),
            rv == components(root@),
            cv == components(current@),
            forall|k: int| 0 <= k < i ==> cv[k] == rv[k],
    {
        assert(rv[i as int] == r@[i as int]@);
        assert(cv[i as int] == c@[i as int]@);
        if !crate::text::chars_equal(c[i].as_slice(), r[i].as_slice()) {
            assert(cv.take(n as int)[i as int] != rv[i as int]);
            return None;
        }
    }
    assert(cv.take(n as int) == rv);
    let name = &c[n];
    assert(cv[n as int] == name@);
    let normal = !(name.len() == 1 && (name[0] == '/' || name[0] == '.')) && !(name.len() == 2
        && name[0] == '.' && name[1] == '.');
    proof {
        if name@.len() == 1 {
            if name@[0] == '/' {
                assert(name@ == seq!['/']);
            }
            if name@[0] == '.' {
                assert(name@ == seq!['.']);
            }
        }
        if name@.len() == 2 && name@[0] == '.' && name@[1] == '.' {
            assert(name@ == seq!['.', '.']);
        }
        if name@ == seq!['/'] || name@ == seq!['.'] {
            assert(name@[0] == '/' || name@[0] == '.');
        }
        if name@ == seq!['.', '.'] {
            assert(name@[0] == '.' && name@[1] == '.');
        }
    }
    if !normal {
        return None;
    }
    Some(join_path_chars(&rp, name.as_slice()))
}

} // verus!
