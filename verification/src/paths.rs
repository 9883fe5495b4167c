//! Paths as texts with slashes, as Unix has them: their names, their extensions and their
//! components.

use crate::text::{chars_of, split, split_text, str_eq, text_of, views};
use vstd::prelude::*;

verus! {

/// A path without the slashes and the single dots behind its last name.
pub open spec fn trim_path(path: Seq<char>) -> Seq<char>
    decreases path.len(),
{
    if path.len() > 1 && path.last() == '/' {
        trim_path(path.drop_last())
    } else if path.len() > 1 && path.last() == '.' && path[path.len() - 2] == '/' {
        trim_path(path.drop_last())
    } else {
        path
    }
}

/// Where the last name of a path begins: behind its last slash.
pub open spec fn name_start(path: Seq<char>) -> nat
    decreases path.len(),
{
    if path.len() == 0 || path.last() == '/' {
        path.len()
    } else {
        name_start(path.drop_last())
    }
}

/// The last name of a path; the root, `.` and `..` have none.
pub open spec fn file_name(path: Seq<char>) -> Option<Seq<char>> {
    let t = trim_path(path);
    let name = t.skip(name_start(t) as int);
    if name.len() == 0 || name == "."@ || name == ".."@ {
        None
    } else {
        Some(name)
    }
}

/// Where the last dot of a name stands, or minus one.
pub open spec fn last_dot(name: Seq<char>) -> int
    decreases name.len(),
{
    if name.len() == 0 {
        -1
    } else if name.last() == '.' {
        name.len() - 1
    } else {
        last_dot(name.drop_last())
    }
}

/// A name up to its last dot. A dot at its start belongs to the name.
pub open spec fn stem(name: Seq<char>) -> Seq<char> {
    if last_dot(name) > 0 {
        name.take(last_dot(name))
    } else {
        name
    }
}

/// What stands behind the last dot of a path's name, where there is one that is not at
/// the start.
pub open spec fn extension(path: Seq<char>) -> Option<Seq<char>> {
    match file_name(path) {
        Some(name) => if last_dot(name) > 0 {
            Some(name.skip(last_dot(name) + 1))
        } else {
            None
        },
        None => None,
    }
}

/// A path with another extension; a path without a name stays.
pub open spec fn with_extension(path: Seq<char>, ext: Seq<char>) -> Seq<char> {
    let t = trim_path(path);
    match file_name(path) {
        Some(name) => t.take(name_start(t) as int) + stem(name) + "."@ + ext,
        None => path,
    }
}

/// A path without its last component; the root and the empty path have none.
pub open spec fn parent(path: Seq<char>) -> Option<Seq<char>> {
    let t = trim_path(path);
    if t.len() == 0 || t == "/"@ {
        None
    } else {
        Some(trim_path(t.take(name_start(t) as int)))
    }
}

/// Whether a piece between slashes is a component of a path.
pub open spec fn is_component(piece: Seq<char>) -> bool {
    piece.len() > 0 && piece != "."@
}

/// The components among the pieces between slashes.
pub open spec fn named_pieces(pieces: Seq<Seq<char>>) -> Seq<Seq<char>>
    decreases pieces.len(),
{
    if pieces.len() == 0 {
        Seq::empty()
    } else if is_component(pieces.last()) {
        named_pieces(pieces.drop_last()).push(pieces.last())
    } else {
        named_pieces(pieces.drop_last())
    }
}

/// The components of a path: the root or a leading dot, then the names. Two paths with
/// the same components are the same.
pub open spec fn components(path: Seq<char>) -> Seq<Seq<char>> {
    let pieces = split(path, '/');
    let lead = if path.len() > 0 && path[0] == '/' {
        seq!["/"@]
    } else if pieces[0] == "."@ {
        seq!["."@]
    } else {
        Seq::empty()
    };
    lead + named_pieces(pieces)
}

/// The bounds of the last name of a path.
fn name_bounds(chars: &Vec<char>) -> (r: (usize, usize))
    ensures
        r.0 <= r.1 <= chars@.len(),
        trim_path(chars@) == chars@.take(r.1 as int),
        r.0 == name_start(trim_path(chars@)),
{
    let mut end: usize = chars.len();
    proof {
        assert(chars@.take(end as int) =~= chars@);
    }
    while end > 1 && (chars[end - 1] == '/' || (chars[end - 1] == '.' && chars[end - 2] == '/'))
        invariant
            end <= chars@.len(),
            trim_path(chars@.take(end as int)) == trim_path(chars@),
        decreases end,
    {
        proof {
            let t = chars@.take(end as int);
            assert(t.last() == chars@[end - 1]);
            assert(t[t.len() - 2] == chars@[end - 2]);
            assert(t.drop_last() =~= chars@.take(end - 1));
        }
        end -= 1;
    }
    let ghost t = chars@.take(end as int);
    proof {
        if end > 1 {
            assert(t.last() == chars@[end - 1]);
            assert(t[t.len() - 2] == chars@[end - 2]);
        }
        assert(trim_path(t) == t);
        assert(t.take(end as int) =~= t);
    }
    let mut start: usize = end;
    while start > 0 && chars[start - 1] != '/'
        invariant
            start <= end <= chars@.len(),
            t == chars@.take(end as int),
            name_start(t.take(start as int)) == name_start(t),
        decreases start,
    {
        proof {
            assert(t.take(start as int).last() == chars@[start - 1]);
            assert(t.take(start as int).drop_last() =~= t.take(start - 1));
        }
        start -= 1;
    }
    proof {
        if start > 0 {
            assert(t.take(start as int).last() == chars@[start - 1]);
        }
    }
    (start, end)
}

/// The last name of a path.
pub fn file_name_of(path: &str) -> (r: Option<String>)
    ensures
        match r {
            Some(name) => file_name(path@) == Some(name@),
            None => file_name(path@) is None,
        },
{
    let chars = chars_of(path);
    let (start, end) = name_bounds(&chars);
    let name = text_of(&chars, start, end);
    proof {
        assert(name@ =~= trim_path(path@).skip(start as int));
    }
    if start == end || str_eq(name.as_str(), ".") || str_eq(name.as_str(), "..") {
        None
    } else {
        Some(name)
    }
}

/// Where the last dot of a name stands that is not its first character, or zero.
fn inner_dot(chars: &Vec<char>) -> (r: usize)
    ensures
        r == (if last_dot(chars@) > 0 {
            last_dot(chars@)
        } else {
            0
        }),
        r == 0 || r < chars@.len(),
{
    let mut i: usize = chars.len();
    proof {
        assert(chars@.take(i as int) =~= chars@);
    }
    while i > 0
        invariant
            i <= chars@.len(),
            last_dot(chars@.take(i as int)) == last_dot(chars@),
        decreases i,
    {
        proof {
            assert(chars@.take(i as int).last() == chars@[i - 1]);
            assert(chars@.take(i as int).drop_last() =~= chars@.take(i - 1));
        }
        i -= 1;
        if chars[i] == '.' {
            return i;
        }
    }
    0
}

/// What stands behind the last dot of a path's name.
pub fn extension_of(path: &str) -> (r: Option<String>)
    ensures
        match r {
            Some(ext) => extension(path@) == Some(ext@),
            None => extension(path@) is None,
        },
{
    match file_name_of(path) {
        Some(name) => {
            let chars = chars_of(name.as_str());
            let dot: usize = inner_dot(&chars);
            let n: usize = chars.len();
            if dot > 0 {
                let ext = text_of(&chars, dot + 1, n);
                proof {
                    assert(ext@ =~= name@.skip(dot + 1));
                }
                Some(ext)
            } else {
                None
            }
        },
        None => None,
    }
}

/// The name of a path up to its last dot.
pub fn file_stem_of(path: &str) -> (r: Option<String>)
    ensures
        match r {
            Some(s) => file_name(path@) is Some && s@ == stem(file_name(path@)->0),
            None => file_name(path@) is None,
        },
{
    match file_name_of(path) {
        Some(name) => {
            let chars = chars_of(name.as_str());
            let dot: usize = inner_dot(&chars);
            if dot > 0 {
                let s = text_of(&chars, 0, dot);
                proof {
                    assert(s@ =~= name@.take(dot as int));
                }
                Some(s)
            } else {
                Some(name)
            }
        },
        None => None,
    }
}

/// A path with another extension.
pub fn with_extension_of(path: &str, ext: &str) -> (r: String)
    ensures
        r@ == with_extension(path@, ext@),
{
    match file_stem_of(path) {
        None => path.to_owned(),
        Some(s) => {
            let chars = chars_of(path);
            let (start, _) = name_bounds(&chars);
            let mut out = text_of(&chars, 0, start);
            proof {
                assert(out@ =~= trim_path(path@).take(start as int));
            }
            out.append(s.as_str());
            out.append(".");
            out.append(ext);
            out
        },
    }
}

/// A path without its last component.
pub fn parent_of(path: &str) -> (r: Option<String>)
    ensures
        match r {
            Some(dir) => parent(path@) == Some(dir@),
            None => parent(path@) is None,
        },
{
    let chars = chars_of(path);
    let (start, end) = name_bounds(&chars);
    let ghost t = trim_path(path@);
    proof {
        reveal_strlit("/");
        if end == 1 && chars@[0] == '/' {
            assert(t =~= "/"@);
        }
    }
    if end == 0 || (end == 1 && chars[0] == '/') {
        return None;
    }
    let above = text_of(&chars, 0, start);
    proof {
        assert(above@ =~= t.take(start as int));
        if t == "/"@ {
            assert(t[0] == chars@[0]);
        }
    }
    let rest = chars_of(above.as_str());
    let (_, above_end) = name_bounds(&rest);
    let dir = text_of(&rest, 0, above_end);
    proof {
        assert(dir@ =~= trim_path(above@));
    }
    Some(dir)
}

/// The components of a path.
pub fn components_of(path: &str) -> (r: Vec<String>)
    ensures
        views(r@) == components(path@),
{
    let pieces = split_text(path, '/');
    let chars = chars_of(path);
    let ghost all = views(pieces@);
    let mut out: Vec<String> = Vec::new();
    proof {
        assert(all.len() >= 1);
        assert(all[0] == pieces@[0]@);
        assert(views(out@) =~= Seq::empty());
    }
    if chars.len() > 0 && chars[0] == '/' {
        out.push("/".to_owned());
        proof {
            assert(views(out@) =~= seq!["/"@]);
        }
    } else if str_eq(pieces[0].as_str(), ".") {
        out.push(".".to_owned());
        proof {
            assert(views(out@) =~= seq!["."@]);
        }
    }
    let ghost lead = views(out@);
    let mut i: usize = 0;
    proof {
        assert(all.take(0) =~= Seq::empty());
        assert(lead + named_pieces(all.take(0)) =~= lead);
    }
    while i < pieces.len()
        invariant
            all == views(pieces@),
            i <= pieces@.len(),
            views(out@) == lead + named_pieces(all.take(i as int)),
        decreases pieces@.len() - i,
    {
        let ghost before = views(out@);
        proof {
            assert(all.take(i + 1).last() == pieces@[i as int]@);
            assert(all.take(i + 1).drop_last() =~= all.take(i as int));
        }
        if !pieces[i].as_str().is_empty() && !str_eq(pieces[i].as_str(), ".") {
            out.push(pieces[i].clone());
            proof {
                assert(views(out@) =~= before.push(pieces@[i as int]@));
                assert(views(out@) =~= lead + named_pieces(all.take(i + 1)));
            }
        }
        i += 1;
    }
    proof {
        assert(all.take(i as int) =~= all);
    }
    out
}

/// Whether two paths have the same components.
pub fn same_path(a: &str, b: &str) -> (r: bool)
    ensures
        r == (components(a@) == components(b@)),
{
    let x = components_of(a);
    let y = components_of(b);
    if x.len() != y.len() {
        proof {
            assert(views(x@).len() != views(y@).len());
        }
        return false;
    }
    let mut i: usize = 0;
    while i < x.len()
        invariant
            i <= x@.len() == y@.len(),
            views(x@) == components(a@),
            views(y@) == components(b@),
            forall|j: int| 0 <= j < i ==> views(x@)[j] == views(y@)[j],
        decreases x@.len() - i,
    {
        if !str_eq(x[i].as_str(), y[i].as_str()) {
            proof {
                assert(views(x@)[i as int] != views(y@)[i as int]);
            }
            return false;
        }
        i += 1;
    }
    proof {
        assert(views(x@) =~= views(y@));
    }
    true
}

proof fn lemma_name_start_behind(dir: Seq<char>, name: Seq<char>)
    requires
        !name.contains('/'),
        dir.len() == 0 || dir.last() == '/',
    ensures
        name_start(dir + name) == dir.len(),
    decreases name.len(),
{
    let path = dir + name;
    if name.len() == 0 {
        assert(path =~= dir);
    } else {
        assert(name.contains(name.last()));
        let front = name.drop_last();
        assert forall|i: int| 0 <= i < front.len() implies front[i] != '/' by {
            assert(name.contains(name[i]));
        }
        assert(path.drop_last() =~= dir + front);
        lemma_name_start_behind(dir, front);
    }
}

/// A name that stands behind a directory is the last name of the path, and the directory is
/// its parent; a slash behind the name changes neither.
pub proof fn lemma_name_behind_directory(dir: Seq<char>, name: Seq<char>)
    requires
        name.len() > 0,
        !name.contains('/'),
        name != "."@,
        name != ".."@,
    ensures
        file_name(name) == Some(name),
        file_name(dir + "/"@ + name) == Some(name),
        file_name(dir + "/"@ + name + "/"@) == Some(name),
        parent(dir + "/"@ + name) == Some(trim_path(dir + "/"@)),
        parent(dir + "/"@ + name + "/"@) == Some(trim_path(dir + "/"@)),
        parent(name) == Some(Seq::<char>::empty()),
{
    reveal_strlit("/");
    reveal_strlit(".");
    reveal_strlit("..");
    let base = dir + "/"@;
    let path = base + name;
    assert(path =~= dir + "/"@ + name);
    assert(name.contains(name.last()));
    assert(path.last() == name.last());
    if name.len() == 1 {
        assert(name =~= seq![name[0]]);
        assert("."@ =~= seq!['.']);
        assert(name[0] != '.');
    } else {
        assert(name.contains(name[name.len() - 2]));
        assert(path[path.len() - 2] == name[name.len() - 2]);
    }
    assert(trim_path(path) == path);
    assert(trim_path(name) == name);
    lemma_name_start_behind(base, name);
    assert(path.skip(base.len() as int) =~= name);
    assert(path.take(base.len() as int) =~= base);
    lemma_name_start_behind(Seq::empty(), name);
    assert(Seq::<char>::empty() + name =~= name);
    assert(name.skip(0) =~= name);
    assert(name.take(0) =~= Seq::<char>::empty());
    assert(path != "/"@);
    assert(name != "/"@) by {
        if name == "/"@ {
            assert(name[0] == '/');
        }
    }
    let long = path + "/"@;
    assert(long =~= dir + "/"@ + name + "/"@);
    assert(long.drop_last() =~= path);
    assert(long.last() == '/');
    assert(trim_path(long) == trim_path(path));
}

proof fn lemma_last_dot_behind(stem: Seq<char>, ext: Seq<char>)
    requires
        !ext.contains('.'),
    ensures
        last_dot(stem + "."@ + ext) == stem.len(),
    decreases ext.len(),
{
    reveal_strlit(".");
    let name = stem + "."@ + ext;
    if ext.len() == 0 {
        assert(name.last() == '.');
    } else {
        assert(ext.contains(ext.last()));
        let front = ext.drop_last();
        assert forall|i: int| 0 <= i < front.len() implies front[i] != '.' by {
            assert(ext.contains(ext[i]));
        }
        assert(name.drop_last() =~= stem + "."@ + front);
        assert(name.last() == ext.last());
        lemma_last_dot_behind(stem, front);
    }
}

/// The last name of a path is the name behind its last slash, as long as it is one.
proof fn lemma_name_behind_base(base: Seq<char>, name: Seq<char>)
    requires
        base.len() == 0 || base.last() == '/',
        name.len() > 1,
        !name.contains('/'),
        name != ".."@,
    ensures
        trim_path(base + name) == base + name,
        name_start(base + name) == base.len(),
        file_name(base + name) == Some(name),
        (base + name).take(base.len() as int) == base,
{
    reveal_strlit(".");
    let path = base + name;
    assert(name.contains(name.last()));
    assert(name.contains(name[name.len() - 2]));
    assert(path.last() == name.last());
    assert(path[path.len() - 2] == name[name.len() - 2]);
    assert(trim_path(path) == path);
    lemma_name_start_behind(base, name);
    assert(path.skip(base.len() as int) =~= name);
    assert(path.take(base.len() as int) =~= base);
}

proof fn lemma_extension_behind_base(
    base: Seq<char>,
    stem: Seq<char>,
    ext: Seq<char>,
    other: Seq<char>,
)
    requires
        base.len() == 0 || base.last() == '/',
        stem.len() > 0,
        !stem.contains('/'),
        !ext.contains('/'),
        !ext.contains('.'),
        ext.len() > 0 || stem != "."@,
    ensures
        extension(base + (stem + "."@ + ext)) == Some(ext),
        with_extension(base + (stem + "."@ + ext), other) == base + stem + "."@ + other,
{
    reveal_strlit(".");
    reveal_strlit("..");
    let name = stem + "."@ + ext;
    assert forall|i: int| 0 <= i < name.len() implies name[i] != '/' by {
        if i < stem.len() {
            assert(stem.contains(stem[i]));
        } else if i > stem.len() {
            assert(ext.contains(ext[i - stem.len() - 1]));
        }
    }
    if name == ".."@ {
        assert(stem[0] == name[0]);
        assert(stem =~= "."@);
    }
    lemma_name_behind_base(base, name);
    lemma_last_dot_behind(stem, ext);
    assert(name.skip(stem.len() as int + 1) =~= ext);
    assert(name.take(stem.len() as int) =~= stem);
}

/// What stands behind the last dot of a name is its extension, unless the dot begins the
/// name, and giving the path another extension puts that in its place.
pub proof fn lemma_extension_behind_stem(
    dir: Seq<char>,
    stem: Seq<char>,
    ext: Seq<char>,
    other: Seq<char>,
)
    requires
        stem.len() > 0,
        !stem.contains('/'),
        !ext.contains('/'),
        !ext.contains('.'),
        ext.len() > 0 || stem != "."@,
    ensures
        extension(dir + "/"@ + (stem + "."@ + ext)) == Some(ext),
        with_extension(dir + "/"@ + (stem + "."@ + ext), other) == dir + "/"@ + stem + "."@
            + other,
        extension(stem + "."@ + ext) == Some(ext),
        with_extension(stem + "."@ + ext, other) == stem + "."@ + other,
{
    reveal_strlit("/");
    let none = Seq::<char>::empty();
    lemma_extension_behind_base(dir + "/"@, stem, ext, other);
    lemma_extension_behind_base(none, stem, ext, other);
    assert(none + (stem + "."@ + ext) =~= stem + "."@ + ext);
    assert(none + stem + "."@ + other =~= stem + "."@ + other);
}

/// The components of a path are, behind the root or a leading dot where it begins with one,
/// the pieces between its slashes but the empty ones and the single dots, in their order.
pub proof fn lemma_components_are_pieces(path: Seq<char>)
    ensures
        components(path) == (if path.len() > 0 && path[0] == '/' {
            seq!["/"@]
        } else if split(path, '/')[0] == "."@ {
            seq!["."@]
        } else {
            Seq::<Seq<char>>::empty()
        }) + Seq::new(
            split(path, '/').len(),
            |k: int|
                if split(path, '/')[k].len() == 0 || split(path, '/')[k] == "."@ {
                    Seq::<Seq<char>>::empty()
                } else {
                    seq![split(path, '/')[k]]
                },
        ).flatten(),
{
    lemma_names_in_turn(split(path, '/'));
}

proof fn lemma_names_in_turn(pieces: Seq<Seq<char>>)
    ensures
        named_pieces(pieces) == Seq::new(
            pieces.len(),
            |k: int|
                if pieces[k].len() == 0 || pieces[k] == "."@ {
                    Seq::<Seq<char>>::empty()
                } else {
                    seq![pieces[k]]
                },
        ).flatten(),
    decreases pieces.len(),
{
    let parts = Seq::new(
        pieces.len(),
        |k: int|
            if pieces[k].len() == 0 || pieces[k] == "."@ {
                Seq::<Seq<char>>::empty()
            } else {
                seq![pieces[k]]
            },
    );
    if pieces.len() > 0 {
        let front = pieces.drop_last();
        lemma_names_in_turn(front);
        let before = Seq::new(
            front.len(),
            |k: int|
                if front[k].len() == 0 || front[k] == "."@ {
                    Seq::<Seq<char>>::empty()
                } else {
                    seq![front[k]]
                },
        );
        assert(parts =~= before.push(parts.last()));
        before.lemma_flatten_push(parts.last());
        assert(named_pieces(pieces) =~= named_pieces(front) + parts.last());
    }
}

/// A name without a dot, or with no dot but at its start, has no extension, and another
/// extension is put behind it.
pub proof fn lemma_name_without_extension(dir: Seq<char>, name: Seq<char>, other: Seq<char>)
    requires
        name.len() > 1,
        !name.contains('/'),
        name != ".."@,
        forall|i: int| 1 <= i < name.len() ==> name[i] != '.',
    ensures
        extension(dir + "/"@ + name) is None,
        extension(name) is None,
        stem(name) == name,
        with_extension(dir + "/"@ + name, other) == dir + "/"@ + name + "."@ + other,
        with_extension(name, other) == name + "."@ + other,
{
    reveal_strlit("/");
    let none = Seq::<char>::empty();
    let base = dir + "/"@;
    lemma_no_later_dot(name);
    lemma_name_behind_base(base, name);
    lemma_name_behind_base(none, name);
    assert(none + name =~= name);
    assert(with_extension(name, other) =~= name + "."@ + other);
}

proof fn lemma_no_later_dot(name: Seq<char>)
    requires
        forall|i: int| 1 <= i < name.len() ==> name[i] != '.',
    ensures
        last_dot(name) <= 0,
    decreases name.len(),
{
    if name.len() > 0 && name.last() != '.' {
        let front = name.drop_last();
        assert forall|i: int| 1 <= i < front.len() implies front[i] != '.' by {
            assert(front[i] == name[i]);
        }
        lemma_no_later_dot(front);
    }
}

/// The last name of a path is never empty, holds no slash, and is neither `.` nor `..`.
pub proof fn lemma_file_name_is_plain(path: Seq<char>)
    ensures
        file_name(path) is Some ==> {
            let name = file_name(path)->0;
            &&& name.len() > 0
            &&& !name.contains('/')
            &&& name != "."@
            &&& name != ".."@
        },
        file_name(Seq::empty()) is None,
        file_name("/"@) is None,
        file_name(path + "/.."@) is None,
{
    let t = trim_path(path);
    lemma_no_slash_behind(t);
    if file_name(path) is Some {
        let name = file_name(path)->0;
        assert forall|i: int| 0 <= i < name.len() implies name[i] != '/' by {
            assert(name[i] == t[name_start(t) + i]);
        }
    }
    reveal_strlit("/");
    reveal_strlit("/..");
    reveal_strlit("..");
    reveal_strlit(".");
    let root = "/"@;
    assert(trim_path(root) == root);
    assert(root.last() == '/');
    assert(root.skip(1) =~= Seq::<char>::empty());
    assert(Seq::<char>::empty().skip(0) =~= Seq::<char>::empty());
    let up = path + "/.."@;
    assert(up.last() == '.' && up[up.len() - 2] == '.');
    assert(trim_path(up) == up);
    let base = path.push('/');
    assert(up =~= base + ".."@);
    assert(!".."@.contains('/'));
    lemma_name_start_behind(base, ".."@);
    assert(up.skip(base.len() as int) =~= ".."@);
}

proof fn lemma_no_slash_behind(path: Seq<char>)
    ensures
        name_start(path) <= path.len(),
        forall|i: int| name_start(path) <= i < path.len() ==> path[i] != '/',
    decreases path.len(),
{
    if path.len() > 0 && path.last() != '/' {
        let front = path.drop_last();
        lemma_no_slash_behind(front);
        assert forall|i: int| name_start(path) <= i < path.len() implies path[i] != '/' by {
            if i < front.len() {
                assert(front[i] == path[i]);
            }
        }
    }
}

/// A slash or a single dot behind a path changes nothing of where it leads.
pub proof fn lemma_trailing_slash_is_dropped(path: Seq<char>)
    requires
        path.len() > 0,
    ensures
        trim_path(path + "/"@) == trim_path(path),
        trim_path(path + "/."@) == trim_path(path),
        file_name(path + "/"@) == file_name(path),
        file_name(path + "/."@) == file_name(path),
        parent(path + "/"@) == parent(path),
        extension(path + "/"@) == extension(path),
{
    reveal_strlit("/");
    reveal_strlit("/.");
    let slash = path + "/"@;
    assert(slash.drop_last() =~= path);
    let dot = path + "/."@;
    assert(dot.last() == '.' && dot[dot.len() - 2] == '/');
    assert(dot.drop_last() =~= slash);
}

} // verus!
