//! Slash-separated paths.

use vstd::prelude::*;

use crate::text;
use crate::text::{chars_of, owned, same, split_at_char, string_of};

verus! {

/// The piece at position `i` names a component: it is not empty, and it is
/// not a dot, unless the path begins with it.
pub open spec fn is_component(pieces: Seq<Seq<char>>, i: int) -> bool {
    pieces[i].len() > 0 && (pieces[i] == seq!['.'] ==> i == 0)
}

/// The components among the first `n` pieces.
pub open spec fn first_components(pieces: Seq<Seq<char>>, n: nat) -> Seq<Seq<char>>
    decreases n,
{
    if n == 0 {
        Seq::empty()
    } else {
        let done = first_components(pieces, (n - 1) as nat);
        if is_component(pieces, n - 1) {
            done.push(pieces[n - 1])
        } else {
            done
        }
    }
}

/// The components of a path: repeated and trailing slashes and inner dots do
/// not count.
pub open spec fn components(path: Seq<char>) -> Seq<Seq<char>> {
    let pieces = text::split(path, '/');
    first_components(pieces, pieces.len())
}

/// The path starts at the root directory.
pub open spec fn is_absolute(path: Seq<char>) -> bool {
    path.len() > 0 && path[0] == '/'
}

/// Two spellings of one path.
pub open spec fn same_path_text(a: Seq<char>, b: Seq<char>) -> bool {
    is_absolute(a) == is_absolute(b) && components(a) == components(b)
}

/// `name` below the directory `base`; an absolute `name` stands for itself.
pub open spec fn joined(base: Seq<char>, name: Seq<char>) -> Seq<char> {
    if is_absolute(name) {
        name
    } else if base.len() == 0 || base.last() == '/' {
        base + name
    } else {
        base + seq!['/'] + name
    }
}

/// The position of the last `c` in `s`, or -1.
pub open spec fn last_position(s: Seq<char>, c: char) -> int
    decreases s.len(),
{
    if s.len() == 0 {
        -1
    } else if s.last() == c {
        s.len() - 1
    } else {
        last_position(s.drop_last(), c)
    }
}

/// What follows the last dot of a file name, where something stands before
/// that dot.
pub open spec fn extension(name: Seq<char>) -> Option<Seq<char>> {
    let dot = last_position(name, '.');
    if dot > 0 && name != seq!['.', '.'] {
        Some(name.subrange(dot + 1, name.len() as int))
    } else {
        None
    }
}

/// The components of `path`.
pub fn path_components(path: &str) -> (r: Vec<String>)
    ensures
        text::texts(r@) == components(path@),
{
    let pieces = split_at_char(path, '/');
    let ghost all = text::split(path@, '/');
    assert(text::texts(pieces@).len() == pieces@.len());
    let mut r: Vec<String> = Vec::new();
    let mut i: usize = 0;
    assert(text::texts(r@) =~= first_components(all, 0));
    while i < pieces.len()
        invariant
            i <= pieces@.len(),
            text::texts(pieces@) == all,
            text::texts(r@) == first_components(all, i as nat),
        decreases pieces@.len() - i,
    {
        proof {
            reveal_strlit(".");
            assert("."@ =~= seq!['.']);
            assert(all[i as int] == pieces@[i as int]@);
        }
        let keep = !pieces[i].as_str().is_empty() && (i == 0 || !same(pieces[i].as_str(), "."));
        assert(keep == is_component(all, i as int));
        if keep {
            let ghost before = r@;
            r.push(owned(pieces[i].as_str()));
            assert(text::texts(r@) =~= text::texts(before).push(all[i as int]));
        }
        i = i + 1;
    }
    r
}

/// Whether the path starts at the root directory.
pub fn path_is_absolute(path: &str) -> (r: bool)
    ensures
        r == is_absolute(path@),
{
    let v = chars_of(path);
    v.len() > 0 && v[0] == '/'
}

/// Whether `a` and `b` spell the same path.
pub fn same_path(a: &str, b: &str) -> (r: bool)
    ensures
        r == same_path_text(a@, b@),
{
    if path_is_absolute(a) != path_is_absolute(b) {
        return false;
    }
    let x = path_components(a);
    let y = path_components(b);
    assert(text::texts(x@).len() == x@.len() && text::texts(y@).len() == y@.len());
    if x.len() != y.len() {
        return false;
    }
    let mut i: usize = 0;
    while i < x.len()
        invariant
            i <= x@.len(),
            x@.len() == y@.len(),
            text::texts(x@) == components(a@),
            text::texts(y@) == components(b@),
            forall|k: int| 0 <= k < i ==> text::texts(x@)[k] == text::texts(y@)[k],
        decreases x@.len() - i,
    {
        assert(text::texts(x@)[i as int] == x@[i as int]@ && text::texts(y@)[i as int] == y@[i as int]@);
        if !same(x[i].as_str(), y[i].as_str()) {
            return false;
        }
        i = i + 1;
    }
    assert(text::texts(x@) =~= text::texts(y@));
    true
}

/// `name` below the directory `base`.
pub fn join_path(base: &str, name: &str) -> (r: String)
    ensures
        r@ == joined(base@, name@),
{
    if path_is_absolute(name) {
        return owned(name);
    }
    let v = chars_of(base);
    let mut r: String = owned(base);
    if v.len() > 0 && v[v.len() - 1] != '/' {
        r.push('/');
        assert(r@ =~= base@ + seq!['/']);
    }
    r.append(name);
    r
}

/// The extension of a file name.
pub fn file_extension(name: &str) -> (r: Option<String>)
    ensures
        text::opt_text(r) == extension(name@),
{
    proof {
        reveal_strlit("..");
        assert(".."@ =~= seq!['.', '.']);
    }
    if same(name, "..") {
        return None;
    }
    let v = chars_of(name);
    let mut i: usize = v.len();
    assert(v@.take(v@.len() as int) =~= v@);
    while i > 0
        invariant
            v@ == name@,
            i <= v@.len(),
            name@ != seq!['.', '.'],
            last_position(v@, '.') == last_position(v@.take(i as int), '.'),
        decreases i,
    {
        assert(v@.take(i as int).drop_last() =~= v@.take(i - 1));
        assert(v@.take(i as int).last() == v@[i - 1]);
        if v[i - 1] == '.' {
            if i - 1 == 0 {
                return None;
            }
            return Some(string_of(&v, i, v.len()));
        }
        i = i - 1;
    }
    None
}

/// A path without the separators and the `.` components at its end.
pub open spec fn tail_trimmed(path: Seq<char>) -> Seq<char>
    decreases path.len(),
{
    if path.len() > 1 && path.last() == '/' {
        tail_trimmed(path.drop_last())
    } else if path.len() > 1 && path.last() == '.' && path[path.len() - 2] == '/' {
        tail_trimmed(path.drop_last())
    } else {
        path
    }
}

/// The path without its last component. There is none for the root and for
/// the empty path.
pub open spec fn parent(path: Seq<char>) -> Option<Seq<char>> {
    let t = tail_trimmed(path);
    let slash = last_position(t, '/');
    if t.len() == 0 || t == seq!['/'] {
        None
    } else if slash < 0 {
        Some(Seq::empty())
    } else {
        Some(tail_trimmed(t.take(slash + 1)))
    }
}

fn trim_tail(v: &Vec<char>, len: usize) -> (r: usize)
    requires
        len <= v@.len(),
    ensures
        r <= len,
        v@.take(r as int) == tail_trimmed(v@.take(len as int)),
{
    let mut n: usize = len;
    while n > 1 && (v[n - 1] == '/' || (v[n - 1] == '.' && v[n - 2] == '/'))
        invariant
            n <= len <= v@.len(),
            tail_trimmed(v@.take(n as int)) == tail_trimmed(v@.take(len as int)),
        decreases n,
    {
        assert(v@.take(n as int).drop_last() =~= v@.take(n - 1));
        n = n - 1;
    }
    n
}

/// The path without its last component.
pub fn parent_path(path: &str) -> (r: Option<String>)
    ensures
        text::opt_text(r) == parent(path@),
{
    let v = chars_of(path);
    assert(v@.take(v@.len() as int) =~= v@);
    let len: usize = trim_tail(&v, v.len());
    let ghost t = v@.take(len as int);
    if len == 0 || (len == 1 && v[0] == '/') {
        assert(len == 1 ==> t =~= seq!['/']);
        return None;
    }
    assert(t != seq!['/']) by {
        if t == seq!['/'] {
            assert(t.len() == 1 && t[0] == '/');
        }
    }
    let mut n: usize = len;
    while n > 0 && v[n - 1] != '/'
        invariant
            n <= len <= v@.len(),
            last_position(t, '/') == last_position(v@.take(n as int), '/'),
        decreases n,
    {
        assert(v@.take(n as int).drop_last() =~= v@.take(n - 1));
        n = n - 1;
    }
    if n == 0 {
        assert(last_position(v@.take(0), '/') == -1);
        return Some(String::new());
    }
    assert(last_position(v@.take(n as int), '/') == n - 1);
    let end: usize = trim_tail(&v, n);
    assert(t.take(n as int) =~= v@.take(n as int));
    let r = string_of(&v, 0, end);
    assert(r@ =~= v@.take(end as int));
    Some(r)
}

// ---------------------------------------------------------------------------
// Laws
// ---------------------------------------------------------------------------

/// A name is joined to a directory with one slash between them, whether the
/// directory is written with a slash at its end or without; an absolute name
/// stands alone.
pub proof fn joining_puts_one_slash(dir: Seq<char>, name: Seq<char>)
    ensures
        dir.len() > 0 && dir.last() != '/' && !(name.len() > 0 && name[0] == '/') ==> joined(
            dir,
            name,
        ) == dir.push('/') + name && joined(dir.push('/'), name) == dir.push('/') + name,
        name.len() > 0 && name[0] == '/' ==> joined(dir, name) == name,
        joined(Seq::empty(), name) == name,
{
    assert(dir + seq!['/'] + name =~= dir.push('/') + name);
    assert(dir.push('/').last() == '/');
    assert(Seq::<char>::empty() + name =~= name);
}

proof fn lemma_first_components(a: Seq<Seq<char>>, b: Seq<Seq<char>>, n: nat)
    requires
        n <= a.len(),
        n <= b.len(),
        forall|i: int| 0 <= i < n ==> #[trigger] a[i] == b[i],
    ensures
        first_components(a, n) == first_components(b, n),
    decreases n,
{
    if n > 0 {
        lemma_first_components(a, b, (n - 1) as nat);
        assert(a[n - 1] == b[n - 1]);
    }
}

proof fn lemma_components_push(p: Seq<char>, name: Seq<char>)
    requires
        !name.contains('/'),
    ensures
        name.len() > 0 && name != seq!['.'] ==> components(p.push('/') + name) == components(
            p,
        ).push(name),
        name.len() == 0 ==> components(p.push('/') + name) == components(p),
{
    text::separators_part_the_pieces(p, name, '/');
    text::separators_part_the_pieces(name, name, '/');
    let before = text::split(p, '/');
    let all = text::split(p.push('/') + name, '/');
    assert(all =~= before.push(name));
    assert(before.len() > 0) by {
        lemma_split_some(p);
    }
    lemma_first_components(before, all, before.len());
    assert(all[before.len() as int] == name);
}

proof fn lemma_split_some(p: Seq<char>)
    ensures
        text::split(p, '/').len() > 0,
    decreases p.len(),
{
    if p.len() > 0 {
        lemma_split_some(p.drop_last());
    }
}

/// A slash at the end of a path means nothing, nor does a second one.
pub proof fn trailing_slash_means_nothing(p: Seq<char>)
    ensures
        components(p.push('/')) == components(p),
        p.len() > 0 ==> same_path_text(p, p.push('/')),
        same_path_text(p, p),
{
    lemma_components_push(p, Seq::empty());
    assert(p.push('/') + Seq::<char>::empty() =~= p.push('/'));
}

/// Two paths are the same exactly if both are absolute or both are not, and
/// they have the same components.
pub proof fn same_paths_have_the_same_components(a: Seq<char>, b: Seq<char>)
    ensures
        same_path_text(a, b) <==> components(a) == components(b) && (a.len() > 0 && a[0] == '/'
            <==> b.len() > 0 && b[0] == '/'),
        same_path_text(a, b) <==> same_path_text(b, a),
{
}

/// A name that is joined to a path is its last component.
pub proof fn joined_name_comes_last(p: Seq<char>, name: Seq<char>)
    requires
        name.len() > 0,
        !name.contains('/'),
        name != seq!['.'],
        p.len() > 0,
    ensures
        components(joined(p, name)) == components(p).push(name),
{
    assert(name[0] != '/') by {
        assert(name.contains(name[0]));
    }
    if p.last() == '/' {
        let head = p.drop_last();
        assert(p =~= head.push('/'));
        lemma_components_push(head, name);
        trailing_slash_means_nothing(head);
    } else {
        joining_puts_one_slash(p, name);
        lemma_components_push(p, name);
    }
}

proof fn lemma_last_position(a: Seq<char>, c: char, b: Seq<char>)
    requires
        !b.contains(c),
    ensures
        last_position(a.push(c) + b, c) == a.len(),
    decreases b.len(),
{
    let all = a.push(c) + b;
    if b.len() == 0 {
        assert(all =~= a.push(c));
    } else {
        assert(b.contains(b[b.len() - 1]));
        assert(all.last() == b.last());
        let rest = b.drop_last();
        assert(!rest.contains(c)) by {
            if rest.contains(c) {
                let i = choose|i: int| 0 <= i < rest.len() && rest[i] == c;
                assert(b[i] == c);
            }
        }
        assert(all.drop_last() =~= a.push(c) + rest);
        lemma_last_position(a, c, rest);
    }
}

proof fn lemma_no_position(s: Seq<char>, c: char)
    requires
        !s.contains(c),
    ensures
        last_position(s, c) == -1,
    decreases s.len(),
{
    if s.len() > 0 {
        assert(s.contains(s[s.len() - 1]));
        let rest = s.drop_last();
        assert(!rest.contains(c)) by {
            if rest.contains(c) {
                let i = choose|i: int| 0 <= i < rest.len() && rest[i] == c;
                assert(s[i] == c);
            }
        }
        lemma_no_position(rest, c);
    }
}

/// The extension is what follows the last dot, if something comes before it.
pub proof fn extension_follows_the_last_dot(stem: Seq<char>, ext: Seq<char>)
    requires
        !ext.contains('.'),
    ensures
        stem.len() > 0 && stem.push('.') + ext != seq!['.', '.'] ==> extension(stem.push('.') + ext)
            == Some(ext),
        stem.len() == 0 ==> extension(stem.push('.') + ext) is None,
        extension(ext) is None,
        extension(seq!['.', '.']) is None,
{
    let name = stem.push('.') + ext;
    lemma_last_position(stem, '.', ext);
    lemma_no_position(ext, '.');
    assert(name.subrange((stem.len() + 1) as int, name.len() as int) =~= ext);
}

/// The parent of a name in a directory is the directory; a plain name has the
/// empty path as its parent, and the root has none.
pub proof fn parent_undoes_joining(dir: Seq<char>, name: Seq<char>)
    requires
        name.len() > 0,
        !name.contains('/'),
        name != seq!['.'],
    ensures
        dir.len() > 0 && dir.last() != '/' && !(dir.len() > 1 && dir.last() == '.' && dir[dir.len()
            - 2] == '/') ==> parent(joined(dir, name)) == Some(dir),
        parent(name) == Some(Seq::<char>::empty()),
        parent(seq!['/']) is None,
        parent(Seq::empty()) is None,
        parent(seq!['/'] + name) == Some(seq!['/']),
{
    assert(name.contains(name[0]));
    assert(name.contains(name[name.len() - 1]));
    if name.len() > 1 {
        assert(name.contains(name[name.len() - 2]));
    } else {
        assert(name =~= seq![name[0]]);
    }
    assert(tail_trimmed(name) == name);
    lemma_no_position(name, '/');
    if dir.len() > 0 && dir.last() != '/' && !(dir.len() > 1 && dir.last() == '.' && dir[dir.len()
        - 2] == '/') {
        joining_puts_one_slash(dir, name);
        let all = dir.push('/') + name;
        assert(all.last() == name.last());
        assert(all[all.len() - 2] == if name.len() > 1 {
            name[name.len() - 2]
        } else {
            '/'
        });
        assert(tail_trimmed(all) == all);
        lemma_last_position(dir, '/', name);
        assert(all.take((dir.len() + 1) as int) =~= dir.push('/'));
        assert(dir.push('/').drop_last() =~= dir);
        assert(tail_trimmed(dir) == dir);
        assert(tail_trimmed(dir.push('/')) == dir);
        assert(all.len() > 1);
    }
    let rooted = seq!['/'] + name;
    assert(rooted =~= Seq::<char>::empty().push('/') + name);
    lemma_last_position(Seq::empty(), '/', name);
    assert(rooted.last() == name.last());
    assert(rooted[rooted.len() - 2] == if name.len() > 1 {
        name[name.len() - 2]
    } else {
        '/'
    });
    assert(tail_trimmed(rooted) == rooted);
    assert(rooted.take(1) =~= seq!['/']);
    assert(tail_trimmed(seq!['/']) == seq!['/']);
    assert(rooted.len() > 1);
    assert(tail_trimmed(Seq::empty()) == Seq::<char>::empty());
}

/// A dot for the directory itself means nothing, save at the beginning of a
/// path.
pub proof fn dot_means_nothing_inside(p: Seq<char>)
    ensures
        components(p.push('/') + seq!['.']) == components(p),
        components(seq!['.']) == seq![seq!['.']],
{
    text::separators_part_the_pieces(p, seq!['.'], '/');
    text::separators_part_the_pieces(seq!['.'], p, '/');
    let before = text::split(p, '/');
    let all = text::split(p.push('/') + seq!['.'], '/');
    assert(all =~= before.push(seq!['.']));
    lemma_split_some(p);
    lemma_first_components(before, all, before.len());
    assert(all[before.len() as int] == seq!['.']);
    let alone = seq![seq!['.']];
    assert(text::split(seq!['.'], '/') =~= alone);
    assert(first_components(alone, 0) =~= Seq::<Seq<char>>::empty());
    assert(first_components(alone, 1) =~= alone);
}

} // verus!
