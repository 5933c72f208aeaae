//! Paths as lists of components.
//!
//! The rules on paths compare whole components, never text. A component holds
//! the bytes that the platform has for it, so that no two of them are confused.

use vstd::prelude::*;
use vstd::string::*;
use crate::text;

verus! {

/// One component of a path.
#[derive(Debug)]
pub enum PathPart {
    /// What stands before the root, such as a drive.
    Prefix(Vec<u8>),
    RootDir,
    CurDir,
    ParentDir,
    Normal(Vec<u8>),
}

#[verifier::ext_equal]
pub ghost enum PathPartView {
    Prefix(Seq<u8>),
    RootDir,
    CurDir,
    ParentDir,
    Normal(Seq<u8>),
}

impl View for PathPart {
    type V = PathPartView;

    open spec fn view(&self) -> PathPartView {
        match self {
            PathPart::Prefix(b) => PathPartView::Prefix(b@),
            PathPart::RootDir => PathPartView::RootDir,
            PathPart::CurDir => PathPartView::CurDir,
            PathPart::ParentDir => PathPartView::ParentDir,
            PathPart::Normal(b) => PathPartView::Normal(b@),
        }
    }
}

pub open spec fn part_views(parts: Seq<PathPart>) -> Seq<PathPartView> {
    parts.map_values(|p: PathPart| p@)
}

/// A path of the host: its components, how it reads, and what the platform says
/// of it.
#[derive(Debug)]
pub struct HostPath {
    pub parts: Vec<PathPart>,
    /// The path in text form; where it is no text, a reading of it.
    pub shown: String,
    /// Whether the platform takes the path for an absolute one.
    pub absolute: bool,
    /// Whether the path is text.
    pub utf8: bool,
}

impl HostPath {
    /// The components.
    pub open spec fn components(&self) -> Seq<PathPartView> {
        part_views(self.parts@)
    }

    /// Whether the fields of a path belong together. A root stands first, or
    /// behind what is before it, which only Windows knows. The path is absolute
    /// where it starts at a root; Windows wants a prefix too, some of which need
    /// no root behind them. Elsewhere the text, if there is one, has the
    /// components of the path.
    pub open spec fn well_formed(&self, windows: bool) -> bool {
        let c = self.components();
        if windows {
            &&& roots_stand_first(c)
            &&& self.absolute ==> c.len() > 0 && c[0] is Prefix
            &&& c.len() > 1 && c[0] is Prefix && c[1] is RootDir ==> self.absolute
        } else {
            &&& roots_stand_first(c)
            &&& !(c.len() > 0 && c[0] is Prefix)
            &&& self.absolute == (c.len() > 0 && c[0] is RootDir)
            &&& self.utf8 ==> c == unix_parts(self.shown@)
        }
    }
}

/// Whether a prefix stands first only, and a root there or behind a prefix.
pub open spec fn roots_stand_first(c: Seq<PathPartView>) -> bool {
    forall|i: int|
        0 < i < c.len() ==> !(#[trigger] c[i] is Prefix) && (c[i] is RootDir ==> i == 1
            && c[0] is Prefix)
}

/// The component that a piece of a Unix path stands for, if any: an empty one
/// stands for none, and `.` only where the path starts with it.
pub open spec fn piece_part(piece: Seq<char>, first: bool) -> Option<PathPartView> {
    if piece.len() == 0 || piece == seq!['.'] && !first {
        None
    } else if piece == seq!['.'] {
        Some(PathPartView::CurDir)
    } else if piece == seq!['.', '.'] {
        Some(PathPartView::ParentDir)
    } else {
        Some(PathPartView::Normal(vstd::utf8::encode_utf8(piece)))
    }
}

/// The components that the pieces of a Unix path stand for.
pub open spec fn piece_parts(pieces: Seq<Seq<char>>) -> Seq<PathPartView>
    decreases pieces.len(),
{
    if pieces.len() == 0 {
        Seq::empty()
    } else {
        let before = piece_parts(pieces.drop_last());
        match piece_part(pieces.last(), pieces.len() == 1) {
            Some(p) => before.push(p),
            None => before,
        }
    }
}

/// The components of a Unix path.
pub open spec fn unix_parts(path: Seq<char>) -> Seq<PathPartView> {
    let parts = piece_parts(text::split(path, '/'));
    if path.len() > 0 && path[0] == '/' {
        seq![PathPartView::RootDir] + parts
    } else {
        parts
    }
}

/// A Unix path is read piece by piece. Behind a slash an empty piece and `.` add
/// nothing, `..` leads to the parent, and anything else is a name; a slash in
/// front is the root, and only a `.` in front is kept.
pub proof fn law_unix_path_is_read_piece_by_piece(path: Seq<char>, piece: Seq<char>)
    requires
        !piece.contains('/'),
    ensures
        path.len() > 0 ==> unix_parts(path.push('/') + piece) == unix_parts(path) + (
        if piece.len() == 0 || piece == seq!['.'] {
            seq![]
        } else if piece == seq!['.', '.'] {
            seq![PathPartView::ParentDir]
        } else {
            seq![PathPartView::Normal(vstd::utf8::encode_utf8(piece))]
        }),
        unix_parts(seq!['/'] + piece) == seq![PathPartView::RootDir] + (if piece.len() == 0 || piece
            == seq!['.'] {
            seq![]
        } else if piece == seq!['.', '.'] {
            seq![PathPartView::ParentDir]
        } else {
            seq![PathPartView::Normal(vstd::utf8::encode_utf8(piece))]
        }),
        unix_parts(piece) == (if piece.len() == 0 {
            seq![]
        } else if piece == seq!['.'] {
            seq![PathPartView::CurDir]
        } else if piece == seq!['.', '.'] {
            seq![PathPartView::ParentDir]
        } else {
            seq![PathPartView::Normal(vstd::utf8::encode_utf8(piece))]
        }),
{
    let none = Seq::<Seq<char>>::empty();
    assert(piece_parts(none) =~= Seq::<PathPartView>::empty());
    if path.len() > 0 {
        let pieces = text::split(path, '/');
        let all = pieces.push(piece);
        let full = path.push('/') + piece;
        text::lemma_join_split(path, '/');
        text::lemma_join_push(pieces, piece, '/');
        assert(full =~= text::join(all, '/'));
        text::lemma_split_join(all, '/');
        assert(all.drop_last() =~= pieces);
        assert(full[0] == path[0]);
        assert(unix_parts(full) =~= unix_parts(path) + match piece_part(piece, false) {
            Some(p) => seq![p],
            None => seq![],
        });
    }
    let one = seq![piece];
    assert(text::join(one, '/') =~= piece);
    text::lemma_split_join(one, '/');
    assert(one.drop_last() =~= none);
    assert(piece.len() > 0 ==> piece.contains(piece[0]));
    assert(unix_parts(piece) =~= match piece_part(piece, true) {
        Some(p) => seq![p],
        None => seq![],
    });
    let two = seq![Seq::<char>::empty(), piece];
    assert(two.skip(1) =~= one);
    assert(text::join(two, '/') =~= seq!['/'] + piece);
    text::lemma_split_join(two, '/');
    assert(two.drop_last() =~= seq![Seq::<char>::empty()]);
    assert(two.drop_last().drop_last() =~= none);
    assert(piece_parts(two.drop_last()) =~= Seq::<PathPartView>::empty());
    assert(piece_parts(two) =~= match piece_part(piece, false) {
        Some(p) => seq![p],
        None => seq![],
    });
    assert(unix_parts(seq!['/'] + piece) =~= seq![PathPartView::RootDir] + match piece_part(
        piece,
        false,
    ) {
        Some(p) => seq![p],
        None => seq![],
    });
}

/// The pieces of a path stand for names, never for a prefix or a root.
proof fn lemma_pieces_have_no_root(pieces: Seq<Seq<char>>)
    ensures
        forall|i: int|
            0 <= i < piece_parts(pieces).len() ==> !(#[trigger] piece_parts(pieces)[i] is Prefix)
                && !(piece_parts(pieces)[i] is RootDir),
    decreases pieces.len(),
{
    if pieces.len() > 0 {
        lemma_pieces_have_no_root(pieces.drop_last());
    }
}

fn bytes_of(s: &str) -> (r: Vec<u8>)
    ensures
        r@ == vstd::utf8::encode_utf8(s@),
{
    let bytes = s.as_bytes();
    let mut own: Vec<u8> = Vec::new();
    for i in 0..bytes.len()
        invariant
            own@ == bytes@.take(i as int),
    {
        own.push(bytes[i]);
        assert(bytes@.take(i as int).push(bytes@[i as int]) =~= bytes@.take(i + 1));
    }
    assert(own@ =~= bytes@);
    own
}

fn part_of(piece: &Vec<char>, first: bool) -> (r: Option<PathPart>)
    ensures
        match r {
            Some(p) => piece_part(piece@, first) == Some(p@),
            None => piece_part(piece@, first) is None,
        },
{
    let n = piece.len();
    assert(piece@ =~= seq!['.'] <==> piece@.len() == 1 && piece@[0] == '.');
    assert(piece@ =~= seq!['.', '.'] <==> piece@.len() == 2 && piece@[0] == '.' && piece@[1]
        == '.');
    if n == 0 {
        None
    } else if n == 1 && piece[0] == '.' {
        if first {
            Some(PathPart::CurDir)
        } else {
            None
        }
    } else if n == 2 && piece[0] == '.' && piece[1] == '.' {
        Some(PathPart::ParentDir)
    } else {
        let name = text::from_chars(piece);
        Some(PathPart::Normal(bytes_of(name.as_str())))
    }
}

/// The path that a text is on Unix.
pub fn unix_path(path: &str) -> (r: HostPath)
    ensures
        r.well_formed(false),
        r.components() == unix_parts(path@),
        r.shown@ == path@,
        r.utf8,
{
    let v = text::to_chars(path);
    let pieces = text::split_text(&v, '/');
    let ghost all = text::split(path@, '/');
    let absolute = v.len() > 0 && v[0] == '/';
    let mut parts: Vec<PathPart> = Vec::new();
    if absolute {
        parts.push(PathPart::RootDir);
    }
    let ghost root = part_views(parts@);
    assert(all.take(0) =~= Seq::<Seq<char>>::empty());
    assert(part_views(parts@) =~= root + piece_parts(all.take(0)));
    for i in 0..pieces.len()
        invariant
            pieces@.map_values(|p: Vec<char>| p@) == all,
            part_views(parts@) == root + piece_parts(all.take(i as int)),
    {
        let ghost before = parts@;
        assert(all.take(i + 1).drop_last() =~= all.take(i as int));
        assert(all.take(i + 1).last() == pieces@[i as int]@);
        if let Some(p) = part_of(&pieces[i], i == 0) {
            parts.push(p);
            assert(part_views(parts@) =~= part_views(before).push(p@));
        }
        assert(part_views(parts@) =~= root + piece_parts(all.take(i + 1)));
    }
    assert(all.take(all.len() as int) =~= all);
    proof {
        lemma_pieces_have_no_root(all);
        if absolute {
            assert(root =~= seq![PathPartView::RootDir]);
        } else {
            assert(root =~= Seq::<PathPartView>::empty());
            assert(root + piece_parts(all) =~= piece_parts(all));
        }
    }
    HostPath { parts, shown: path.to_owned(), absolute, utf8: true }
}

/// The path as a policy holds it: as text.
pub open spec fn path_text(p: HostPath) -> Result<Seq<char>, Seq<char>> {
    if p.utf8 {
        Ok(p.shown@)
    } else {
        Err("policy path '"@ + p.shown@ + "' is not valid UTF-8"@)
    }
}

pub open spec fn text_view(r: Result<String, String>) -> Result<Seq<char>, Seq<char>> {
    match r {
        Ok(s) => Ok(s@),
        Err(e) => Err(e@),
    }
}

pub fn policy_path_string(path: &HostPath) -> (r: Result<String, String>)
    ensures
        text_view(r) == path_text(*path),
{
    if path.utf8 {
        Ok(path.shown.as_str().to_owned())
    } else {
        Err(
            "policy path '".to_owned().concat(path.shown.as_str()).concat("' is not valid UTF-8"),
        )
    }
}

/// Whether a path needs a separator before a name that is put behind it: not
/// where it is empty or ends in one, nor where it is a drive alone.
pub open spec fn needs_separator(dir: Seq<char>, windows: bool) -> bool {
    &&& dir.len() > 0
    &&& dir.last() != '/'
    &&& !(windows && (dir.last() == '\\' || dir.len() == 2 && text::is_alpha(dir[0]) && dir[1] == ':'))
}

/// The text of a path with the name of something in it put behind it.
pub open spec fn joined(dir: Seq<char>, name: Seq<char>, windows: bool) -> Seq<char> {
    if !needs_separator(dir, windows) {
        dir + name
    } else if windows {
        dir.push('\\') + name
    } else {
        dir.push('/') + name
    }
}

pub fn join_text(dir: &str, name: &str, windows: bool) -> (s: String)
    ensures
        s@ == joined(dir@, name@, windows),
{
    let v = text::to_chars(dir);
    let n = v.len();
    let mut s = dir.to_owned();
    if n > 0 && v[n - 1] != '/' && !(windows && (v[n - 1] == '\\' || (n == 2 && text::alpha(v[0])
        && v[1] == ':'))) {
        if windows {
            s.push('\\');
        } else {
            s.push('/');
        }
    }
    s.concat(name)
}

/// Whether a character separates the components of a path.
pub open spec fn is_separator(c: char, windows: bool) -> bool {
    c == '/' || windows && c == '\\'
}

fn separator(c: char, windows: bool) -> (r: bool)
    ensures
        r == is_separator(c, windows),
{
    c == '/' || (windows && c == '\\')
}

/// Whether a path starts with a drive.
pub open spec fn has_drive(path: Seq<char>) -> bool {
    path.len() >= 2 && text::is_alpha(path[0]) && path[1] == ':'
}

/// Whether a Windows path starts with the name of a server.
pub open spec fn has_server(path: Seq<char>) -> bool {
    path.len() >= 2 && is_separator(path[0], true) && is_separator(path[1], true)
}

/// What a Windows path has before its root: a drive, or a server and the name of
/// what it shares.
pub open spec fn prefix_of(path: Seq<char>) -> Seq<char> {
    if has_drive(path) {
        path.take(2)
    } else if has_server(path) {
        let stops = seq!['/', '\\'];
        let server = 2 + text::span(path.skip(2), stops);
        if server == path.len() {
            path
        } else {
            path.take(server + 1 + text::span(path.skip(server + 1), stops))
        }
    } else {
        Seq::empty()
    }
}

/// The text of a path with another one put behind it. One that is absolute, or
/// that names a drive of its own, stands alone; on Windows one that starts at
/// the root keeps what the first path has before its root.
pub open spec fn pushed(dir: Seq<char>, path: Seq<char>, windows: bool) -> Seq<char> {
    if windows && (has_drive(path) || has_server(path)) {
        path
    } else if path.len() > 0 && is_separator(path[0], windows) {
        if windows {
            prefix_of(dir) + path
        } else {
            path
        }
    } else {
        joined(dir, path, windows)
    }
}

fn drive(v: &Vec<char>) -> (r: bool)
    ensures
        r == has_drive(v@),
{
    v.len() >= 2 && text::alpha(v[0]) && v[1] == ':'
}

fn server(v: &Vec<char>) -> (r: bool)
    ensures
        r == has_server(v@),
{
    v.len() >= 2 && separator(v[0], true) && separator(v[1], true)
}

fn prefix(v: &Vec<char>) -> (r: String)
    ensures
        r@ == prefix_of(v@),
{
    let end: usize = if drive(v) {
        2
    } else if server(v) {
        let stops: Vec<char> = vec!['/', '\\'];
        assert(stops@ =~= seq!['/', '\\']);
        let name = text::span_from(v, 2, &stops);
        if name == v.len() {
            assert(v@.take(name as int) =~= v@);
            name
        } else {
            text::span_from(v, name + 1, &stops)
        }
    } else {
        assert(v@.take(0) =~= Seq::<char>::empty());
        0
    };
    let part = text::slice(v, 0, end);
    assert(part@ =~= v@.take(end as int));
    text::from_chars(&part)
}

pub fn push_text(dir: &str, path: &str, windows: bool) -> (s: String)
    ensures
        s@ == pushed(dir@, path@, windows),
{
    let v = text::to_chars(path);
    if windows && (drive(&v) || server(&v)) {
        path.to_owned()
    } else if v.len() > 0 && separator(v[0], windows) {
        if windows {
            prefix(&text::to_chars(dir)).concat(path)
        } else {
            path.to_owned()
        }
    } else {
        join_text(dir, path, windows)
    }
}

/// A name is put behind a path with one separator between them: that of the
/// platform where the path has none at its end, and none where it has one, is
/// empty, or is a drive alone.
pub proof fn law_one_separator_stands_between(dir: Seq<char>, name: Seq<char>)
    ensures
        dir.len() > 0 && dir.last() != '/' ==> joined(dir, name, false) == dir + seq!['/'] + name,
        dir.len() > 0 && dir.last() == '/' ==> joined(dir, name, false) == dir + name,
        dir.len() > 2 && dir.last() != '/' && dir.last() != '\\' ==> joined(dir, name, true)
            == dir + seq!['\\'] + name,
        dir.len() > 0 && (dir.last() == '/' || dir.last() == '\\') ==> joined(dir, name, true)
            == dir + name,
        dir.len() == 2 && ('a' <= dir[0] <= 'z' || 'A' <= dir[0] <= 'Z') && dir[1] == ':' ==> joined(
            dir,
            name,
            true,
        ) == dir + name,
        dir.len() == 0 ==> joined(dir, name, true) == name && joined(dir, name, false) == name,
{
    assert(dir.push('/') =~= dir + seq!['/']);
    assert(dir.push('\\') =~= dir + seq!['\\']);
    assert(Seq::<char>::empty() + name =~= name);
    assert(dir.len() == 0 ==> dir =~= Seq::<char>::empty());
}

/// What is put behind a Windows path: one with a drive or a server stands alone,
/// one that starts at the root keeps the drive of the first, and any other is
/// joined.
pub proof fn law_windows_paths_keep_their_drive(dir: Seq<char>, path: Seq<char>)
    requires
        path.len() > 0,
    ensures
        path.len() > 1 && ('a' <= path[0] <= 'z' || 'A' <= path[0] <= 'Z') && path[1] == ':'
            ==> pushed(dir, path, true) == path,
        path.len() > 1 && (path[0] == '/' || path[0] == '\\') && (path[1] == '/' || path[1]
            == '\\') ==> pushed(dir, path, true) == path,
        (path[0] == '/' || path[0] == '\\') && !(path.len() > 1 && (path[1] == '/' || path[1]
            == '\\')) && dir.len() > 1 && ('a' <= dir[0] <= 'z' || 'A' <= dir[0] <= 'Z') && dir[1]
            == ':' ==> pushed(dir, path, true) == seq![dir[0], ':'] + path,
        path[0] != '/' && path[0] != '\\' && !(path.len() > 1 && path[1] == ':') ==> pushed(
            dir,
            path,
            true,
        ) == joined(dir, path, true),
{
    if dir.len() > 1 && dir[1] == ':' {
        assert(dir.take(2) =~= seq![dir[0], ':']);
    }
}

/// A path put behind another one brings no character with it but separators.
pub proof fn lemma_pushed_holds_no(dir: Seq<char>, path: Seq<char>, windows: bool, c: char)
    requires
        !dir.contains(c),
        !path.contains(c),
        !is_separator(c, true),
    ensures
        !pushed(dir, path, windows).contains(c),
{
    let s = pushed(dir, path, windows);
    if has_server(dir) {
        let stops = seq!['/', '\\'];
        let server = 2 + text::span(dir.skip(2), stops);
        text::lemma_span_bounds(dir.skip(2), stops);
        text::lemma_span_bounds(dir.skip(server + 1), stops);
    }
    assert forall|i: int| 0 <= i < s.len() implies #[trigger] s[i] != c by {
        let n = s.len() - path.len();
        if i < n && i < dir.len() {
            assert(dir.contains(dir[i]));
        } else if i >= n {
            assert(path.contains(path[i - n]));
        }
    }
}

/// A name that is one component of a path on every platform.
pub open spec fn is_child_name(name: Seq<char>) -> bool {
    &&& name.len() > 0
    &&& name != seq!['.']
    &&& name != seq!['.', '.']
    &&& forall|i: int|
        0 <= i < name.len() ==> #[trigger] name[i] != '/' && name[i] != '\\' && name[i] != ':'
}

/// Whether `child` is the path of what is called `name` in `dir`.
pub open spec fn is_child(child: HostPath, dir: HostPath, name: Seq<char>, windows: bool) -> bool {
    &&& child.components() == dir.components().push(
        PathPartView::Normal(vstd::utf8::encode_utf8(name)),
    )
    &&& child.shown@ == joined(dir.shown@, name, windows)
    &&& child.absolute == dir.absolute
    &&& child.utf8 == dir.utf8
}

/// The path of what is called `name` in a directory.
pub fn child(dir: &HostPath, name: &str, windows: bool) -> (r: HostPath)
    requires
        is_child_name(name@),
    ensures
        is_child(r, *dir, name@, windows),
        dir.well_formed(windows) ==> r.well_formed(windows),
{
    let mut parts = copy_parts(&dir.parts);
    let ghost before = parts@;
    let own = bytes_of(name);
    parts.push(PathPart::Normal(own));
    assert(part_views(parts@) =~= part_views(before).push(PathPartView::Normal(own@)));
    let r = HostPath {
        parts,
        shown: join_text(dir.shown.as_str(), name, windows),
        absolute: dir.absolute,
        utf8: dir.utf8,
    };
    proof {
        if dir.well_formed(windows) {
            lemma_child_belongs_together(r, *dir, name@, windows);
        }
    }
    r
}

/// A name in a path whose fields belong together gives such a path again.
proof fn lemma_child_belongs_together(
    child: HostPath,
    dir: HostPath,
    name: Seq<char>,
    windows: bool,
)
    requires
        is_child_name(name),
        is_child(child, dir, name, windows),
        dir.well_formed(windows),
    ensures
        child.well_formed(windows),
{
    let c = child.components();
    let d = dir.components();
    assert forall|i: int| 0 < i < c.len() implies !(#[trigger] c[i] is Prefix) && (
    c[i] is RootDir ==> i == 1 && c[0] is Prefix) by {
        if i < d.len() {
            assert(c[i] == d[i]);
        }
    }
    if !windows && dir.utf8 {
        lemma_unix_parts_of_child(dir.shown@, name);
    }
}

proof fn lemma_unix_parts_of_child(dir: Seq<char>, name: Seq<char>)
    requires
        is_child_name(name),
    ensures
        unix_parts(joined(dir, name, false)) == unix_parts(dir).push(
            PathPartView::Normal(vstd::utf8::encode_utf8(name)),
        ),
{
    let pieces = text::split(dir, '/');
    let full = joined(dir, name, false);
    let part = PathPartView::Normal(vstd::utf8::encode_utf8(name));
    assert(!name.contains('/'));
    text::lemma_join_split(dir, '/');
    if needs_separator(dir, false) {
        let all = pieces.push(name);
        text::lemma_join_push(pieces, name, '/');
        assert(full =~= text::join(all, '/'));
        text::lemma_split_join(all, '/');
        assert(all.drop_last() =~= pieces);
        assert(full[0] == dir[0]);
    } else {
        // The last piece is empty and stands for nothing.
        let front = pieces.drop_last();
        let all = front.push(name);
        text::lemma_join_ends(pieces, '/');
        assert(pieces.last().len() == 0) by {
            if pieces.last().len() > 0 {
                assert(pieces[pieces.len() - 1].contains(pieces.last().last()));
            }
        }
        assert forall|i: int| 0 <= i < all.len() implies !#[trigger] all[i].contains('/') by {
            if i < front.len() {
                assert(all[i] == pieces[i]);
            }
        }
        text::lemma_split_join(all, '/');
        assert(all.drop_last() =~= front);
        assert(pieces =~= front.push(pieces.last()));
        if front.len() > 0 {
            text::lemma_join_push(front, pieces.last(), '/');
            text::lemma_join_push(front, name, '/');
            assert(full =~= text::join(all, '/'));
            assert(full[0] == dir[0]);
        } else {
            assert(pieces =~= seq![pieces.last()]);
            assert(dir =~= Seq::<char>::empty());
            assert(full =~= name);
            assert(all =~= seq![name]);
        }
    }
    assert(unix_parts(full) =~= unix_parts(dir).push(part));
}

fn same_bytes(a: &Vec<u8>, b: &Vec<u8>) -> (r: bool)
    ensures
        r == (a@ == b@),
{
    if a.len() != b.len() {
        return false;
    }
    for i in 0..a.len()
        invariant
            a@.len() == b@.len(),
            forall|j: int| 0 <= j < i ==> a@[j] == b@[j],
    {
        if a[i] != b[i] {
            assert(a@[i as int] != b@[i as int]);
            return false;
        }
    }
    assert(a@ =~= b@);
    true
}

fn same_part(a: &PathPart, b: &PathPart) -> (r: bool)
    ensures
        r == (a@ == b@),
{
    match (a, b) {
        (PathPart::Prefix(x), PathPart::Prefix(y)) => same_bytes(x, y),
        (PathPart::RootDir, PathPart::RootDir) => true,
        (PathPart::CurDir, PathPart::CurDir) => true,
        (PathPart::ParentDir, PathPart::ParentDir) => true,
        (PathPart::Normal(x), PathPart::Normal(y)) => same_bytes(x, y),
        _ => false,
    }
}

fn copy_bytes(a: &Vec<u8>) -> (r: Vec<u8>)
    ensures
        r@ == a@,
{
    let mut r: Vec<u8> = Vec::new();
    for i in 0..a.len()
        invariant
            r@ == a@.take(i as int),
    {
        r.push(a[i]);
        assert(a@.take(i as int).push(a@[i as int]) =~= a@.take(i + 1));
    }
    assert(a@.take(a@.len() as int) =~= a@);
    r
}

fn copy_part(p: &PathPart) -> (r: PathPart)
    ensures
        r@ == p@,
{
    match p {
        PathPart::Prefix(b) => PathPart::Prefix(copy_bytes(b)),
        PathPart::RootDir => PathPart::RootDir,
        PathPart::CurDir => PathPart::CurDir,
        PathPart::ParentDir => PathPart::ParentDir,
        PathPart::Normal(b) => PathPart::Normal(copy_bytes(b)),
    }
}

/// Whether `child` is `parent` or lies below it.
pub open spec fn within(parent: Seq<PathPartView>, child: Seq<PathPartView>) -> bool {
    parent.len() <= child.len() && child.take(parent.len() as int) == parent
}

pub fn path_contains_or_equal(parent: &Vec<PathPart>, child: &Vec<PathPart>) -> (r: bool)
    ensures
        r == within(part_views(parent@), part_views(child@)),
{
    let ghost a = part_views(parent@);
    let ghost b = part_views(child@);
    if parent.len() > child.len() {
        return false;
    }
    for i in 0..parent.len()
        invariant
            a == part_views(parent@),
            b == part_views(child@),
            a.len() <= b.len(),
            forall|j: int| 0 <= j < i ==> #[trigger] a[j] == b[j],
    {
        if !same_part(&parent[i], &child[i]) {
            assert(a[i as int] != b[i as int]);
            assert(b.take(a.len() as int)[i as int] == b[i as int]);
            return false;
        }
        assert(a[i as int] == b[i as int]);
    }
    assert(b.take(a.len() as int) =~= a);
    true
}

/// Whether one of two paths lies within the other.
pub open spec fn overlap(left: Seq<PathPartView>, right: Seq<PathPartView>) -> bool {
    within(left, right) || within(right, left)
}

pub fn paths_overlap(left: &Vec<PathPart>, right: &Vec<PathPart>) -> (r: bool)
    ensures
        r == overlap(part_views(left@), part_views(right@)),
{
    path_contains_or_equal(left, right) || path_contains_or_equal(right, left)
}

/// Whether two paths are the same: component by component.
pub fn same_path(left: &Vec<PathPart>, right: &Vec<PathPart>) -> (r: bool)
    ensures
        r == (part_views(left@) == part_views(right@)),
{
    let r = left.len() == right.len() && path_contains_or_equal(left, right);
    proof {
        let a = part_views(left@);
        let b = part_views(right@);
        assert(a.len() == b.len() ==> b.take(a.len() as int) =~= b);
    }
    r
}

/// One more component behind those that are resolved so far: a root keeps only
/// the prefix, a parent takes the last name away.
pub open spec fn step(done: Seq<PathPartView>, part: PathPartView) -> Seq<PathPartView> {
    match part {
        PathPartView::Prefix(_) => seq![part],
        PathPartView::RootDir => if done.len() > 0 && done[0] is Prefix {
            seq![done[0], part]
        } else {
            seq![part]
        },
        PathPartView::CurDir => done,
        PathPartView::ParentDir => if done.len() > 0 && done.last() is Normal {
            done.drop_last()
        } else {
            done
        },
        PathPartView::Normal(_) => done.push(part),
    }
}

/// The components with `.` and `..` resolved, without looking at the disk.
pub open spec fn resolve_dots(parts: Seq<PathPartView>) -> Seq<PathPartView>
    decreases parts.len(),
{
    if parts.len() == 0 {
        seq![]
    } else {
        step(resolve_dots(parts.drop_last()), parts.last())
    }
}

/// The components of a normalized path; never none.
pub open spec fn normalized(parts: Seq<PathPartView>) -> Seq<PathPartView> {
    let r = resolve_dots(parts);
    if r.len() == 0 {
        seq![PathPartView::RootDir]
    } else {
        r
    }
}

/// The normalized form of an absolute path, or why there is none.
pub open spec fn normal_form(p: HostPath) -> Result<Seq<PathPartView>, Seq<char>> {
    if !p.absolute {
        Err("policy path '"@ + p.shown@ + "' must be absolute after expansion"@)
    } else {
        Ok(normalized(p.components()))
    }
}

pub open spec fn parts_view(r: Result<Vec<PathPart>, String>) -> Result<
    Seq<PathPartView>,
    Seq<char>,
> {
    match r {
        Ok(p) => Ok(part_views(p@)),
        Err(e) => Err(e@),
    }
}

fn take_step(done: &mut Vec<PathPart>, part: &PathPart)
    ensures
        part_views(final(done)@) == step(part_views(old(done)@), part@),
{
    let ghost before = part_views(done@);
    match part {
        PathPart::Prefix(_) => {
            let fresh: Vec<PathPart> = vec![copy_part(part)];
            *done = fresh;
            assert(part_views(done@) =~= seq![part@]);
        },
        PathPart::RootDir => {
            let mut fresh: Vec<PathPart> = Vec::new();
            if done.len() > 0 {
                if let PathPart::Prefix(b) = &done[0] {
                    fresh.push(PathPart::Prefix(copy_bytes(b)));
                    assert(fresh@[0]@ == before[0]);
                }
            }
            fresh.push(PathPart::RootDir);
            *done = fresh;
            assert(part_views(done@) =~= step(before, part@));
        },
        PathPart::CurDir => {},
        PathPart::ParentDir => {
            if done.len() > 0 {
                let is_name = matches!(&done[done.len() - 1], PathPart::Normal(_));
                assert(before.last() == done@.last()@);
                if is_name {
                    done.pop();
                    assert(part_views(done@) =~= before.drop_last());
                }
            }
        },
        PathPart::Normal(_) => {
            done.push(copy_part(part));
            assert(part_views(done@) =~= before.push(part@));
        },
    }
}

fn copy_parts(parts: &Vec<PathPart>) -> (r: Vec<PathPart>)
    ensures
        part_views(r@) == part_views(parts@),
{
    let mut r: Vec<PathPart> = Vec::new();
    for i in 0..parts.len()
        invariant
            part_views(r@) == part_views(parts@).take(i as int),
    {
        let ghost before = r@;
        r.push(copy_part(&parts[i]));
        assert(part_views(r@) =~= part_views(before).push(parts@[i as int]@));
        assert(part_views(parts@).take(i as int).push(parts@[i as int]@) =~= part_views(
            parts@,
        ).take(i + 1));
    }
    assert(part_views(parts@).take(parts@.len() as int) =~= part_views(parts@));
    r
}

/// Normalize an absolute path: resolve `.` and `..` without looking at the disk.
pub fn normalize_absolute_path(path: &HostPath) -> (r: Result<Vec<PathPart>, String>)
    ensures
        parts_view(r) == normal_form(*path),
{
    if !path.absolute {
        return Err(
            "policy path '".to_owned().concat(path.shown.as_str()).concat(
                "' must be absolute after expansion",
            ),
        );
    }
    Ok(normalize_parts(&path.parts))
}

fn normalize_parts(parts: &Vec<PathPart>) -> (r: Vec<PathPart>)
    ensures
        part_views(r@) == normalized(part_views(parts@)),
{
    let ghost all = part_views(parts@);
    let mut done: Vec<PathPart> = Vec::new();
    assert(part_views(done@) =~= resolve_dots(all.take(0)));
    for i in 0..parts.len()
        invariant
            all == part_views(parts@),
            part_views(done@) == resolve_dots(all.take(i as int)),
    {
        take_step(&mut done, &parts[i]);
        assert(all.take(i + 1).drop_last() =~= all.take(i as int));
        assert(all.take(i + 1).last() == parts@[i as int]@);
    }
    assert(all.take(all.len() as int) =~= all);
    if done.len() == 0 {
        done.push(PathPart::RootDir);
        assert(part_views(done@) =~= seq![PathPartView::RootDir]);
    }
    done
}

/// Whether a component leads nowhere else: neither `.` nor `..`.
pub open spec fn is_plain(p: PathPartView) -> bool {
    p !is CurDir && p !is ParentDir
}

/// The shape of a normalized path: a prefix and a root where there are such,
/// then names.
pub open spec fn is_normal(parts: Seq<PathPartView>) -> bool {
    forall|i: int|
        0 <= i < parts.len() ==> match #[trigger] parts[i] {
            PathPartView::Prefix(_) => i == 0,
            PathPartView::RootDir => i == 0 || (i == 1 && parts[0] is Prefix),
            PathPartView::CurDir => false,
            PathPartView::ParentDir => false,
            PathPartView::Normal(_) => true,
        }
}

proof fn lemma_resolve_is_normal(parts: Seq<PathPartView>)
    ensures
        is_normal(resolve_dots(parts)),
    decreases parts.len(),
{
    if parts.len() > 0 {
        lemma_resolve_is_normal(parts.drop_last());
        let done = resolve_dots(parts.drop_last());
        let part = parts.last();
        let r = step(done, part);
        assert forall|i: int| 0 <= i < r.len() implies match #[trigger] r[i] {
            PathPartView::Prefix(_) => i == 0,
            PathPartView::RootDir => i == 0 || (i == 1 && r[0] is Prefix),
            PathPartView::CurDir => false,
            PathPartView::ParentDir => false,
            PathPartView::Normal(_) => true,
        } by {
            if i < done.len() {
                assert(match done[i] {
                    PathPartView::Prefix(_) => i == 0,
                    PathPartView::RootDir => i == 0 || (i == 1 && done[0] is Prefix),
                    PathPartView::CurDir => false,
                    PathPartView::ParentDir => false,
                    PathPartView::Normal(_) => true,
                });
            }
        }
    }
}

proof fn lemma_resolve_fixed(parts: Seq<PathPartView>)
    requires
        is_normal(parts),
    ensures
        resolve_dots(parts) == parts,
    decreases parts.len(),
{
    if parts.len() > 0 {
        let front = parts.drop_last();
        assert forall|i: int| 0 <= i < front.len() implies match #[trigger] front[i] {
            PathPartView::Prefix(_) => i == 0,
            PathPartView::RootDir => i == 0 || (i == 1 && front[0] is Prefix),
            PathPartView::CurDir => false,
            PathPartView::ParentDir => false,
            PathPartView::Normal(_) => true,
        } by {
            assert(front[i] == parts[i]);
        }
        lemma_resolve_fixed(front);
        let n = parts.len() - 1;
        assert(parts[n] == parts.last());
        assert(step(front, parts.last()) =~= parts);
    }
}

/// A normalized path has no `.` and no `..` in it.
pub proof fn law_normalized_path_has_no_dots(parts: Seq<PathPartView>)
    ensures
        forall|i: int|
            0 <= i < normalized(parts).len() ==> is_plain(#[trigger] normalized(parts)[i]),
{
    lemma_resolve_is_normal(parts);
    let r = resolve_dots(parts);
    assert forall|i: int| 0 <= i < normalized(parts).len() implies is_plain(
        #[trigger] normalized(parts)[i],
    ) by {
        if r.len() > 0 {
            assert(r[i] == normalized(parts)[i]);
        }
    }
}

/// Normalizing a normalized path changes nothing.
pub proof fn law_normalizing_is_idempotent(parts: Seq<PathPartView>)
    ensures
        normalized(normalized(parts)) == normalized(parts),
{
    lemma_resolve_is_normal(parts);
    if resolve_dots(parts).len() == 0 {
        let root = seq![PathPartView::RootDir];
        assert(is_normal(root));
        lemma_resolve_fixed(root);
    } else {
        lemma_resolve_fixed(resolve_dots(parts));
    }
}

/// A path that starts at the root stays there: no `..` leads above it.
pub proof fn law_normalized_path_stays_below_the_root(parts: Seq<PathPartView>)
    requires
        parts.len() > 0,
        parts[0] is RootDir,
        forall|i: int| 0 < i < parts.len() ==> (#[trigger] parts[i]) !is Prefix,
    ensures
        normalized(parts)[0] is RootDir,
{
    lemma_resolve_keeps_root(parts);
}

proof fn lemma_resolve_keeps_root(parts: Seq<PathPartView>)
    requires
        parts.len() > 0,
        parts[0] is RootDir,
        forall|i: int| 0 < i < parts.len() ==> (#[trigger] parts[i]) !is Prefix,
    ensures
        resolve_dots(parts).len() > 0,
        resolve_dots(parts)[0] is RootDir,
    decreases parts.len(),
{
    let front = parts.drop_last();
    if parts.len() > 1 {
        assert(front[0] == parts[0]);
        assert forall|i: int| 0 < i < front.len() implies (#[trigger] front[i]) !is Prefix by {
            assert(front[i] == parts[i]);
        }
        lemma_resolve_keeps_root(front);
        assert(parts[parts.len() - 1] !is Prefix);
    } else {
        assert(front =~= Seq::<PathPartView>::empty());
        assert(resolve_dots(front).len() == 0);
    }
}

/// A path that starts with a root or with what stands before one, as every
/// absolute path does, comes to such a path again.
proof fn lemma_started_is_kept(parts: Seq<PathPartView>)
    requires
        parts.len() > 0,
        parts[0] is RootDir || parts[0] is Prefix,
    ensures
        resolve_dots(parts).len() > 0,
        resolve_dots(parts)[0] is RootDir || resolve_dots(parts)[0] is Prefix,
    decreases parts.len(),
{
    let front = parts.drop_last();
    if parts.len() > 1 {
        assert(front[0] == parts[0]);
        lemma_started_is_kept(front);
    } else {
        assert(front =~= Seq::<PathPartView>::empty());
        assert(resolve_dots(front).len() == 0);
    }
}

/// Normalizing follows a path step by step. A name goes behind what the path
/// before it comes to, each `..` takes away the last name of that and leaves a
/// root or a prefix alone, `.` changes nothing, a root leads back to the root,
/// and a prefix starts anew.
pub proof fn law_each_component_takes_one_step(
    path: Seq<PathPartView>,
    name: Seq<u8>,
    prefix: Seq<u8>,
)
    requires
        path.len() > 0,
        path[0] is RootDir || path[0] is Prefix,
    ensures
        normalized(path.push(PathPartView::Normal(name))) == normalized(path).push(
            PathPartView::Normal(name),
        ),
        normalized(path.push(PathPartView::ParentDir)) == if normalized(path).last() is Normal {
            normalized(path).drop_last()
        } else {
            normalized(path)
        },
        normalized(path.push(PathPartView::CurDir)) == normalized(path),
        normalized(path.push(PathPartView::RootDir)) == if normalized(path)[0] is Prefix {
            seq![normalized(path)[0], PathPartView::RootDir]
        } else {
            seq![PathPartView::RootDir]
        },
        normalized(path.push(PathPartView::Prefix(prefix))) == seq![PathPartView::Prefix(prefix)],
{
    lemma_started_is_kept(path);
    let parts = seq![
        PathPartView::Normal(name),
        PathPartView::ParentDir,
        PathPartView::CurDir,
        PathPartView::RootDir,
        PathPartView::Prefix(prefix),
    ];
    assert forall|i: int| 0 <= i < 5 implies resolve_dots(path.push(#[trigger] parts[i])) == step(
        resolve_dots(path),
        parts[i],
    ) by {
        assert(path.push(parts[i]).drop_last() =~= path);
    }
    assert(resolve_dots(path.push(parts[0])) == step(resolve_dots(path), parts[0]));
    assert(resolve_dots(path.push(parts[1])) == step(resolve_dots(path), parts[1]));
    assert(resolve_dots(path.push(parts[2])) == step(resolve_dots(path), parts[2]));
    assert(resolve_dots(path.push(parts[3])) == step(resolve_dots(path), parts[3]));
    assert(resolve_dots(path.push(parts[4])) == step(resolve_dots(path), parts[4]));
    if resolve_dots(path).last() is Normal {
        let r = resolve_dots(path);
        assert(r.drop_last()[0] == r[0]);
    }
}

/// A root alone is its own normal form, and so is a prefix with or without one.
pub proof fn law_roots_are_normal(prefix: Seq<u8>)
    ensures
        normalized(seq![PathPartView::RootDir]) == seq![PathPartView::RootDir],
        normalized(seq![PathPartView::Prefix(prefix)]) == seq![PathPartView::Prefix(prefix)],
        normalized(seq![PathPartView::Prefix(prefix), PathPartView::RootDir]) == seq![
            PathPartView::Prefix(prefix),
            PathPartView::RootDir,
        ],
{
    lemma_resolve_fixed(seq![PathPartView::RootDir]);
    lemma_resolve_fixed(seq![PathPartView::Prefix(prefix)]);
    lemma_resolve_fixed(seq![PathPartView::Prefix(prefix), PathPartView::RootDir]);
}

/// Names are kept as they are: a root with names behind it is its own normal
/// form.
pub proof fn law_plain_paths_are_kept(root: Seq<PathPartView>, names: Seq<PathPartView>)
    requires
        root == seq![PathPartView::RootDir] || (root.len() == 2 && root[0] is Prefix
            && root[1] is RootDir),
        forall|i: int| 0 <= i < names.len() ==> #[trigger] names[i] is Normal,
    ensures
        normalized(root + names) == root + names,
{
    let all = root + names;
    assert forall|i: int| 0 <= i < all.len() implies match #[trigger] all[i] {
        PathPartView::Prefix(_) => i == 0,
        PathPartView::RootDir => i == 0 || (i == 1 && all[0] is Prefix),
        PathPartView::CurDir => false,
        PathPartView::ParentDir => false,
        PathPartView::Normal(_) => true,
    } by {
        if i >= root.len() {
            assert(all[i] == names[i - root.len()]);
        }
    }
    lemma_resolve_fixed(all);
}

/// `n` times the way to the parent.
pub open spec fn climbs(n: nat) -> Seq<PathPartView> {
    Seq::new(n, |i: int| PathPartView::ParentDir)
}

/// As many `..` as there are names before them take all of these away and no
/// more, however the names are spelled; and any further ones lead nowhere above
/// the root.
pub proof fn law_climbing_undoes_descending(names: Seq<PathPartView>, n: nat)
    requires
        forall|i: int| 0 <= i < names.len() ==> #[trigger] names[i] is Normal,
    ensures
        normalized(seq![PathPartView::RootDir] + names + climbs(n)) == seq![
            PathPartView::RootDir,
        ] + names.take(if n <= names.len() { names.len() - n } else { 0 }),
    decreases n,
{
    let root = seq![PathPartView::RootDir];
    let start = root + names;
    if n == 0 {
        assert(start + climbs(0) =~= start);
        assert(names.take(names.len() as int) =~= names);
        law_plain_paths_are_kept(root, names);
    } else {
        law_climbing_undoes_descending(names, (n - 1) as nat);
        let before = start + climbs((n - 1) as nat);
        assert(start + climbs(n) =~= before.push(PathPartView::ParentDir));
        assert(before[0] == PathPartView::RootDir);
        law_each_component_takes_one_step(before, seq![], seq![]);
        let r = normalized(before);
        if n <= names.len() {
            let k = names.len() - n + 1;
            assert(r == root + names.take(k));
            assert(r.last() == names[k - 1]);
            assert(r.drop_last() =~= root + names.take(k - 1));
        } else {
            assert(r =~= root);
        }
    }
}

/// Normalizing can stop anywhere on the way and go on from what it has come to.
pub proof fn law_normalizing_goes_on_from_where_it_is(
    path: Seq<PathPartView>,
    rest: Seq<PathPartView>,
)
    requires
        path.len() > 0,
        path[0] is RootDir || path[0] is Prefix,
    ensures
        normalized(path + rest) == normalized(normalized(path) + rest),
    decreases rest.len(),
{
    lemma_started_is_kept(path);
    if rest.len() == 0 {
        assert(path + rest =~= path);
        assert(normalized(path) + rest =~= normalized(path));
        law_normalizing_is_idempotent(path);
    } else {
        let front = rest.drop_last();
        law_normalizing_goes_on_from_where_it_is(path, front);
        assert((path + rest).drop_last() =~= path + front);
        assert((normalized(path) + rest).drop_last() =~= normalized(path) + front);
        assert((path + front)[0] == path[0]);
        assert((normalized(path) + front)[0] == normalized(path)[0]);
        lemma_started_is_kept(path + front);
        lemma_started_is_kept(normalized(path) + front);
    }
}

/// A path lies within another one exactly when it is that one with components
/// behind it, and two paths overlap exactly when one of them is such a
/// continuation of the other.
pub proof fn law_within_is_continuing(
    parent: Seq<PathPartView>,
    child: Seq<PathPartView>,
    rest: Seq<PathPartView>,
)
    ensures
        within(parent, parent + rest),
        overlap(parent, parent + rest),
        overlap(parent + rest, parent),
        within(parent, child) ==> child == parent + child.skip(parent.len() as int),
        overlap(parent, child) ==> parent.is_prefix_of(child) || child.is_prefix_of(parent),
{
    assert((parent + rest).take(parent.len() as int) =~= parent);
    if within(parent, child) {
        assert(child =~= parent + child.skip(parent.len() as int));
    }
}

/// A path has a normal form exactly when it is absolute, and one that is not is
/// named in the refusal.
pub proof fn law_absolute_paths_have_a_normal_form(path: HostPath)
    ensures
        path.absolute ==> normal_form(path) == Ok::<_, Seq<char>>(normalized(path.components())),
        !path.absolute ==> normal_form(path) == Err::<Seq<PathPartView>, _>(
            "policy path '"@ + path.shown@ + "' must be absolute after expansion"@,
        ),
{
}

/// A path is taken for text exactly when it is text, and then as it reads.
pub proof fn law_text_paths_are_taken_as_they_read(path: HostPath)
    ensures
        path.utf8 ==> path_text(path) == Ok::<_, Seq<char>>(path.shown@),
        !path.utf8 ==> path_text(path) is Err,
{
}

/// Lying within is a partial order on paths.
pub proof fn law_within_is_a_partial_order(
    a: Seq<PathPartView>,
    b: Seq<PathPartView>,
    c: Seq<PathPartView>,
)
    ensures
        within(a, a),
        within(a, b) && within(b, a) ==> a == b,
        within(a, b) && within(b, c) ==> within(a, c),
        overlap(a, b) == overlap(b, a),
{
    assert(a.take(a.len() as int) =~= a);
    if within(a, b) && within(b, a) {
        assert(b.take(b.len() as int) =~= b);
    }
    if within(a, b) && within(b, c) {
        assert(c.take(a.len() as int) =~= b.take(a.len() as int)) by {
            assert forall|i: int| 0 <= i < a.len() implies c.take(a.len() as int)[i] == b.take(
                a.len() as int,
            )[i] by {
                assert(c.take(b.len() as int)[i] == b[i]);
            }
        }
    }
}

/// A path whose part that exists is being looked for. The part under
/// examination and the names taken off it, the last one first, make up the
/// normalized path.
#[derive(Debug)]
pub struct PathSearch {
    pub shown: String,
    pub existing: Vec<PathPart>,
    pub missing: Vec<PathPart>,
}

impl PathSearch {
    /// The whole path that is being looked for.
    pub open spec fn whole(&self) -> Seq<PathPartView> {
        part_views(self.existing@) + part_views(self.missing@).reverse()
    }
}

/// Begin with the normalized path itself.
pub fn begin_search(path: &HostPath) -> (r: Result<PathSearch, String>)
    ensures
        match r {
            Ok(s) => {
                &&& normal_form(*path) == Ok::<_, Seq<char>>(part_views(s.existing@))
                &&& s.missing@.len() == 0
                &&& s.shown@ == path.shown@
                &&& normal_form(*path) == Ok::<_, Seq<char>>(s.whole())
            },
            Err(e) => normal_form(*path) == Err::<Seq<PathPartView>, _>(e@),
        },
{
    match normalize_absolute_path(path) {
        Ok(existing) => {
            let s = PathSearch {
                shown: path.shown.as_str().to_owned(),
                existing,
                missing: Vec::new(),
            };
            assert(s.whole() =~= part_views(s.existing@));
            Ok(s)
        },
        Err(e) => Err(e),
    }
}

pub open spec fn no_ancestor(shown: Seq<char>) -> Seq<char> {
    "policy path '"@ + shown + "' has no resolvable ancestor"@
}

/// The part under examination does not exist: go on with its parent.
pub fn step_up(s: PathSearch) -> (r: Result<PathSearch, String>)
    ensures
        match r {
            Ok(t) => {
                &&& s.existing@.len() > 0
                &&& part_views(s.existing@).last() is Normal
                &&& part_views(t.existing@) == part_views(s.existing@).drop_last()
                &&& t.whole() == s.whole()
                &&& t.shown@ == s.shown@
            },
            Err(e) => {
                &&& s.existing@.len() == 0 || !(part_views(s.existing@).last() is Normal)
                &&& e@ == no_ancestor(s.shown@)
            },
        },
{
    let mut existing = s.existing;
    let mut missing = s.missing;
    let ghost before = part_views(existing@);
    let ghost below = part_views(missing@);
    assert(existing@.len() > 0 ==> before.last() == existing@.last()@);
    if let Some(PathPart::Normal(name)) = existing.pop() {
        assert(part_views(existing@) =~= before.drop_last());
        missing.push(PathPart::Normal(name));
        assert(part_views(missing@) =~= below.push(before.last()));
        assert(below.push(before.last()).reverse() =~= seq![before.last()] + below.reverse());
        assert(before.drop_last() + (seq![before.last()] + below.reverse()) =~= before
            + below.reverse());
        return Ok(PathSearch { shown: s.shown, existing, missing });
    }
    Err("policy path '".to_owned().concat(s.shown.as_str()).concat("' has no resolvable ancestor"))
}

/// The part under examination exists, and the disk resolves it to `resolved`:
/// the missing names go behind that.
pub fn finish_search(s: PathSearch, resolved: HostPath) -> (r: Vec<PathPart>)
    requires
        resolved.absolute,
    ensures
        part_views(r@) == normalized(resolved.components() + part_views(s.missing@).reverse()),
{
    let mut parts = resolved.parts;
    let mut missing = s.missing;
    let ghost start = part_views(parts@);
    let ghost names = part_views(missing@);
    assert(names.take(names.len() as int) =~= names);
    assert(start + Seq::<PathPartView>::empty() =~= start);
    assert(names.skip(names.len() as int).reverse() =~= Seq::<PathPartView>::empty());
    while missing.len() > 0
        invariant
            names.len() >= missing@.len(),
            part_views(missing@) == names.take(missing@.len() as int),
            part_views(parts@) == start + names.skip(missing@.len() as int).reverse(),
        decreases missing@.len(),
    {
        let ghost n = missing@.len() as int;
        let ghost before = part_views(parts@);
        assert(part_views(missing@)[n - 1] == names[n - 1]);
        match missing.pop() {
            Some(part) => {
                assert(part@ == names[n - 1]);
                parts.push(part);
                assert(part_views(parts@) =~= before.push(names[n - 1]));
                assert(names.skip(n - 1).reverse() =~= names.skip(n).reverse().push(names[n - 1]));
                assert(part_views(missing@) =~= names.take(n - 1));
            },
            None => {},
        }
    }
    assert(names.skip(0) =~= names);
    normalize_parts(&parts)
}

/// A search that finds no links on its way ends at the normalized path itself.
pub proof fn law_search_without_links_finds_the_normalized_path(
    path: HostPath,
    existing: Seq<PathPartView>,
    missing: Seq<PathPartView>,
)
    requires
        normal_form(path) == Ok::<_, Seq<char>>(existing + missing.reverse()),
    ensures
        normalized(existing + missing.reverse()) == normal_form(path)->Ok_0,
{
    law_normalizing_is_idempotent(path.components());
}

/// What is called `name` in a directory has one component more than the
/// directory, with the bytes of the name, and is otherwise what the directory is.
pub proof fn law_child_lies_one_component_deeper(
    child: HostPath,
    dir: HostPath,
    name: Seq<char>,
    windows: bool,
)
    requires
        is_child(child, dir, name, windows),
    ensures
        part_views(child.parts@).len() == part_views(dir.parts@).len() + 1,
        part_views(child.parts@).drop_last() == part_views(dir.parts@),
        part_views(child.parts@).last() == PathPartView::Normal(vstd::utf8::encode_utf8(name)),
        within(part_views(dir.parts@), part_views(child.parts@)),
        child.absolute == dir.absolute,
        child.utf8 == dir.utf8,
        child.shown@ == joined(dir.shown@, name, windows),
{
    let d = part_views(dir.parts@);
    let c = part_views(child.parts@);
    assert(c.drop_last() =~= d);
    assert(c.take(d.len() as int) =~= d);
}

/// A Unix path that is text is what it reads: two that read alike have the same
/// components and are both absolute or both not.
pub proof fn law_text_decides_a_unix_path(a: HostPath, b: HostPath)
    requires
        a.well_formed(false),
        b.well_formed(false),
        a.utf8,
        b.utf8,
        a.shown@ == b.shown@,
    ensures
        part_views(a.parts@) == part_views(b.parts@),
        a.absolute == b.absolute,
        a.absolute <==> a.shown@.len() > 0 && a.shown@[0] == '/',
{
    let c = unix_parts(a.shown@);
    let pieces = text::split(a.shown@, '/');
    lemma_pieces_have_no_root(pieces);
    if a.shown@.len() > 0 && a.shown@[0] == '/' {
        assert(c[0] == PathPartView::RootDir);
    } else if c.len() > 0 {
        assert(c[0] == piece_parts(pieces)[0]);
    }
}

/// A path without a parent that can be resolved is named in the error.
pub proof fn law_unresolvable_path_is_named(shown: Seq<char>)
    ensures
        no_ancestor(shown) == "policy path '"@ + shown + "' has no resolvable ancestor"@,
{
}

} // verus!
