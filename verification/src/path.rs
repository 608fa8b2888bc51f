//! File paths: byte strings that are compared component by component.

use vstd::prelude::*;
use vstd::string::*;
use vstd::utf8::*;

verus! {

/// The byte that separates the components of a path.
pub const SLASH: u8 = 47;

/// The byte of the component that stands for the directory itself.
pub const DOT: u8 = 46;

/// A file path as the kernel knows it: any bytes.
pub struct FilePath {
    pub bytes: Vec<u8>,
}

impl View for FilePath {
    type V = Seq<u8>;

    open spec fn view(&self) -> Seq<u8> {
        self.bytes@
    }
}

/// The components of a path. The root directory of an absolute path is the
/// component `/`.
pub struct PathParts {
    pub parts: Vec<Vec<u8>>,
}

impl View for PathParts {
    type V = Seq<Seq<u8>>;

    open spec fn view(&self) -> Seq<Seq<u8>> {
        self.parts@.map_values(|p: Vec<u8>| p@)
    }
}

/// The component that stands for the root directory.
pub open spec fn root_part() -> Seq<u8> {
    seq![SLASH]
}

/// The component `.`.
pub open spec fn dot_part() -> Seq<u8> {
    seq![DOT]
}

/// `s` cut at each slash.
pub open spec fn pieces(s: Seq<u8>) -> Seq<Seq<u8>>
    decreases s.len(),
{
    if s.len() == 0 {
        seq![Seq::empty()]
    } else {
        let before = pieces(s.drop_last());
        if s.last() == SLASH {
            before.push(Seq::empty())
        } else {
            before.drop_last().push(before.last().push(s.last()))
        }
    }
}

/// The pieces that count as components: neither empty ones nor a `.` that is
/// not in front.
pub open spec fn named_pieces(pieces: Seq<Seq<u8>>) -> Seq<Seq<u8>>
    decreases pieces.len(),
{
    if pieces.len() == 0 {
        Seq::empty()
    } else {
        let before = named_pieces(pieces.drop_last());
        if pieces.last().len() == 0 || (pieces.last() == dot_part() && pieces.len() > 1) {
            before
        } else {
            before.push(pieces.last())
        }
    }
}

/// The components of the path `s`. Repeated and trailing slashes and every `.`
/// but a leading one make no difference; `..` is a component like any other.
pub open spec fn components(s: Seq<u8>) -> Seq<Seq<u8>> {
    if s.len() > 0 && s[0] == SLASH {
        seq![root_part()] + named_pieces(pieces(s))
    } else {
        named_pieces(pieces(s))
    }
}

/// Whether two paths have the same components.
pub open spec fn same_path(a: Seq<u8>, b: Seq<u8>) -> bool {
    components(a) == components(b)
}

/// Whether the components `p` begin with the components `base`.
pub open spec fn begins_with(p: Seq<Seq<u8>>, base: Seq<Seq<u8>>) -> bool {
    base.len() <= p.len() && p.take(base.len() as int) == base
}

/// The components of the directory that holds `p`; none for a root directory
/// and for the empty path.
pub open spec fn parent_parts(p: Seq<Seq<u8>>) -> Option<Seq<Seq<u8>>> {
    if p.len() == 0 || p.last() == root_part() {
        None
    } else {
        Some(p.drop_last())
    }
}

/// Whether `dir` is the directory that holds `p`, or one above it.
pub open spec fn is_ancestor(dir: Seq<Seq<u8>>, p: Seq<Seq<u8>>) -> bool {
    &&& dir.len() < p.len()
    &&& p.take(dir.len() as int) == dir
    &&& dir.len() > 0 || p[0] != root_part()
}

/// The path of `name` inside the directory `dir`; an absolute `name` stands for
/// itself.
pub open spec fn joined(dir: Seq<u8>, name: Seq<u8>) -> Seq<u8> {
    if name.len() > 0 && name[0] == SLASH {
        name
    } else if dir.len() == 0 || dir.last() == SLASH {
        dir + name
    } else {
        dir.push(SLASH) + name
    }
}

/// The text that `String::from_utf8_lossy` gives for a byte string.
pub uninterp spec fn lossy_text(bytes: Seq<u8>) -> Seq<char>;

/// Calls `String::from_utf8_lossy`. The text is a function of the bytes. Of bytes
/// that are valid UTF-8 it is what they encode. How an invalid sequence is cut into
/// parts, in whose places a replacement character stands, is not said.
#[verifier::external_body]
fn from_utf8_lossy(bytes: &[u8]) -> (text: String)
    ensures
        text@ == lossy_text(bytes@),
        valid_utf8(bytes@) ==> text@ == decode_utf8(bytes@),
{
    String::from_utf8_lossy(bytes).into_owned()
}

fn same_bytes(a: &Vec<u8>, b: &Vec<u8>) -> (same: bool)
    ensures
        same == (a@ == b@),
{
    if a.len() != b.len() {
        return false;
    }
    let mut i: usize = 0;
    while i < a.len()
        invariant
            a.len() == b.len(),
            i <= a.len(),
            forall|j: int| 0 <= j < i ==> a@[j] == b@[j],
        decreases a.len() - i,
    {
        if a[i] != b[i] {
            return false;
        }
        i = i + 1;
    }
    assert(a@ =~= b@);
    true
}

fn is_dot(piece: &Vec<u8>) -> (b: bool)
    ensures
        b == (piece@ == dot_part()),
{
    let b = piece.len() == 1 && piece[0] == DOT;
    proof {
        if b {
            assert(piece@ =~= dot_part());
        }
    }
    b
}

/// Cutting at slashes always leaves at least one piece, and no piece holds a slash.
proof fn pieces_hold_no_slash(s: Seq<u8>)
    ensures
        pieces(s).len() > 0,
        forall|i: int, j: int|
            0 <= i < pieces(s).len() && 0 <= j < pieces(s)[i].len() ==> #[trigger] pieces(s)[i][j]
                != SLASH,
    decreases s.len(),
{
    if s.len() > 0 {
        pieces_hold_no_slash(s.drop_last());
    }
}

proof fn named_pieces_come_from_pieces(ps: Seq<Seq<u8>>)
    ensures
        forall|i: int| 0 <= i < named_pieces(ps).len() ==> ps.contains(#[trigger] named_pieces(ps)[i]),
        forall|i: int| 0 <= i < named_pieces(ps).len() ==> (#[trigger] named_pieces(ps)[i]).len() > 0,
    decreases ps.len(),
{
    if ps.len() > 0 {
        let before = ps.drop_last();
        named_pieces_come_from_pieces(before);
        assert forall|i: int| 0 <= i < named_pieces(ps).len() implies ps.contains(
            #[trigger] named_pieces(ps)[i],
        ) by {
            if i < named_pieces(before).len() {
                assert(named_pieces(ps)[i] == named_pieces(before)[i]);
                let k = choose|k: int| 0 <= k < before.len() && before[k] == named_pieces(before)[i];
                assert(ps[k] == before[k]);
            } else {
                assert(ps[ps.len() - 1] == ps.last());
            }
        }
    }
}

/// Only the first component of a path can be the root directory, and no
/// component is empty.
pub proof fn only_the_first_component_is_the_root(s: Seq<u8>)
    ensures
        forall|i: int| 0 < i < components(s).len() ==> #[trigger] components(s)[i] != root_part(),
        forall|i: int| 0 <= i < components(s).len() ==> (#[trigger] components(s)[i]).len() > 0,
{
    let ps = pieces(s);
    pieces_hold_no_slash(s);
    named_pieces_come_from_pieces(ps);
    assert forall|i: int| 0 <= i < named_pieces(ps).len() implies #[trigger] named_pieces(ps)[i]
        != root_part() by {
        let p = named_pieces(ps)[i];
        let k = choose|k: int| 0 <= k < ps.len() && ps[k] == p;
        if p == root_part() {
            assert(ps[k][0] == SLASH);
        }
    }
}

impl PathParts {
    /// Whether two lists of components are equal.
    pub fn same(&self, other: &PathParts) -> (same: bool)
        ensures
            same == (self@ == other@),
    {
        let same = self.parts.len() == other.parts.len() && self.begins_with(other);
        assert(self@.len() == self.parts@.len() && other@.len() == other.parts@.len());
        same
    }

    /// Whether these components begin with those of `base`.
    pub fn begins_with(&self, base: &PathParts) -> (b: bool)
        ensures
            b == begins_with(self@, base@),
            b && self@.len() == base@.len() ==> self@ == base@,
            self@ == base@ ==> b,
    {
        if self.parts.len() < base.parts.len() {
            return false;
        }
        let mut i: usize = 0;
        while i < base.parts.len()
            invariant
                base.parts.len() <= self.parts.len(),
                i <= base.parts.len(),
                forall|j: int| 0 <= j < i ==> self@[j] == base@[j],
            decreases base.parts.len() - i,
        {
            if !same_bytes(&self.parts[i], &base.parts[i]) {
                assert(self@[i as int] != base@[i as int]);
                assert(self@.take(base@.len() as int)[i as int] == self@[i as int]);
                return false;
            }
            assert(self@[i as int] == self.parts@[i as int]@);
            assert(base@[i as int] == base.parts@[i as int]@);
            i = i + 1;
        }
        assert(self@.take(base@.len() as int) =~= base@);
        proof {
            if self@.len() == base@.len() {
                assert(self@ =~= base@);
            }
        }
        true
    }

    /// Whether there is a directory that holds this path.
    pub fn has_parent(&self) -> (b: bool)
        ensures
            b == (parent_parts(self@) is Some),
    {
        let n: usize = self.parts.len();
        if n == 0 {
            return false;
        }
        let last = &self.parts[n - 1];
        assert(self@.last() == last@);
        let is_root = last.len() == 1 && last[0] == SLASH;
        proof {
            if is_root {
                assert(last@ =~= root_part());
            }
        }
        !is_root
    }

    /// Turns the path into the directory that holds it.
    pub fn drop_last(&mut self)
        requires
            old(self)@.len() > 0,
        ensures
            final(self)@ == old(self)@.drop_last(),
    {
        self.parts.pop();
        assert(self@ =~= old(self)@.drop_last());
    }
}

impl FilePath {
    /// The path with the given bytes.
    pub fn new(bytes: Vec<u8>) -> (path: FilePath)
        ensures
            path@ == bytes@,
    {
        FilePath { bytes }
    }

    /// The path that `text` spells in UTF-8.
    pub fn from_text(text: &str) -> (path: FilePath)
        ensures
            path@ == encode_utf8(text@),
    {
        FilePath { bytes: text.as_bytes_vec() }
    }

    /// A copy of the path.
    pub fn duplicate(&self) -> (path: FilePath)
        ensures
            path@ == self@,
    {
        let bytes = self.bytes.clone();
        assert(bytes@ =~= self.bytes@);
        FilePath { bytes }
    }

    /// The path as text, for people to read.
    pub fn display(&self) -> (text: String)
        ensures
            text@ == lossy_text(self@),
            valid_utf8(self@) ==> text@ == decode_utf8(self@),
    {
        from_utf8_lossy(self.bytes.as_slice())
    }

    /// The components of the path.
    pub fn parts(&self) -> (parts: PathParts)
        ensures
            parts@ == components(self@),
    {
        let s = &self.bytes;
        let mut parts: Vec<Vec<u8>> = Vec::new();
        let absolute = s.len() > 0 && s[0] == SLASH;
        if absolute {
            let mut root: Vec<u8> = Vec::new();
            root.push(SLASH);
            assert(root@ =~= root_part());
            parts.push(root);
        }
        let ghost head = if absolute {
            seq![root_part()]
        } else {
            Seq::<Seq<u8>>::empty()
        };
        assert(parts@.map_values(|p: Vec<u8>| p@) =~= head);
        let mut piece: Vec<u8> = Vec::new();
        let mut count: usize = 0;
        let mut i: usize = 0;
        assert(s@.take(0) =~= Seq::<u8>::empty());
        assert(pieces(s@.take(0)).drop_last() =~= Seq::<Seq<u8>>::empty());
        while i < s.len()
            invariant
                s@ == self@,
                i <= s.len(),
                count <= i,
                pieces(s@.take(i as int)).len() == count + 1,
                pieces(s@.take(i as int)).last() == piece@,
                parts@.map_values(|p: Vec<u8>| p@) =~= head + named_pieces(
                    pieces(s@.take(i as int)).drop_last(),
                ),
            decreases s.len() - i,
        {
            let ghost done = pieces(s@.take(i as int));
            let ghost before = parts@.map_values(|p: Vec<u8>| p@);
            assert(s@.take(i + 1).drop_last() =~= s@.take(i as int));
            assert(s@.take(i + 1).last() == s@[i as int]);
            if s[i] == SLASH {
                assert(pieces(s@.take(i + 1)).drop_last() =~= done);
                assert(done.drop_last().push(done.last()) =~= done);
                if piece.len() > 0 && !(count > 0 && is_dot(&piece)) {
                    let ghost last = piece@;
                    parts.push(piece);
                    assert(parts@.map_values(|p: Vec<u8>| p@) =~= before.push(last));
                }
                piece = Vec::new();
                count = count + 1;
            } else {
                piece.push(s[i]);
                assert(pieces(s@.take(i + 1)).drop_last() =~= done.drop_last());
            }
            i = i + 1;
        }
        assert(s@.take(i as int) =~= s@);
        let ghost done = pieces(s@);
        let ghost before = parts@.map_values(|p: Vec<u8>| p@);
        if piece.len() > 0 && !(count > 0 && is_dot(&piece)) {
            let ghost last = piece@;
            parts.push(piece);
            assert(parts@.map_values(|p: Vec<u8>| p@) =~= before.push(last));
        }
        let result = PathParts { parts };
        assert(result@ =~= components(self@));
        result
    }

    /// Whether the path is `base`, or lies below it.
    pub fn starts_with(&self, base: &FilePath) -> (b: bool)
        ensures
            b == begins_with(components(self@), components(base@)),
    {
        self.parts().begins_with(&base.parts())
    }

    /// Whether two paths have the same components.
    pub fn same(&self, other: &FilePath) -> (b: bool)
        ensures
            b == same_path(self@, other@),
    {
        self.parts().same(&other.parts())
    }

    /// The path of `name` inside this directory.
    pub fn join(&self, name: &str) -> (path: FilePath)
        ensures
            path@ == joined(self@, encode_utf8(name@)),
    {
        let mut name_bytes: Vec<u8> = name.as_bytes_vec();
        if name_bytes.len() > 0 && name_bytes[0] == SLASH {
            return FilePath { bytes: name_bytes };
        }
        let mut bytes = self.bytes.clone();
        assert(bytes@ =~= self@);
        if bytes.len() > 0 && bytes[bytes.len() - 1] != SLASH {
            bytes.push(SLASH);
        }
        bytes.append(&mut name_bytes);
        FilePath { bytes }
    }
}

/// The bytes of each of several paths.
pub open spec fn views(paths: Seq<FilePath>) -> Seq<Seq<u8>> {
    paths.map_values(|p: FilePath| p@)
}

/// Whether `path` is one of `roots`, or lies below one of them.
pub open spec fn within_any(path: Seq<u8>, roots: Seq<Seq<u8>>) -> bool {
    exists|i: int|
        0 <= i < roots.len() && begins_with(components(path), components(#[trigger] roots[i]))
}

/// Whether `path` is one of `roots`, or lies below one of them.
pub fn is_within_any(path: &FilePath, roots: &Vec<FilePath>) -> (b: bool)
    ensures
        b == within_any(path@, views(roots@)),
{
    let mut i: usize = 0;
    while i < roots.len()
        invariant
            i <= roots.len(),
            forall|j: int|
                0 <= j < i ==> !begins_with(
                    components(path@),
                    components(#[trigger] views(roots@)[j]),
                ),
        decreases roots.len() - i,
    {
        assert(views(roots@)[i as int] == roots@[i as int]@);
        if path.starts_with(&roots[i]) {
            return true;
        }
        i = i + 1;
    }
    false
}

/// Copies each of several paths.
pub fn duplicate_all(paths: &Vec<FilePath>) -> (copies: Vec<FilePath>)
    ensures
        views(copies@) == views(paths@),
{
    let mut copies: Vec<FilePath> = Vec::new();
    let mut i: usize = 0;
    while i < paths.len()
        invariant
            i <= paths.len(),
            views(copies@) =~= views(paths@).take(i as int),
        decreases paths.len() - i,
    {
        let copy = paths[i].duplicate();
        let ghost before = views(copies@);
        copies.push(copy);
        assert(views(copies@) =~= before.push(views(paths@)[i as int]));
        i = i + 1;
    }
    assert(views(paths@).take(i as int) =~= views(paths@));
    copies
}

/// Whether `name` is the name of one file: not empty, without slashes, and not `.`.
pub open spec fn is_plain_name(name: Seq<u8>) -> bool {
    &&& name.len() > 0
    &&& name != dot_part()
    &&& forall|i: int| 0 <= i < name.len() ==> #[trigger] name[i] != SLASH
}

proof fn pieces_after_a_slash(a: Seq<u8>, name: Seq<u8>)
    requires
        forall|i: int| 0 <= i < name.len() ==> #[trigger] name[i] != SLASH,
    ensures
        pieces(a.push(SLASH) + name) == pieces(a).push(name),
    decreases name.len(),
{
    let whole = a.push(SLASH) + name;
    if name.len() == 0 {
        assert(whole =~= a.push(SLASH));
        assert(whole.drop_last() =~= a);
        assert(name =~= Seq::<u8>::empty());
    } else {
        let shorter = name.drop_last();
        assert forall|i: int| 0 <= i < shorter.len() implies #[trigger] shorter[i] != SLASH by {
            assert(shorter[i] == name[i]);
        }
        pieces_after_a_slash(a, shorter);
        assert(whole.drop_last() =~= a.push(SLASH) + shorter);
        assert(whole.last() == name[name.len() - 1]);
        assert(pieces(a).push(shorter).drop_last() =~= pieces(a));
        assert(shorter.push(name.last()) =~= name);
    }
}

/// A file joined to a directory lies directly in that directory.
pub proof fn joined_file_lies_in_its_directory(dir: Seq<u8>, name: Seq<u8>)
    requires
        is_plain_name(name),
    ensures
        components(joined(dir, name)) == components(dir).push(name),
        parent_parts(components(joined(dir, name))) == Some(components(dir)),
        begins_with(components(joined(dir, name)), components(dir)),
{
    assert(name[0] != SLASH);
    let path = joined(dir, name);
    if dir.len() == 0 {
        pieces_of_a_name(name);
        reveal_with_fuel(named_pieces, 2);
        assert(path =~= name);
        assert(seq![name].drop_last() =~= Seq::<Seq<u8>>::empty());
        assert(pieces(dir).drop_last() =~= Seq::<Seq<u8>>::empty());
        assert(components(path) =~= seq![name]);
        assert(components(dir) =~= Seq::<Seq<u8>>::empty());
    } else if dir.last() == SLASH {
        let above = dir.drop_last();
        assert(above.push(SLASH) =~= dir);
        pieces_after_a_slash(above, name);
        pieces_hold_no_slash(above);
        assert(pieces(above).push(name).drop_last() =~= pieces(above));
        assert(pieces(above).push(Seq::empty()).drop_last() =~= pieces(above));
        assert(path[0] == dir[0]);
    } else {
        pieces_after_a_slash(dir, name);
        pieces_hold_no_slash(dir);
        assert(pieces(dir).push(name).drop_last() =~= pieces(dir));
        assert(path[0] == dir[0]);
    }
    assert(components(path) =~= components(dir).push(name));
    assert(components(path).drop_last() =~= components(dir));
    assert(components(path).take(components(dir).len() as int) =~= components(dir));
    if name == root_part() {
        assert(name[0] == SLASH);
    }
}

proof fn pieces_of_a_name(name: Seq<u8>)
    requires
        forall|i: int| 0 <= i < name.len() ==> #[trigger] name[i] != SLASH,
    ensures
        pieces(name) == seq![name],
    decreases name.len(),
{
    if name.len() > 0 {
        let shorter = name.drop_last();
        assert forall|i: int| 0 <= i < shorter.len() implies #[trigger] shorter[i] != SLASH by {
            assert(shorter[i] == name[i]);
        }
        pieces_of_a_name(shorter);
        assert(seq![shorter].drop_last() =~= Seq::<Seq<u8>>::empty());
        assert(name.last() == name[name.len() - 1]);
        assert(shorter.push(name.last()) =~= name);
        assert(Seq::<Seq<u8>>::empty().push(name) =~= seq![name]);
    } else {
        assert(name =~= Seq::<u8>::empty());
    }
}

/// A name without slashes is its own only component; the empty path has none, and that
/// of a slash alone is the root directory.
pub proof fn a_name_is_its_own_component(name: Seq<u8>)
    requires
        forall|i: int| 0 <= i < name.len() ==> #[trigger] name[i] != 47,
    ensures
        name.len() == 0 ==> components(name).len() == 0,
        name.len() > 0 ==> components(name) == seq![name],
        components(seq![47u8]) == seq![seq![47u8]],
{
    pieces_of_a_name(name);
    reveal_with_fuel(named_pieces, 3);
    reveal_with_fuel(pieces, 3);
    assert(seq![name].drop_last() =~= Seq::<Seq<u8>>::empty());
    if name.len() > 0 {
        assert(name[0] != 47);
        assert(components(name) =~= seq![name]);
    }
    let slash = seq![47u8];
    let nothing = Seq::<Seq<u8>>::empty().push(Seq::<u8>::empty());
    assert(slash.drop_last() =~= Seq::<u8>::empty());
    assert(pieces(slash.drop_last()) =~= nothing);
    assert(pieces(slash) =~= nothing.push(Seq::empty()));
    assert(pieces(slash).drop_last() =~= nothing);
    assert(nothing.drop_last() =~= Seq::<Seq<u8>>::empty());
    assert(named_pieces(nothing) =~= Seq::<Seq<u8>>::empty());
    assert(components(slash) =~= seq![seq![47u8]]);
}

/// What stands behind a slash is one component more, whatever stands in front of it,
/// unless it is nothing or a dot, which make no difference.
pub proof fn a_slash_begins_a_component(path: Seq<u8>, name: Seq<u8>)
    requires
        path.len() > 0,
        forall|i: int| 0 <= i < name.len() ==> #[trigger] name[i] != 47,
    ensures
        name.len() == 0 || name == seq![46u8] ==> components(path + seq![47u8] + name)
            == components(path),
        name.len() > 0 && name != seq![46u8] ==> components(path + seq![47u8] + name)
            == components(path).push(name),
{
    let whole = path + seq![47u8] + name;
    assert(whole =~= path.push(SLASH) + name);
    pieces_after_a_slash(path, name);
    pieces_hold_no_slash(path);
    assert(pieces(path).push(name).drop_last() =~= pieces(path));
    assert(whole[0] == path[0]);
    if name.len() > 0 && name != seq![46u8] {
        assert(components(whole) =~= components(path).push(name));
    }
}

/// A slash in front makes a path absolute: a component that is the slash stands before
/// the one that follows it.
pub proof fn a_slash_in_front_is_the_root(name: Seq<u8>)
    requires
        forall|i: int| 0 <= i < name.len() ==> #[trigger] name[i] != 47,
        name.len() > 0,
        name != seq![46u8],
    ensures
        components(seq![47u8] + name) == seq![seq![47u8], name],
{
    a_name_is_its_own_component(name);
    let whole = seq![47u8] + name;
    let start = Seq::<u8>::empty();
    assert(whole =~= start.push(SLASH) + name);
    pieces_after_a_slash(start, name);
    reveal_with_fuel(named_pieces, 3);
    assert(pieces(start) =~= seq![start]);
    assert(seq![start].drop_last() =~= Seq::<Seq<u8>>::empty());
    assert(pieces(whole).drop_last() =~= pieces(start));
    assert(components(whole) =~= seq![seq![47u8], name]);
}

/// A path begins with another exactly where it has all of the other's components in
/// their places.
pub proof fn beginnings_share_their_components(p: Seq<Seq<u8>>, base: Seq<Seq<u8>>)
    ensures
        begins_with(p, base) <==> base.len() <= p.len() && forall|i: int|
            0 <= i < base.len() ==> #[trigger] base[i] == p[i],
{
    if begins_with(p, base) {
        assert forall|i: int| 0 <= i < base.len() implies #[trigger] base[i] == p[i] by {
            assert(p.take(base.len() as int)[i] == p[i]);
        }
    } else if base.len() <= p.len() && forall|i: int|
        0 <= i < base.len() ==> #[trigger] base[i] == p[i] {
        assert(p.take(base.len() as int) =~= base);
    }
}

/// A directory with a file in it holds that file, however long its name; a path that
/// only spells on where a component ended lies elsewhere.
pub proof fn what_lies_in_a_directory_lies_within_it(dir: Seq<u8>, name: Seq<u8>, more: Seq<u8>)
    requires
        dir.len() > 0,
        name.len() > 0,
        more.len() > 0,
        dir.last() != 47,
        name != seq![46u8],
        forall|i: int| 0 <= i < name.len() ==> #[trigger] name[i] != 47,
        forall|i: int| 0 <= i < more.len() ==> #[trigger] more[i] != 47,
    ensures
        within_any(dir + seq![47u8] + name, seq![dir]),
        !within_any(dir, seq![dir + seq![47u8] + name]),
        !within_any(dir + seq![47u8] + name + more, seq![dir + seq![47u8] + name]),
{
    let inside = dir + seq![47u8] + name;
    a_slash_begins_a_component(dir, name);
    assert(seq![dir][0] == dir);
    assert(components(inside).take(components(dir).len() as int) =~= components(dir));
    assert(begins_with(components(inside), components(seq![dir][0])));
    let longer = name + more;
    assert forall|i: int| 0 <= i < longer.len() implies #[trigger] longer[i] != 47 by {
        if i < name.len() {
            assert(name[i] != 47);
        } else {
            assert(more[i - name.len()] != 47);
        }
    }
    assert(longer.len() != 1);
    a_slash_begins_a_component(dir, longer);
    assert(inside + more =~= dir + seq![47u8] + longer);
    let n = components(dir).len();
    if begins_with(components(inside + more), components(inside)) {
        assert(components(inside + more).take((n + 1) as int)[n as int] == longer);
        assert(longer == name);
    }
    let roots = seq![inside];
    assert(roots.len() == 1 && roots[0] == inside);
}

/// A path lies within a list of roots exactly where one of them, whichever, has a
/// beginning of its components for all of its own.
pub proof fn any_root_holds_what_lies_below_it(path: Seq<u8>, roots: Seq<Seq<u8>>, more: Seq<Seq<u8>>)
    ensures
        within_any(path, roots) <==> exists|i: int|
            #![trigger roots[i]]
            0 <= i < roots.len() && begins_with(components(path), components(roots[i])),
        within_any(path, roots + more) <==> within_any(path, roots) || within_any(path, more),
{
    let all = roots + more;
    if within_any(path, roots) {
        let i = choose|i: int|
            0 <= i < roots.len() && begins_with(components(path), components(#[trigger] roots[i]));
        assert(all[i] == roots[i]);
    }
    if within_any(path, more) {
        let i = choose|i: int|
            0 <= i < more.len() && begins_with(components(path), components(#[trigger] more[i]));
        assert(all[roots.len() + i] == more[i]);
    }
    if within_any(path, all) {
        let i = choose|i: int|
            0 <= i < all.len() && begins_with(components(path), components(#[trigger] all[i]));
        if i < roots.len() {
            assert(all[i] == roots[i]);
        } else {
            assert(all[i] == more[i - roots.len()]);
        }
    }
}

/// The directories above a path are the one that holds it and those above that one.
pub proof fn directories_are_reached_one_by_one(dir: Seq<Seq<u8>>, p: Seq<Seq<u8>>)
    requires
        forall|i: int| 0 < i < p.len() ==> #[trigger] p[i] != seq![47u8],
    ensures
        p.len() == 0 ==> !is_ancestor(dir, p) && parent_parts(p) is None,
        p == seq![seq![47u8]] ==> !is_ancestor(dir, p) && parent_parts(p) is None,
        p.len() > 0 && p != seq![seq![47u8]] ==> {
            &&& parent_parts(p) == Some(p.drop_last())
            &&& is_ancestor(dir, p) <==> dir == p.drop_last() || is_ancestor(dir, p.drop_last())
        },
{
    if p.len() > 0 {
        let above = p.drop_last();
        let n = dir.len() as int;
        if p.len() == 1 {
            assert(p =~= seq![p[0]]);
            assert(p.take(0) =~= Seq::<Seq<u8>>::empty());
            assert(above =~= Seq::<Seq<u8>>::empty());
        } else {
            assert(p[p.len() - 1] != seq![47u8]);
            if n < p.len() {
                assert(p.take(n) =~= above.take(n));
                if n == above.len() {
                    assert(above.take(n) =~= above);
                }
            }
            assert(above[0] == p[0]);
        }
    }
}

/// A name is put behind its directory with one slash between them, and an absolute one
/// stands for itself.
pub proof fn joining_puts_one_slash_between(dir: Seq<u8>, name: Seq<u8>)
    ensures
        name.len() > 0 && name[0] == 47 ==> joined(dir, name) == name,
        !(name.len() > 0 && name[0] == 47) ==> {
            &&& dir.len() == 0 ==> joined(dir, name) == name
            &&& dir.len() > 0 && dir.last() == 47 ==> joined(dir, name) == dir + name
            &&& dir.len() > 0 && dir.last() != 47 ==> joined(dir, name) == dir + seq![47u8] + name
        },
{
    if dir.len() == 0 {
        assert(dir + name =~= name);
    }
    assert(dir.push(SLASH) =~= dir + seq![47u8]);
}

/// The bytes of several paths are those of each, in their order.
pub proof fn views_are_taken_one_by_one(paths: Seq<FilePath>, i: int)
    requires
        0 <= i < paths.len(),
    ensures
        views(paths).len() == paths.len(),
        views(paths)[i] == paths[i]@,
{
}

/// Whether a path lies below another, and whether two are the same, is told by their
/// components: those of the one begin with those of the other, or they are equal.
pub proof fn paths_are_told_apart_by_their_components(
    path: &FilePath,
    base: &FilePath,
    roots: &Vec<FilePath>,
    below: bool,
    same: bool,
    inside: bool,
)
    requires
        call_ensures(FilePath::starts_with, (path, base), below),
        call_ensures(FilePath::same, (path, base), same),
        call_ensures(is_within_any, (path, roots), inside),
    ensures
        below <==> components(base@).len() <= components(path@).len() && forall|i: int|
            0 <= i < components(base@).len() ==> #[trigger] components(base@)[i] == components(
                path@,
            )[i],
        same <==> components(base@) == components(path@),
        inside <==> exists|i: int|
            0 <= i < roots@.len() && begins_with(
                components(path@),
                components((#[trigger] roots@[i])@),
            ),
{
    beginnings_share_their_components(components(path@), components(base@));
    let all = views(roots@);
    if within_any(path@, all) {
        let i = choose|i: int|
            0 <= i < all.len() && begins_with(components(path@), components(#[trigger] all[i]));
        assert(all[i] == roots@[i]@);
    }
    if exists|i: int|
        0 <= i < roots@.len() && begins_with(
            components(path@),
            components((#[trigger] roots@[i])@),
        ) {
        let i = choose|i: int|
            0 <= i < roots@.len() && begins_with(
                components(path@),
                components((#[trigger] roots@[i])@),
            );
        assert(all[i] == roots@[i]@);
    }
}

/// A name without slashes that is joined to a directory is the last component behind those
/// of the directory.
pub proof fn a_joined_name_is_the_last_component(dir: &FilePath, name: &str, path: FilePath)
    requires
        is_plain_name(encode_utf8(name@)),
        call_ensures(FilePath::join, (dir, name), path),
    ensures
        components(path@) == components(dir@).push(encode_utf8(name@)),
{
    joined_file_lies_in_its_directory(dir@, encode_utf8(name@));
}

/// A copy of a path is the same path, byte for byte, and of several paths each has its copy
/// in its place; the path of a text is the text in UTF-8.
pub proof fn copies_are_the_same_paths(
    path: &FilePath,
    copy: FilePath,
    all: &Vec<FilePath>,
    copies: Vec<FilePath>,
    i: int,
    text: &str,
    spelled: FilePath,
)
    requires
        call_ensures(FilePath::duplicate, (path,), copy),
        call_ensures(duplicate_all, (all,), copies),
        0 <= i < all@.len(),
        call_ensures(FilePath::from_text, (text,), spelled),
    ensures
        copy@ == path@,
        copies@.len() == all@.len(),
        copies@[i]@ == all@[i]@,
        spelled@ == encode_utf8(text@),
{
    assert(views(copies@).len() == copies@.len() && views(all@).len() == all@.len());
    assert(views(copies@)[i] == copies@[i]@ && views(all@)[i] == all@[i]@);
}

} // verus!
