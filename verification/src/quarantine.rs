//! Moving suspicious files out of harm's way, under names that fit and do not
//! collide.

use vstd::prelude::*;
use vstd::string::*;
use vstd::utf8::*;

use crate::digest::{digest, is_hashable, sha256};
use crate::encoding::{
    encoding_of_a_concatenation, encoding_of_one_more, encoding_of_text_without_slashes, width,
    width_of,
};
use crate::path::{
    begins_with, components, dot_part, is_plain_name, is_within_any, joined, joined_file_lies_in_its_directory,
    joining_puts_one_slash_between, lossy_text, parent_parts, views, within_any, FilePath,
};
use crate::text::{
    decimal, decimal_is_injective, decimal_shape, hex, hex_is_injective, hex_length,
    is_control, is_control_char, is_digit, push_decimal, push_signed_decimal, signed_decimal,
    to_hex,
};

verus! {

/// How many characters of the original path a quarantine name shows at most.
pub const MAX_READABLE: usize = 120;

/// The most bytes that a quarantine name may have: one less than the longest file
/// name that the kernel takes.
pub const MAX_NAME_BYTES: usize = 254;

/// How many bytes of a path's digest are part of its quarantine name.
pub const HASHED_BYTES: usize = 8;

/// `s` with each slash and each control character replaced by an underscore.
pub open spec fn flattened(s: Seq<char>) -> Seq<char> {
    s.map_values(|c: char| if c == '/' || is_control_char(c) { '_' } else { c })
}

/// The longest end of `s` that has at most `max` characters and `room` bytes.
pub open spec fn tail(s: Seq<char>, max: nat, room: nat) -> Seq<char>
    decreases s.len(),
{
    if s.len() == 0 || max == 0 || width(s.last()) > room {
        Seq::empty()
    } else {
        tail(s.drop_last(), (max - 1) as nat, (room - width(s.last())) as nat).push(s.last())
    }
}

/// What stands in front of the readable part of a quarantine name.
pub open spec fn name_head(stamp: u64, pid: i32) -> Seq<char> {
    decimal(stamp as nat) + seq!['_'] + signed_decimal(pid as int) + seq!['_']
}

/// The bytes of a digest that are part of a name.
pub open spec fn first_bytes(digest: Seq<u8>) -> Seq<u8> {
    Seq::new(HASHED_BYTES as nat, |i: int| digest[i])
}

/// What stands behind the readable part.
pub open spec fn name_end(digest: Seq<u8>) -> Seq<char> {
    seq!['_'] + hex(first_bytes(digest))
}

/// The part of the original path that a quarantine name shows: its end, as much of
/// it as there is room for.
pub open spec fn readable(stamp: u64, pid: i32, full: Seq<char>) -> Seq<char> {
    tail(
        flattened(full),
        MAX_READABLE as nat,
        (MAX_NAME_BYTES - name_head(stamp, pid).len() - 1 - 2 * HASHED_BYTES) as nat,
    )
}

/// The name under which a file is kept whose path reads `full` and has the given
/// digest.
pub open spec fn name_for(stamp: u64, pid: i32, full: Seq<char>, digest: Seq<u8>) -> Seq<char> {
    name_head(stamp, pid) + readable(stamp, pid, full) + name_end(digest)
}

/// The name under which the file at `original` is kept.
pub open spec fn quarantine_name_of(stamp: u64, pid: i32, original: Seq<u8>) -> Seq<char> {
    name_for(stamp, pid, lossy_text(original), sha256(original))
}

/// Whether a path is short enough for its digest to be taken.
pub open spec fn is_nameable(original: Seq<u8>) -> bool {
    is_hashable(original.len())
}

proof fn head_shape(stamp: u64, pid: i32)
    ensures
        4 <= name_head(stamp, pid).len() <= 33,
        forall|i: int|
            0 <= i < name_head(stamp, pid).len() ==> {
                let c = #[trigger] name_head(stamp, pid)[i];
                is_digit(c) || c == '_' || c == '-'
            },
        is_digit(name_head(stamp, pid)[0]),
{
    assert(vstd::arithmetic::power::pow(10, 20) == 100_000_000_000_000_000_000) by {
        reveal(vstd::arithmetic::power::pow);
        reveal_with_fuel(vstd::arithmetic::power::pow, 21);
    }
    assert(vstd::arithmetic::power::pow(10, 10) == 10_000_000_000) by {
        reveal(vstd::arithmetic::power::pow);
        reveal_with_fuel(vstd::arithmetic::power::pow, 11);
    }
    decimal_shape(stamp as nat, 20);
    let magnitude: nat = if pid < 0 {
        (-(pid as int)) as nat
    } else {
        pid as nat
    };
    decimal_shape(magnitude, 10);
    let d = decimal(stamp as nat);
    let p = signed_decimal(pid as int);
    assert(forall|i: int| 0 <= i < d.len() ==> is_digit(#[trigger] d[i]));
    assert forall|i: int| 0 <= i < p.len() implies is_digit(#[trigger] p[i]) || p[i] == '-' by {
        if pid < 0 && i > 0 {
            assert(p[i] == decimal(magnitude)[i - 1]);
        } else if pid >= 0 {
            assert(p[i] == decimal(magnitude)[i]);
        }
    }
    let h = name_head(stamp, pid);
    assert forall|i: int| 0 <= i < h.len() implies {
        let c = #[trigger] h[i];
        is_digit(c) || c == '_' || c == '-'
    } by {
        if i < d.len() {
            assert(h[i] == d[i]);
        } else if d.len() < i < d.len() + 1 + p.len() {
            assert(h[i] == p[i - d.len() - 1]);
        }
    }
    assert(h[0] == d[0]);
}

/// A path's characters with slashes and control characters flattened.
fn flatten(full: &str) -> (flat: Vec<char>)
    ensures
        flat@ == flattened(full@),
{
    let mut flat: Vec<char> = Vec::new();
    for c in it: full.chars()
        invariant
            it.seq() == full@,
            flat@ == flattened(full@).take(it.index() as int),
    {
        if c == '/' || is_control(c) {
            flat.push('_');
        } else {
            flat.push(c);
        }
    }
    flat
}

/// Where the longest end of `s` with at most `max` characters and `room` bytes
/// begins.
fn tail_start(s: &Vec<char>, max: usize, room: usize) -> (start: usize)
    ensures
        start <= s@.len(),
        s@.skip(start as int) == tail(s@, max as nat, room as nat),
{
    let mut i: usize = s.len();
    let mut chars_left: usize = max;
    let mut room_left: usize = room;
    assert(s@.take(i as int) =~= s@);
    assert(s@.skip(i as int) =~= Seq::<char>::empty());
    assert(tail(s@, max as nat, room as nat) + s@.skip(i as int) =~= tail(
        s@,
        max as nat,
        room as nat,
    ));
    while i > 0 && chars_left > 0 && width_of(s[i - 1]) <= room_left
        invariant
            i <= s@.len(),
            tail(s@, max as nat, room as nat) == tail(
                s@.take(i as int),
                chars_left as nat,
                room_left as nat,
            ) + s@.skip(i as int),
        decreases i,
    {
        let ghost before = s@.take(i as int);
        assert(before.last() == s@[i - 1]);
        assert(before.drop_last() =~= s@.take(i - 1));
        chars_left = chars_left - 1;
        room_left = room_left - width_of(s[i - 1]);
        i = i - 1;
        proof {
            let rest = tail(s@.take(i as int), chars_left as nat, room_left as nat);
            assert(rest.push(s@[i as int]) + s@.skip(i + 1) =~= rest + s@.skip(i as int));
        }
    }
    proof {
        if i > 0 {
            assert(s@.take(i as int).last() == s@[i - 1]);
        }
        let rest = tail(s@.take(i as int), chars_left as nat, room_left as nat);
        assert(rest =~= Seq::<char>::empty());
        assert(rest + s@.skip(i as int) =~= s@.skip(i as int));
    }
    i
}

/// The name under which a file is kept, given the text of its path and the digest of
/// the path's bytes. It shows when the file was taken, from which process, and the end of its
/// path, and it ends in a part of the digest, which tells paths with the same end
/// apart.
pub fn name_from(stamp: u64, pid: i32, full: &str, digest: &Vec<u8>) -> (name: String)
    requires
        digest@.len() == 32,
    ensures
        name@ == name_for(stamp, pid, full@, digest@),
{
    let mut name = String::new();
    push_decimal(&mut name, stamp as u128);
    name.push('_');
    push_signed_decimal(&mut name, pid);
    name.push('_');
    proof {
        head_shape(stamp, pid);
        assert(name@ =~= name_head(stamp, pid));
        let h = name@;
        assert forall|i: int| 0 <= i < h.len() implies (#[trigger] h[i]) as u32 <= 0x7f by {
            assert(is_digit(h[i]) || h[i] == '_' || h[i] == '-');
        }
        ascii_length(h);
    }
    let used: usize = name.as_str().len();
    let room: usize = MAX_NAME_BYTES - used - 1 - 2 * HASHED_BYTES;
    let flat = flatten(full);
    let mut i: usize = tail_start(&flat, MAX_READABLE, room);
    let ghost start = i as int;
    let ghost head = name@;
    assert(head + flat@.subrange(start, start) =~= head);
    while i < flat.len()
        invariant
            0 <= start <= i <= flat@.len(),
            name@ == head + flat@.subrange(start, i as int),
        decreases flat.len() - i,
    {
        name.push(flat[i]);
        assert(flat@.subrange(start, i + 1) =~= flat@.subrange(start, i as int).push(
            flat@[i as int],
        ));
        i = i + 1;
    }
    assert(flat@.subrange(start, i as int) =~= flat@.skip(start));
    name.push('_');
    let mut short: Vec<u8> = Vec::new();
    let mut j: usize = 0;
    while j < HASHED_BYTES
        invariant
            j <= HASHED_BYTES,
            digest@.len() == 32,
            short@ == digest@.take(j as int),
        decreases HASHED_BYTES - j,
    {
        short.push(digest[j]);
        assert(digest@.take(j + 1) =~= digest@.take(j as int).push(digest@[j as int]));
        j = j + 1;
    }
    assert(short@ =~= first_bytes(digest@));
    let short_hash = to_hex(short.as_slice());
    name.append(short_hash.as_str());
    assert(name@ =~= name_for(stamp, pid, full@, digest@));
    name
}

/// The name under which the file at `original` is kept. The digest in it is that of the
/// path's bytes: paths that are no text, and read alike, are told apart.
pub fn quarantine_name(stamp: u64, pid: i32, original: &FilePath) -> (name: String)
    requires
        is_nameable(original@),
    ensures
        name@ == quarantine_name_of(stamp, pid, original@),
        encode_utf8(name@).len() < 255,
        is_plain_name(encode_utf8(name@)),
{
    let full = original.display();
    let digest = digest(original.bytes.as_slice());
    proof {
        a_quarantine_name_is_a_usable_file_name(stamp, pid, full@, digest@);
    }
    name_from(stamp, pid, full.as_str(), &digest)
}

proof fn tail_fits(s: Seq<char>, max: nat, room: nat)
    ensures
        encode_utf8(tail(s, max, room)).len() <= room,
        tail(s, max, room).len() <= max,
        tail(s, max, room).len() <= s.len(),
        tail(s, max, room) == s.skip(s.len() - tail(s, max, room).len()),
    decreases s.len(),
{
    let t = tail(s, max, room);
    if s.len() == 0 || max == 0 || width(s.last()) > room {
        assert(s.skip(s.len() as int) =~= Seq::<char>::empty());
    } else {
        let shorter = s.drop_last();
        let less = (room - width(s.last())) as nat;
        tail_fits(shorter, (max - 1) as nat, less);
        let u = tail(shorter, (max - 1) as nat, less);
        encoding_of_one_more(u, s.last());
        assert(s.skip(s.len() - t.len()) =~= shorter.skip(shorter.len() - u.len()).push(s.last()));
    }
}

proof fn end_shape(digest: Seq<u8>)
    ensures
        name_end(digest).len() == 1 + 2 * HASHED_BYTES,
        forall|i: int|
            0 <= i < name_end(digest).len() ==> 0x30 <= (#[trigger] name_end(digest)[i]) as u32 <= 0x66,
{
    hex_length(first_bytes(digest));
}

proof fn ascii_char(c: char)
    requires
        c as u32 <= 0x7f,
    ensures
        '\0' <= c <= '\u{7f}',
{
}

proof fn ascii_length(s: Seq<char>)
    requires
        forall|i: int| 0 <= i < s.len() ==> (#[trigger] s[i]) as u32 <= 0x7f,
    ensures
        encode_utf8(s).len() == s.len(),
{
    assert forall|i: int| 0 <= i < s.len() implies '\0' <= #[trigger] s[i] <= '\u{7f}' by {
        ascii_char(s[i]);
    }
    is_ascii_chars_encode_utf8(s);
}

/// However deep a path is and whatever characters it has, its quarantine name fits
/// a file name, and is one: it has fewer than 255 bytes and neither a slash nor a
/// control character.
pub proof fn a_quarantine_name_is_a_usable_file_name(
    stamp: u64,
    pid: i32,
    full: Seq<char>,
    digest: Seq<u8>,
)
    ensures
        encode_utf8(name_for(stamp, pid, full, digest)).len() < 255,
        is_plain_name(encode_utf8(name_for(stamp, pid, full, digest))),
        forall|i: int|
            0 <= i < name_for(stamp, pid, full, digest).len() ==> {
                let c = #[trigger] name_for(stamp, pid, full, digest)[i];
                c != '/' && !is_control_char(c)
            },
{
    let h = name_head(stamp, pid);
    let r = readable(stamp, pid, full);
    let e = name_end(digest);
    let room = (MAX_NAME_BYTES - h.len() - 1 - 2 * HASHED_BYTES) as nat;
    head_shape(stamp, pid);
    end_shape(digest);
    tail_fits(flattened(full), MAX_READABLE as nat, room);
    assert forall|i: int| 0 <= i < h.len() implies (#[trigger] h[i]) as u32 <= 0x7f by {
        assert(is_digit(h[i]) || h[i] == '_' || h[i] == '-');
    }
    ascii_length(h);
    ascii_length(e);
    encoding_of_a_concatenation(h, r);
    encoding_of_a_concatenation(h + r, e);
    let name = name_for(stamp, pid, full, digest);
    assert forall|i: int| 0 <= i < name.len() implies {
        let c = #[trigger] name[i];
        c != '/' && !is_control_char(c)
    } by {
        if i < h.len() {
            assert(name[i] == h[i]);
            assert(is_digit(h[i]) || h[i] == '_' || h[i] == '-');
        } else if i < h.len() + r.len() {
            assert(name[i] == r[i - h.len()]);
            let flat = flattened(full);
            assert(r[i - h.len()] == flat[flat.len() - r.len() + i - h.len()]);
        } else {
            assert(name[i] == e[i - h.len() - r.len()]);
        }
    }
    encoding_of_text_without_slashes(name);
    let bytes = encode_utf8(name);
    if bytes == dot_part() {
        assert(bytes.len() >= name.len());
        assert(dot_part().len() == 1);
    }
}

/// Two paths get the same name only where the files were taken in the same second from
/// the same process, the paths end alike, and the digests of their bytes begin alike. So paths are told
/// apart however they read, as far as eight bytes of their digests tell them apart.
pub proof fn quarantine_names_do_not_collide(
    stamp: u64,
    pid: i32,
    original: Seq<u8>,
    other_stamp: u64,
    other_pid: i32,
    other: Seq<u8>,
)
    requires
        quarantine_name_of(stamp, pid, original) == quarantine_name_of(
            other_stamp,
            other_pid,
            other,
        ),
    ensures
        stamp == other_stamp,
        pid == other_pid,
        first_bytes(sha256(original)) == first_bytes(sha256(other)),
        readable(stamp, pid, lossy_text(original)) == readable(
            other_stamp,
            other_pid,
            lossy_text(other),
        ),
{
    names_do_not_collide(
        stamp,
        pid,
        lossy_text(original),
        sha256(original),
        other_stamp,
        other_pid,
        lossy_text(other),
        sha256(other),
    );
}

proof fn names_do_not_collide(
    stamp: u64,
    pid: i32,
    full: Seq<char>,
    digest: Seq<u8>,
    other_stamp: u64,
    other_pid: i32,
    other_full: Seq<char>,
    other_digest: Seq<u8>,
)
    requires
        name_for(stamp, pid, full, digest) == name_for(
            other_stamp,
            other_pid,
            other_full,
            other_digest,
        ),
    ensures
        stamp == other_stamp,
        pid == other_pid,
        first_bytes(digest) == first_bytes(other_digest),
        readable(stamp, pid, full) == readable(other_stamp, other_pid, other_full),
{
    let name = name_for(stamp, pid, full, digest);
    let d = decimal(stamp as nat);
    let od = decimal(other_stamp as nat);
    let p = signed_decimal(pid as int);
    let op = signed_decimal(other_pid as int);
    number_shape(stamp as nat);
    number_shape(other_stamp as nat);
    signed_shape(pid);
    signed_shape(other_pid);
    let rest = p + seq!['_'] + readable(stamp, pid, full) + name_end(digest);
    let orest = op + seq!['_'] + readable(other_stamp, other_pid, other_full) + name_end(
        other_digest,
    );
    assert(name =~= d + seq!['_'] + rest);
    assert(name =~= od + seq!['_'] + orest);
    split_at_the_first_underscore(d, rest, od, orest);
    decimal_is_injective(stamp as nat, other_stamp as nat);
    let last = readable(stamp, pid, full) + name_end(digest);
    let olast = readable(other_stamp, other_pid, other_full) + name_end(other_digest);
    assert(rest =~= p + seq!['_'] + last);
    assert(orest =~= op + seq!['_'] + olast);
    split_at_the_first_underscore(p, last, op, olast);
    signed_is_injective(pid, other_pid);
    end_shape(digest);
    end_shape(other_digest);
    let n = last.len() - name_end(digest).len();
    assert(last.take(n) =~= readable(stamp, pid, full));
    assert(olast.take(n) =~= readable(other_stamp, other_pid, other_full));
    let k = n + 1;
    assert(last.skip(k) =~= hex(first_bytes(digest)));
    assert(olast.skip(k) =~= hex(first_bytes(other_digest)));
    hex_is_injective(first_bytes(digest), first_bytes(other_digest));
}

proof fn number_shape(n: nat)
    requires
        n <= u64::MAX,
    ensures
        forall|i: int| 0 <= i < decimal(n).len() ==> #[trigger] decimal(n)[i] != '_',
{
    assert(vstd::arithmetic::power::pow(10, 20) == 100_000_000_000_000_000_000) by {
        reveal(vstd::arithmetic::power::pow);
        reveal_with_fuel(vstd::arithmetic::power::pow, 21);
    }
    decimal_shape(n, 20);
    assert forall|i: int| 0 <= i < decimal(n).len() implies #[trigger] decimal(n)[i] != '_' by {
        assert(is_digit(decimal(n)[i]));
    }
}

proof fn signed_shape(n: i32)
    ensures
        forall|i: int|
            0 <= i < signed_decimal(n as int).len() ==> #[trigger] signed_decimal(n as int)[i]
                != '_',
        n >= 0 ==> is_digit(signed_decimal(n as int)[0]),
        signed_decimal(n as int).len() > 0,
{
    let magnitude: nat = if n < 0 {
        (-(n as int)) as nat
    } else {
        n as nat
    };
    number_shape(magnitude);
    assert(vstd::arithmetic::power::pow(10, 20) == 100_000_000_000_000_000_000) by {
        reveal(vstd::arithmetic::power::pow);
        reveal_with_fuel(vstd::arithmetic::power::pow, 21);
    }
    decimal_shape(magnitude, 20);
    let s = signed_decimal(n as int);
    assert forall|i: int| 0 <= i < s.len() implies #[trigger] s[i] != '_' by {
        if n < 0 && i > 0 {
            assert(s[i] == decimal(magnitude)[i - 1]);
        } else if n >= 0 {
            assert(s[i] == decimal(magnitude)[i]);
        }
    }
}

proof fn signed_is_injective(a: i32, b: i32)
    requires
        signed_decimal(a as int) == signed_decimal(b as int),
    ensures
        a == b,
{
    signed_shape(a);
    signed_shape(b);
    let s = signed_decimal(a as int);
    if a < 0 && b < 0 {
        assert(s.skip(1) =~= decimal((-(a as int)) as nat));
        assert(s.skip(1) =~= decimal((-(b as int)) as nat));
        decimal_is_injective((-(a as int)) as nat, (-(b as int)) as nat);
    } else if a >= 0 && b >= 0 {
        decimal_is_injective(a as nat, b as nat);
    } else {
        assert(s[0] == '-');
        assert(is_digit(s[0]));
    }
}

proof fn split_at_the_first_underscore(
    a: Seq<char>,
    rest: Seq<char>,
    b: Seq<char>,
    other: Seq<char>,
)
    requires
        a + seq!['_'] + rest == b + seq!['_'] + other,
        forall|i: int| 0 <= i < a.len() ==> #[trigger] a[i] != '_',
        forall|i: int| 0 <= i < b.len() ==> #[trigger] b[i] != '_',
    ensures
        a == b,
        rest == other,
{
    let whole = a + seq!['_'] + rest;
    assert(whole[a.len() as int] == '_');
    assert(whole[b.len() as int] == '_');
    if a.len() < b.len() {
        assert(whole[a.len() as int] == b[a.len() as int]);
    }
    if b.len() < a.len() {
        assert(whole[b.len() as int] == a[b.len() as int]);
    }
    assert(a =~= whole.take(a.len() as int));
    assert(b =~= whole.take(a.len() as int));
    assert(rest =~= whole.skip(a.len() as int + 1));
    assert(other =~= whole.skip(a.len() as int + 1));
}

/// The permissions of the quarantine directory: its owner's alone. It holds what
/// ransomware has written.
pub const QUARANTINE_DIR_MODE: u32 = 0o700;

/// A line of the manifest: what was taken, when, from which process, and why.
pub struct ManifestEntry {
    pub quarantined_at_unix: u64,
    pub pid: i32,
    pub reason: String,
    pub original_path: String,
    pub quarantine_name: String,
}

/// Where suspicious files are kept, and where they may be taken from.
pub struct Quarantine {
    dir: FilePath,
    roots: Vec<FilePath>,
}

/// A quarantine directory, and the directories that files may be taken from.
#[verifier::ext_equal]
pub struct QuarantineModel {
    pub dir: Seq<u8>,
    pub roots: Seq<Seq<u8>>,
}

impl View for Quarantine {
    type V = QuarantineModel;

    closed spec fn view(&self) -> QuarantineModel {
        QuarantineModel { dir: self.dir@, roots: views(self.roots@) }
    }
}

impl QuarantineModel {
    /// Where the file at `original` goes.
    pub open spec fn destination(self, stamp: u64, pid: i32, original: Seq<u8>) -> Seq<u8> {
        joined(self.dir, encode_utf8(quarantine_name_of(stamp, pid, original)))
    }
}

/// Whether `path` names something in the directory `dir` itself, and in none below it.
pub open spec fn lies_directly_in(path: Seq<u8>, dir: Seq<u8>) -> bool {
    parent_parts(components(path)) == Some(components(dir))
}

/// What stands at the path of a file that is to be taken; the last component is not
/// followed.
#[derive(Clone, Copy, PartialEq, Eq, Structural, Debug)]
pub enum Original {
    /// Nothing, any more.
    Gone,
    /// A symbolic link.
    Symlink,
    /// A file of another kind.
    File,
}

/// What has to be done next to take a file.
pub enum TakeAction {
    /// Find out what stands at this path.
    Examine { original: FilePath },
    /// Resolve every link in the path of the directory that holds this link.
    ResolveDirectory { original: FilePath },
    /// Remove the link at this path, without following it.
    RemoveLink { original: FilePath },
    /// Resolve every link in this path, and read the time.
    Resolve { original: FilePath },
    /// Rename the file.
    Rename { original: FilePath, dest: FilePath },
    /// Copy the file: it could not be renamed.
    Copy { original: FilePath, dest: FilePath },
    /// Remove the file: it has been copied.
    RemoveOriginal { original: FilePath },
    /// Append this to the manifest.
    Record { entry: ManifestEntry },
    /// It is over.
    End(Taken),
}

/// What an action has come to.
pub enum TakeAnswer {
    /// It worked.
    Done,
    /// It did not.
    Refused,
    /// What stands at the path.
    Found(Original),
    /// The path of the directory without links, where it could be resolved.
    Directory(Option<FilePath>),
    /// The path without links, where it could be resolved, and the time.
    Resolved { canonical: Option<FilePath>, stamp: u64 },
}

/// What has come of the file.
pub enum Taken {
    /// There was nothing to take, or nothing that may be taken.
    Nothing,
    /// It is at this place now.
    Moved(FilePath),
    /// It could not be moved.
    Failed,
}

/// How far the taking of a file has come.
#[derive(Clone, Copy, PartialEq, Eq, Structural, Debug)]
pub enum TakePhase {
    Examine,
    ResolveDirectory,
    RemoveLink,
    Resolve,
    Rename { stamp: u64 },
    Copy { stamp: u64 },
    RemoveOriginal { stamp: u64 },
    Record { stamp: u64 },
    Nothing,
    Moved { stamp: u64 },
    Failed,
}

/// The path that a file really has: with its links resolved where that was possible.
pub open spec fn real_path(original: Seq<u8>, canonical: Option<FilePath>) -> Seq<u8> {
    match canonical {
        Some(path) => path@,
        None => original,
    }
}

/// How far the taking of `original` has come once the action at hand has come to
/// `answer`. A link is removed and not followed; a link or a file that really lies
/// outside every root is left alone; a file that cannot be renamed is copied.
pub open spec fn take_step(
    q: QuarantineModel,
    original: Seq<u8>,
    phase: TakePhase,
    answer: TakeAnswer,
) -> TakePhase {
    match phase {
        TakePhase::Examine => match answer {
            TakeAnswer::Found(Original::Gone) => TakePhase::Nothing,
            TakeAnswer::Found(Original::Symlink) => TakePhase::ResolveDirectory,
            TakeAnswer::Found(Original::File) => TakePhase::Resolve,
            _ => TakePhase::Failed,
        },
        TakePhase::ResolveDirectory => match answer {
            TakeAnswer::Directory(Some(dir)) => if within_any(dir@, q.roots) {
                TakePhase::RemoveLink
            } else {
                TakePhase::Nothing
            },
            TakeAnswer::Directory(None) => TakePhase::Nothing,
            _ => TakePhase::Failed,
        },
        TakePhase::RemoveLink => TakePhase::Nothing,
        TakePhase::Resolve => match answer {
            TakeAnswer::Resolved { canonical, stamp } => if within_any(
                real_path(original, canonical),
                q.roots,
            ) {
                TakePhase::Rename { stamp }
            } else {
                TakePhase::Nothing
            },
            _ => TakePhase::Failed,
        },
        TakePhase::Rename { stamp } => match answer {
            TakeAnswer::Done => TakePhase::Record { stamp },
            _ => TakePhase::Copy { stamp },
        },
        TakePhase::Copy { stamp } => match answer {
            TakeAnswer::Done => TakePhase::RemoveOriginal { stamp },
            _ => TakePhase::Failed,
        },
        TakePhase::RemoveOriginal { stamp } => TakePhase::Record { stamp },
        TakePhase::Record { stamp } => TakePhase::Moved { stamp },
        _ => phase,
    }
}

/// The work of taking a file.
pub struct Taking<'a> {
    quarantine: &'a Quarantine,
    original: FilePath,
    pid: i32,
    reason: String,
    phase: TakePhase,
}

/// The work of taking a file, so far.
#[verifier::ext_equal]
pub struct TakingModel {
    pub quarantine: QuarantineModel,
    pub original: Seq<u8>,
    pub pid: i32,
    pub reason: Seq<char>,
    pub phase: TakePhase,
}

impl<'a> View for Taking<'a> {
    type V = TakingModel;

    closed spec fn view(&self) -> TakingModel {
        TakingModel {
            quarantine: self.quarantine@,
            original: self.original@,
            pid: self.pid,
            reason: self.reason@,
            phase: self.phase,
        }
    }
}

impl TakingModel {
    pub open spec fn destination(self, stamp: u64) -> Seq<u8> {
        self.quarantine.destination(stamp, self.pid, self.original)
    }

    /// Whether `entry` is what the manifest has to say.
    pub open spec fn is_recorded_by(self, stamp: u64, entry: ManifestEntry) -> bool {
        &&& entry.quarantined_at_unix == stamp
        &&& entry.pid == self.pid
        &&& entry.reason@ == self.reason
        &&& entry.original_path@ == lossy_text(self.original)
        &&& entry.quarantine_name@ == quarantine_name_of(stamp, self.pid, self.original)
    }

    /// Whether `action` is what has to be done next.
    pub open spec fn is_next(self, action: TakeAction) -> bool {
        match self.phase {
            TakePhase::Examine => action matches TakeAction::Examine { original } && original@
                == self.original,
            TakePhase::ResolveDirectory => action matches TakeAction::ResolveDirectory {
                original,
            } && original@ == self.original,
            TakePhase::RemoveLink => action matches TakeAction::RemoveLink { original } && original@
                == self.original,
            TakePhase::Resolve => action matches TakeAction::Resolve { original } && original@
                == self.original,
            TakePhase::Rename { stamp } => action matches TakeAction::Rename { original, dest }
                && original@ == self.original && dest@ == self.destination(stamp),
            TakePhase::Copy { stamp } => action matches TakeAction::Copy { original, dest }
                && original@ == self.original && dest@ == self.destination(stamp),
            TakePhase::RemoveOriginal { stamp } => action matches TakeAction::RemoveOriginal {
                original,
            } && original@ == self.original,
            TakePhase::Record { stamp } => action matches TakeAction::Record { entry }
                && self.is_recorded_by(stamp, entry),
            TakePhase::Nothing => action matches TakeAction::End(taken) && taken is Nothing,
            TakePhase::Moved { stamp } => action matches TakeAction::End(Taken::Moved(dest))
                && dest@ == self.destination(stamp),
            TakePhase::Failed => action matches TakeAction::End(taken) && taken is Failed,
        }
    }
}

impl Quarantine {
    /// A quarantine in the directory `dir` for files that lie under `roots`, which
    /// are without links.
    pub fn new(dir: FilePath, roots: Vec<FilePath>) -> (quarantine: Quarantine)
        ensures
            quarantine@ == (QuarantineModel { dir: dir@, roots: views(roots@) }),
    {
        Quarantine { dir, roots }
    }

    /// Begins to take the file at `original`, which the process `pid` wrote.
    pub fn take<'a>(&'a self, original: &FilePath, pid: i32, reason: &str) -> (work: Taking<'a>)
        requires
            is_nameable(original@),
        ensures
            work.wf(),
            work@ == (TakingModel {
                quarantine: self@,
                original: original@,
                pid,
                reason: reason@,
                phase: TakePhase::Examine,
            }),
    {
        Taking {
            quarantine: self,
            original: original.duplicate(),
            pid,
            reason: reason.to_owned(),
            phase: TakePhase::Examine,
        }
    }
}

impl<'a> Taking<'a> {
    pub closed spec fn wf(self) -> bool {
        is_nameable(self.original@)
    }

    fn destination(&self, stamp: u64) -> (dest: FilePath)
        requires
            self.wf(),
        ensures
            dest@ == self@.destination(stamp),
            lies_directly_in(dest@, self@.quarantine.dir),
    {
        let name = quarantine_name(stamp, self.pid, &self.original);
        proof {
            joined_file_lies_in_its_directory(self.quarantine.dir@, encode_utf8(name@));
        }
        self.quarantine.dir.join(name.as_str())
    }

    /// What has to be done next. Whatever the path of the file was, it is only ever
    /// moved directly into the quarantine directory.
    pub fn action(&self) -> (action: TakeAction)
        requires
            self.wf(),
        ensures
            self@.is_next(action),
            action matches TakeAction::Rename { dest, .. } ==> lies_directly_in(
                dest@,
                self@.quarantine.dir,
            ),
            action matches TakeAction::Copy { dest, .. } ==> lies_directly_in(
                dest@,
                self@.quarantine.dir,
            ),
            action matches TakeAction::End(Taken::Moved(dest)) ==> lies_directly_in(
                dest@,
                self@.quarantine.dir,
            ),
    {
        let original = self.original.duplicate();
        match self.phase {
            TakePhase::Examine => TakeAction::Examine { original },
            TakePhase::ResolveDirectory => TakeAction::ResolveDirectory { original },
            TakePhase::RemoveLink => TakeAction::RemoveLink { original },
            TakePhase::Resolve => TakeAction::Resolve { original },
            TakePhase::Rename { stamp } => {
                let dest = self.destination(stamp);
                TakeAction::Rename { original, dest }
            },
            TakePhase::Copy { stamp } => {
                let dest = self.destination(stamp);
                TakeAction::Copy { original, dest }
            },
            TakePhase::RemoveOriginal { stamp } => TakeAction::RemoveOriginal { original },
            TakePhase::Record { stamp } => {
                let entry = ManifestEntry {
                    quarantined_at_unix: stamp,
                    pid: self.pid,
                    reason: self.reason.clone(),
                    original_path: original.display(),
                    quarantine_name: quarantine_name(stamp, self.pid, &original),
                };
                TakeAction::Record { entry }
            },
            TakePhase::Nothing => TakeAction::End(Taken::Nothing),
            TakePhase::Moved { stamp } => {
                let dest = self.destination(stamp);
                TakeAction::End(Taken::Moved(dest))
            },
            TakePhase::Failed => TakeAction::End(Taken::Failed),
        }
    }

    /// Records what the action at hand has come to.
    pub fn advance(&mut self, answer: TakeAnswer)
        requires
            old(self).wf(),
        ensures
            final(self).wf(),
            final(self)@ == (TakingModel {
                phase: take_step(
                    old(self)@.quarantine,
                    old(self)@.original,
                    old(self)@.phase,
                    answer,
                ),
                ..old(self)@
            }),
    {
        let next = match self.phase {
            TakePhase::Examine => match answer {
                TakeAnswer::Found(found) => match found {
                    Original::Gone => TakePhase::Nothing,
                    Original::Symlink => TakePhase::ResolveDirectory,
                    Original::File => TakePhase::Resolve,
                },
                _ => TakePhase::Failed,
            },
            TakePhase::ResolveDirectory => match answer {
                TakeAnswer::Directory(dir) => {
                    let inside = match &dir {
                        Some(dir) => is_within_any(dir, &self.quarantine.roots),
                        None => false,
                    };
                    if inside {
                        TakePhase::RemoveLink
                    } else {
                        TakePhase::Nothing
                    }
                },
                _ => TakePhase::Failed,
            },
            TakePhase::RemoveLink => TakePhase::Nothing,
            TakePhase::Resolve => match answer {
                TakeAnswer::Resolved { canonical, stamp } => {
                    let inside = match &canonical {
                        Some(path) => is_within_any(path, &self.quarantine.roots),
                        None => is_within_any(&self.original, &self.quarantine.roots),
                    };
                    if inside {
                        TakePhase::Rename { stamp }
                    } else {
                        TakePhase::Nothing
                    }
                },
                _ => TakePhase::Failed,
            },
            TakePhase::Rename { stamp } => match answer {
                TakeAnswer::Done => TakePhase::Record { stamp },
                _ => TakePhase::Copy { stamp },
            },
            TakePhase::Copy { stamp } => match answer {
                TakeAnswer::Done => TakePhase::RemoveOriginal { stamp },
                _ => TakePhase::Failed,
            },
            TakePhase::RemoveOriginal { stamp } => TakePhase::Record { stamp },
            TakePhase::Record { stamp } => TakePhase::Moved { stamp },
            _ => self.phase,
        };
        self.phase = next;
    }
}

/// How far the taking of a file has come after a series of answers.
pub open spec fn take_run(
    q: QuarantineModel,
    original: Seq<u8>,
    answers: Seq<TakeAnswer>,
) -> TakePhase
    decreases answers.len(),
{
    if answers.len() == 0 {
        TakePhase::Examine
    } else {
        take_step(q, original, take_run(q, original, answers.drop_last()), answers.last())
    }
}

/// Whether the file is about to be moved, or has been.
pub open spec fn is_moving(phase: TakePhase) -> bool {
    ||| phase is Rename
    ||| phase is Copy
    ||| phase is RemoveOriginal
    ||| phase is Record
    ||| phase is Moved
}

/// Whether it was found that the file is no link and really lies under a root.
pub open spec fn was_cleared(
    q: QuarantineModel,
    original: Seq<u8>,
    answers: Seq<TakeAnswer>,
) -> bool {
    &&& answers.len() >= 2
    &&& answers[0] == TakeAnswer::Found(Original::File)
    &&& answers[1] matches TakeAnswer::Resolved { canonical, .. } && within_any(
        real_path(original, canonical),
        q.roots,
    )
}

/// Whether it was found that a link stands at the path, in a directory that really lies
/// under a root.
pub open spec fn link_was_cleared(q: QuarantineModel, answers: Seq<TakeAnswer>) -> bool {
    &&& answers.len() >= 2
    &&& answers[0] == TakeAnswer::Found(Original::Symlink)
    &&& answers[1] matches TakeAnswer::Directory(Some(dir)) && within_any(dir@, q.roots)
}

proof fn run_stages(q: QuarantineModel, original: Seq<u8>, answers: Seq<TakeAnswer>)
    ensures
        take_run(q, original, answers) == TakePhase::Examine ==> answers.len() == 0,
        take_run(q, original, answers) == TakePhase::Resolve ==> answers.len() == 1 && answers[0]
            == TakeAnswer::Found(Original::File),
        take_run(q, original, answers) == TakePhase::ResolveDirectory ==> answers.len() == 1
            && answers[0] == TakeAnswer::Found(Original::Symlink),
        take_run(q, original, answers) == TakePhase::RemoveLink ==> answers.len() == 2
            && link_was_cleared(q, answers),
        is_moving(take_run(q, original, answers)) ==> was_cleared(q, original, answers),
    decreases answers.len(),
{
    if answers.len() > 0 {
        let before = answers.drop_last();
        run_stages(q, original, before);
        let phase = take_run(q, original, before);
        if is_moving(phase) {
            assert(before[0] == answers[0] && before[1] == answers[1]);
        }
        if phase == TakePhase::Resolve || phase == TakePhase::ResolveDirectory {
            assert(before[0] == answers[0]);
            assert(answers[1] == answers.last());
        }
    }
}

/// Whatever the system answers, nothing outside the directories that the operator
/// watches is touched. A file is only renamed, copied, removed or recorded after it was
/// found to be no link and, with every link in its path resolved, to lie under one of
/// them; and a link is only removed after the directory that holds it was found to lie
/// there.
pub proof fn only_files_under_a_root_are_moved(
    q: QuarantineModel,
    original: Seq<u8>,
    answers: Seq<TakeAnswer>,
)
    ensures
        is_moving(take_run(q, original, answers)) ==> was_cleared(q, original, answers),
        take_run(q, original, answers) == TakePhase::RemoveLink ==> link_was_cleared(q, answers),
{
    run_stages(q, original, answers);
}

/// A link in a directory that really lies outside every root, or that cannot be
/// resolved, is left alone.
pub proof fn a_link_outside_every_root_is_left_alone(
    q: QuarantineModel,
    original: Seq<u8>,
    dir: Option<FilePath>,
)
    requires
        dir matches Some(place) ==> !within_any(place@, q.roots),
    ensures
        take_run(
            q,
            original,
            seq![TakeAnswer::Found(Original::Symlink), TakeAnswer::Directory(dir)],
        ) == TakePhase::Nothing,
{
    let answers = seq![TakeAnswer::Found(Original::Symlink), TakeAnswer::Directory(dir)];
    reveal_with_fuel(take_run, 3);
    assert(answers.drop_last() =~= seq![TakeAnswer::Found(Original::Symlink)]);
    assert(answers.drop_last().drop_last() =~= Seq::<TakeAnswer>::empty());
}

/// A file that really lies outside every root is left alone, whatever is answered
/// after that.
pub proof fn a_file_outside_every_root_is_left_alone(
    q: QuarantineModel,
    original: Seq<u8>,
    canonical: Option<FilePath>,
    stamp: u64,
    answer: TakeAnswer,
)
    requires
        !within_any(real_path(original, canonical), q.roots),
    ensures
        take_run(
            q,
            original,
            seq![
                TakeAnswer::Found(Original::File),
                (TakeAnswer::Resolved { canonical, stamp }),
            ],
        ) == TakePhase::Nothing,
        take_step(q, original, TakePhase::Nothing, answer) == TakePhase::Nothing,
{
    let answers = seq![
        TakeAnswer::Found(Original::File),
        (TakeAnswer::Resolved { canonical, stamp }),
    ];
    reveal_with_fuel(take_run, 3);
    assert(answers.drop_last() =~= seq![TakeAnswer::Found(Original::File)]);
    assert(answers.drop_last().drop_last() =~= Seq::<TakeAnswer>::empty());
}

/// A file that really lies under a root is moved: by renaming it, or where that
/// fails by copying it.
pub proof fn a_file_under_a_root_is_taken(
    q: QuarantineModel,
    original: Seq<u8>,
    canonical: Option<FilePath>,
    stamp: u64,
)
    requires
        within_any(real_path(original, canonical), q.roots),
    ensures
        take_run(
            q,
            original,
            seq![
                TakeAnswer::Found(Original::File),
                (TakeAnswer::Resolved { canonical, stamp }),
                TakeAnswer::Done,
                TakeAnswer::Done,
            ],
        ) == (TakePhase::Moved { stamp }),
        take_run(
            q,
            original,
            seq![
                TakeAnswer::Found(Original::File),
                (TakeAnswer::Resolved { canonical, stamp }),
                TakeAnswer::Refused,
                TakeAnswer::Done,
                TakeAnswer::Done,
                TakeAnswer::Done,
            ],
        ) == (TakePhase::Moved { stamp }),
{
    let one = seq![TakeAnswer::Found(Original::File)];
    let two = seq![
        TakeAnswer::Found(Original::File),
        (TakeAnswer::Resolved { canonical, stamp }),
    ];
    assert(one.drop_last() =~= Seq::<TakeAnswer>::empty());
    assert(two.drop_last() =~= one);
    assert(take_run(q, original, one) == TakePhase::Resolve) by {
        reveal_with_fuel(take_run, 2);
    }
    assert(take_run(q, original, two) == TakePhase::Rename { stamp });
    let renamed = two.push(TakeAnswer::Done);
    assert(renamed.drop_last() =~= two);
    assert(take_run(q, original, renamed) == TakePhase::Record { stamp });
    assert(renamed.push(TakeAnswer::Done).drop_last() =~= renamed);
    assert(take_run(q, original, renamed.push(TakeAnswer::Done)) == TakePhase::Moved { stamp });
    assert(renamed.push(TakeAnswer::Done) =~= seq![
        TakeAnswer::Found(Original::File),
        (TakeAnswer::Resolved { canonical, stamp }),
        TakeAnswer::Done,
        TakeAnswer::Done,
    ]);
    let refused = two.push(TakeAnswer::Refused);
    let copied = refused.push(TakeAnswer::Done);
    let removed = copied.push(TakeAnswer::Done);
    assert(refused.drop_last() =~= two);
    assert(take_run(q, original, refused) == TakePhase::Copy { stamp });
    assert(copied.drop_last() =~= refused);
    assert(take_run(q, original, copied) == TakePhase::RemoveOriginal { stamp });
    assert(removed.drop_last() =~= copied);
    assert(take_run(q, original, removed) == TakePhase::Record { stamp });
    assert(removed.push(TakeAnswer::Done).drop_last() =~= removed);
    assert(take_run(q, original, removed.push(TakeAnswer::Done)) == TakePhase::Moved { stamp });
    assert(removed.push(TakeAnswer::Done) =~= seq![
        TakeAnswer::Found(Original::File),
        (TakeAnswer::Resolved { canonical, stamp }),
        TakeAnswer::Refused,
        TakeAnswer::Done,
        TakeAnswer::Done,
        TakeAnswer::Done,
    ]);
}

proof fn tail_is_longest(s: Seq<char>, max: nat, room: nat)
    ensures
        tail(s, max, room).len() < s.len() && tail(s, max, room).len() < max ==> encode_utf8(
            s.skip(s.len() - tail(s, max, room).len() - 1),
        ).len() > room,
    decreases s.len(),
{
    let t = tail(s, max, room);
    tail_fits(s, max, room);
    if s.len() == 0 || max == 0 {
    } else if width(s.last()) > room {
        encoding_of_one_more(Seq::empty(), s.last());
        assert(s.skip(s.len() - 1) =~= Seq::<char>::empty().push(s.last()));
    } else {
        let shorter = s.drop_last();
        let less = (room - width(s.last())) as nat;
        tail_is_longest(shorter, (max - 1) as nat, less);
        let u = tail(shorter, (max - 1) as nat, less);
        if t.len() < s.len() && t.len() < max {
            let more = shorter.skip(shorter.len() - u.len() - 1);
            encoding_of_one_more(more, s.last());
            assert(s.skip(s.len() - t.len() - 1) =~= more.push(s.last()));
        }
    }
}

/// A quarantine name is the time, the process, the end of the path and sixteen
/// hexadecimal digits of the digest, with an underscore between each two. The end of the
/// path has its slashes and control characters replaced by underscores, and every other
/// character as it is.
pub proof fn a_quarantine_name_tells_its_origin(
    stamp: u64,
    pid: i32,
    full: Seq<char>,
    digest: Seq<u8>,
    i: int,
)
    requires
        digest.len() >= 8,
    ensures
        ({
            let shown = readable(stamp, pid, full);
            let n = shown.len() as int;
            &&& name_for(stamp, pid, full, digest) == decimal(stamp as nat) + seq!['_']
                + signed_decimal(pid as int) + seq!['_'] + shown + seq!['_'] + hex(digest.take(8))
            &&& n <= full.len() && n <= 120
            &&& 0 <= i < n ==> {
                let c = full[full.len() - n + i];
                let odd = c == '/' || (c as u32) < 0x20 || 0x7f <= c as u32 && (c as u32) < 0xa0;
                &&& odd ==> shown[i] == '_'
                &&& !odd ==> shown[i] == c
            }
        }),
{
    let shown = readable(stamp, pid, full);
    let room = (MAX_NAME_BYTES - name_head(stamp, pid).len() - 1 - 2 * HASHED_BYTES) as nat;
    let flat = flattened(full);
    tail_fits(flat, MAX_READABLE as nat, room);
    assert(first_bytes(digest) =~= digest.take(8));
    assert(name_for(stamp, pid, full, digest) =~= decimal(stamp as nat) + seq!['_']
        + signed_decimal(pid as int) + seq!['_'] + shown + seq!['_'] + hex(digest.take(8)));
    if 0 <= i < shown.len() {
        assert(shown[i] == flat[flat.len() - shown.len() + i]);
    }
}

/// As much of the path is shown as there is room for: all of it, or 120 characters of
/// it, or so much that with one character more the name would be longer than 254 bytes.
pub proof fn no_room_is_wasted(stamp: u64, pid: i32, full: Seq<char>, digest: Seq<u8>)
    requires
        digest.len() >= 8,
    ensures
        ({
            let n = readable(stamp, pid, full).len() as int;
            let more = flattened(full.skip(full.len() - n - 1));
            n == full.len() || n == 120 || encode_utf8(
                decimal(stamp as nat) + seq!['_'] + signed_decimal(pid as int) + seq!['_'] + more
                    + seq!['_'] + hex(digest.take(8)),
            ).len() > 254
        }),
{
    let shown = readable(stamp, pid, full);
    let n = shown.len() as int;
    let h = name_head(stamp, pid);
    let room = (MAX_NAME_BYTES - h.len() - 1 - 2 * HASHED_BYTES) as nat;
    let flat = flattened(full);
    head_shape(stamp, pid);
    tail_fits(flat, MAX_READABLE as nat, room);
    tail_is_longest(flat, MAX_READABLE as nat, room);
    if n < full.len() && n < 120 {
        let more = flattened(full.skip(full.len() - n - 1));
        assert(more =~= flat.skip(flat.len() - n - 1));
        let e = name_end(digest);
        end_shape(digest);
        assert(first_bytes(digest) =~= digest.take(8));
        assert forall|i: int| 0 <= i < h.len() implies (#[trigger] h[i]) as u32 <= 0x7f by {
            assert(is_digit(h[i]) || h[i] == '_' || h[i] == '-');
        }
        ascii_length(h);
        ascii_length(e);
        encoding_of_a_concatenation(h, more);
        encoding_of_a_concatenation(h + more, e);
        assert(decimal(stamp as nat) + seq!['_'] + signed_decimal(pid as int) + seq!['_'] + more
            + seq!['_'] + hex(digest.take(8)) =~= h + more + e);
    }
}

/// A file that is taken is known by the bytes of its path alone, and goes into the
/// quarantine directory under its name.
pub proof fn a_file_goes_into_the_directory_under_its_name(
    q: QuarantineModel,
    stamp: u64,
    pid: i32,
    original: Seq<u8>,
)
    requires
        q.dir.len() > 0,
        q.dir.last() != 47,
    ensures
        quarantine_name_of(stamp, pid, original) == name_for(
            stamp,
            pid,
            lossy_text(original),
            sha256(original),
        ),
        q.destination(stamp, pid, original) == q.dir + seq![47u8] + encode_utf8(
            name_for(stamp, pid, lossy_text(original), sha256(original)),
        ),
{
    let name = name_for(stamp, pid, lossy_text(original), sha256(original));
    a_quarantine_name_is_a_usable_file_name(stamp, pid, lossy_text(original), sha256(original));
    assert(encode_utf8(name)[0] != 47);
    joining_puts_one_slash_between(q.dir, encode_utf8(name));
}

/// What stands at the path decides: nothing is left alone, a link leads to its directory,
/// and a file to its real path. No other answer will do.
pub proof fn what_stands_there_decides(q: QuarantineModel, original: Seq<u8>, answer: TakeAnswer)
    ensures
        ({
            let next = take_step(q, original, TakePhase::Examine, answer);
            &&& answer == TakeAnswer::Found(Original::Gone) ==> next is Nothing
            &&& answer == TakeAnswer::Found(Original::Symlink) ==> next is ResolveDirectory
            &&& answer == TakeAnswer::Found(Original::File) ==> next is Resolve
            &&& !(answer is Found) ==> next is Failed
        }),
{
}

/// A link is removed exactly where the directory that holds it could be resolved and
/// begins with all the components of some root, and that ends the work.
pub proof fn a_link_under_a_root_is_removed(
    q: QuarantineModel,
    original: Seq<u8>,
    dir: Option<FilePath>,
    answer: TakeAnswer,
)
    ensures
        ({
            let next = take_step(
                q,
                original,
                TakePhase::ResolveDirectory,
                TakeAnswer::Directory(dir),
            );
            &&& next is RemoveLink <==> dir is Some && exists|i: int|
                0 <= i < q.roots.len() && begins_with(
                    components(dir->0@),
                    components(#[trigger] q.roots[i]),
                )
            &&& !(next is RemoveLink) ==> next is Nothing
            &&& !(answer is Directory) ==> take_step(
                q,
                original,
                TakePhase::ResolveDirectory,
                answer,
            ) is Failed
            &&& take_step(q, original, TakePhase::RemoveLink, answer) is Nothing
        }),
{
}

/// A file is taken exactly where its real path, or where that could not be found out the
/// path that it was seen under, begins with all the components of some root.
pub proof fn a_file_under_a_root_is_renamed(
    q: QuarantineModel,
    original: Seq<u8>,
    canonical: Option<FilePath>,
    stamp: u64,
    answer: TakeAnswer,
)
    ensures
        ({
            let next = take_step(
                q,
                original,
                TakePhase::Resolve,
                TakeAnswer::Resolved { canonical, stamp },
            );
            &&& canonical is Some ==> (next is Rename <==> exists|i: int|
                0 <= i < q.roots.len() && begins_with(
                    components(canonical->0@),
                    components(#[trigger] q.roots[i]),
                ))
            &&& canonical is None ==> (next is Rename <==> exists|i: int|
                0 <= i < q.roots.len() && begins_with(
                    components(original),
                    components(#[trigger] q.roots[i]),
                ))
            &&& next is Rename ==> next == (TakePhase::Rename { stamp })
            &&& !(next is Rename) ==> next is Nothing
            &&& !(answer is Resolved) ==> take_step(q, original, TakePhase::Resolve, answer) is Failed
        }),
{
}

/// A file that was renamed is recorded, and one that could not be is copied; a copy has
/// its original removed, if that can be done, and is recorded then. Only a file that
/// could be neither renamed nor copied is not taken. The time stays what it was, and once
/// the work is over nothing changes any more.
pub proof fn a_file_is_moved_one_way_or_the_other(
    q: QuarantineModel,
    original: Seq<u8>,
    stamp: u64,
    answer: TakeAnswer,
)
    ensures
        take_step(q, original, TakePhase::Rename { stamp }, TakeAnswer::Done) == (
        TakePhase::Record { stamp }),
        answer != TakeAnswer::Done ==> take_step(q, original, TakePhase::Rename { stamp }, answer)
            == (TakePhase::Copy { stamp }),
        take_step(q, original, TakePhase::Copy { stamp }, TakeAnswer::Done) == (
        TakePhase::RemoveOriginal { stamp }),
        answer != TakeAnswer::Done ==> take_step(
            q,
            original,
            TakePhase::Copy { stamp },
            answer,
        ) is Failed,
        take_step(q, original, TakePhase::RemoveOriginal { stamp }, answer) == (
        TakePhase::Record { stamp }),
        take_step(q, original, TakePhase::Record { stamp }, answer) == (TakePhase::Moved {
            stamp,
        }),
        take_step(q, original, TakePhase::Moved { stamp }, answer) == (TakePhase::Moved { stamp }),
        take_step(q, original, TakePhase::Nothing, answer) is Nothing,
        take_step(q, original, TakePhase::Failed, answer) is Failed,
{
}

/// What is done is done to the file at hand, which only ever goes to its own place in the
/// quarantine directory. What is recorded of it is when it was taken, from which process
/// and why, how its path reads, and its name there.
pub proof fn take_actions_name_the_file_at_hand(work: TakingModel, action: TakeAction)
    requires
        work.is_next(action),
    ensures
        work.phase is Examine <==> action is Examine,
        work.phase is ResolveDirectory <==> action is ResolveDirectory,
        work.phase is RemoveLink <==> action is RemoveLink,
        work.phase is Resolve <==> action is Resolve,
        work.phase is Rename <==> action is Rename,
        work.phase is Copy <==> action is Copy,
        work.phase is RemoveOriginal <==> action is RemoveOriginal,
        work.phase is Record <==> action is Record,
        action is Examine ==> action->Examine_original@ == work.original,
        action is ResolveDirectory ==> action->ResolveDirectory_original@ == work.original,
        action is RemoveLink ==> action->RemoveLink_original@ == work.original,
        action is Resolve ==> action->Resolve_original@ == work.original,
        action is RemoveOriginal ==> action->RemoveOriginal_original@ == work.original,
        action is Rename ==> action->Rename_original@ == work.original && action->Rename_dest@
            == work.quarantine.destination(work.phase->Rename_stamp, work.pid, work.original),
        action is Copy ==> action->Copy_original@ == work.original && action->Copy_dest@
            == work.quarantine.destination(work.phase->Copy_stamp, work.pid, work.original),
        action is Record ==> {
            let entry = action->entry;
            &&& entry.quarantined_at_unix == work.phase->Record_stamp
            &&& entry.pid == work.pid
            &&& entry.reason@ == work.reason
            &&& entry.original_path@ == lossy_text(work.original)
            &&& entry.quarantine_name@ == quarantine_name_of(
                work.phase->Record_stamp,
                work.pid,
                work.original,
            )
        },
        work.phase is Nothing ==> action is End && action->End_0 is Nothing,
        work.phase is Failed ==> action is End && action->End_0 is Failed,
        work.phase is Moved ==> action is End && action->End_0 is Moved && action->End_0->Moved_0@
            == work.quarantine.destination(work.phase->Moved_stamp, work.pid, work.original),
{
}

/// Taking a file begins with a look at what stands at its path, for the process and the
/// reason given; and the work stays on that file.
pub proof fn taking_a_file_begins_with_a_look<'a>(
    dir: FilePath,
    roots: Vec<FilePath>,
    made: Quarantine,
    quarantine: &'a Quarantine,
    original: &FilePath,
    pid: i32,
    reason: &str,
    work: Taking<'a>,
)
    requires
        call_ensures(Quarantine::new, (dir, roots), made),
        call_ensures(Quarantine::take, (quarantine, original, pid, reason), work),
    ensures
        made@.dir == dir@,
        made@.roots == views(roots@),
        work@.quarantine == quarantine@,
        work@.original == original@,
        work@.pid == pid,
        work@.reason == reason@,
        work@.phase is Examine,
{
}

/// The name under which a file is kept gives the time, the process and the digest of the
/// path's bytes, around an end of how the path reads.
pub proof fn the_name_of_a_file_is_made_of_its_origin(
    stamp: u64,
    pid: i32,
    original: &FilePath,
    name: String,
)
    requires
        sha256(original@).len() >= 8,
        call_ensures(quarantine_name, (stamp, pid, original), name),
    ensures
        ({
            let shown = readable(stamp, pid, lossy_text(original@));
            &&& name@ == decimal(stamp as nat) + seq!['_'] + signed_decimal(pid as int) + seq!['_']
                + shown + seq!['_'] + hex(sha256(original@).take(8))
            &&& shown.len() <= 120
            &&& shown == flattened(lossy_text(original@)).skip(
                lossy_text(original@).len() - shown.len(),
            )
            &&& encode_utf8(name@).len() < 255
        }),
{
    let full = lossy_text(original@);
    a_quarantine_name_tells_its_origin(stamp, pid, full, sha256(original@), 0);
    let room = (MAX_NAME_BYTES - name_head(stamp, pid).len() - 1 - 2 * HASHED_BYTES) as nat;
    tail_fits(flattened(full), MAX_READABLE as nat, room);
}

/// Taking a file goes on as the answer demands, and on the same file: a file that lies under
/// a root by its real path is renamed next, and one that does not is left alone.
pub proof fn taking_a_file_goes_by_its_real_path<'a>(
    work: &mut Taking<'a>,
    canonical: FilePath,
    stamp: u64,
)
    requires
        old(work)@.phase is Resolve,
        call_ensures(
            Taking::advance,
            (work, TakeAnswer::Resolved { canonical: Some(canonical), stamp }),
            (),
        ),
    ensures
        ({
            let before = old(work)@;
            let after = final(work)@;
            let inside = exists|i: int|
                0 <= i < before.quarantine.roots.len() && begins_with(
                    components(canonical@),
                    components(#[trigger] before.quarantine.roots[i]),
                );
            &&& inside ==> after.phase == (TakePhase::Rename { stamp })
            &&& !inside ==> after.phase is Nothing
            &&& after == (TakingModel { phase: after.phase, ..before })
        }),
{
    a_file_under_a_root_is_renamed(
        old(work)@.quarantine,
        old(work)@.original,
        Some(canonical),
        stamp,
        TakeAnswer::Done,
    );
}

} // verus!
