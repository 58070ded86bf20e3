//! Paths of the storage tree: `root/channel/arch/file`.
//!
//! Paths are strings with `/` as the separator. A file name sent by a client
//! contributes only its last segment to a destination, and only where that
//! segment can name a file, so that no upload can name a directory of its own
//! choosing.

use vstd::prelude::*;
use vstd::string::*;

verus! {

/// The separator between the segments of a path.
pub open spec fn sep() -> char {
    '/'
}

/// The position just behind the last separator of `s`, or 0 where `s` holds none.
pub open spec fn base_start(s: Seq<char>) -> int
    decreases s.len(),
{
    if s.len() == 0 {
        0
    } else if s.last() == sep() {
        s.len() as int
    } else {
        base_start(s.drop_last())
    }
}

/// The last segment of `s`: what follows its last separator, or all of `s`
/// where it holds none.
pub open spec fn spec_basename(s: Seq<char>) -> Seq<char> {
    s.subrange(base_start(s), s.len() as int)
}

/// The last segment starts inside `s`, right behind a separator unless it
/// starts `s`, and holds none.
pub proof fn lemma_base_start_bounds(s: Seq<char>)
    ensures
        0 <= base_start(s) <= s.len(),
        base_start(s) > 0 ==> s[base_start(s) - 1] == sep(),
        forall|i: int| base_start(s) <= i < s.len() ==> s[i] != sep(),
    decreases s.len(),
{
    if s.len() > 0 && s.last() != sep() {
        let t = s.drop_last();
        lemma_base_start_bounds(t);
        assert forall|i: int| base_start(s) <= i < s.len() implies s[i] != sep() by {
            if i < t.len() {
                assert(s[i] == t[i]);
            }
        }
    }
}

/// The last segment of a file name.
pub fn basename(name: &str) -> (base: String)
    ensures
        base@ == spec_basename(name@),
{
    let n: usize = name.unicode_len();
    let mut start: usize = 0;
    let mut i: usize = 0;
    for c in it: name.chars()
        invariant
            n == name@.len(),
            it.seq() == name@,
            i == it.index(),
            start == base_start(name@.subrange(0, i as int)),
    {
        proof {
            let next = name@.subrange(0, i + 1);
            assert(next.drop_last() == name@.subrange(0, i as int));
            assert(next.last() == c);
        }
        i += 1;
        if c == '/' {
            start = i;
        }
    }
    proof {
        assert(name@.subrange(0, n as int) == name@);
        lemma_base_start_bounds(name@);
    }
    String::from_str(name.substring_char(start, n))
}

/// `dir`, a separator, then `name`.
pub open spec fn spec_child(dir: Seq<char>, name: Seq<char>) -> Seq<char> {
    dir + seq![sep()] + name
}

/// Two entries of one directory with the same path have the same name.
pub proof fn lemma_child_names_its_entry(dir: Seq<char>, a: Seq<char>, b: Seq<char>)
    requires
        spec_child(dir, a) == spec_child(dir, b),
    ensures
        a == b,
{
    let start = dir.len() as int + 1;
    assert(a =~= spec_child(dir, a).subrange(start, start + a.len()));
    assert(b =~= spec_child(dir, b).subrange(start, start + b.len()));
    assert(spec_child(dir, a).len() == start + a.len());
    assert(spec_child(dir, b).len() == start + b.len());
}

/// The directory of a channel: `root/channel`.
pub open spec fn spec_channel_dir(root: Seq<char>, channel: Seq<char>) -> Seq<char> {
    spec_child(root, channel)
}

/// The directory of one architecture of a channel: `root/channel/arch`.
pub open spec fn spec_arch_dir(root: Seq<char>, channel: Seq<char>, arch: Seq<char>) -> Seq<char> {
    spec_child(spec_channel_dir(root, channel), arch)
}

/// `base` extended by `seg`, as a path is extended on a system whose separator
/// is `/`: a `seg` that starts at the root replaces `base`; otherwise `seg`
/// follows `base`, with a separator between them unless `base` is empty or
/// ends in one.
pub open spec fn spec_join(base: Seq<char>, seg: Seq<char>) -> Seq<char> {
    if seg.len() > 0 && seg[0] == sep() {
        seg
    } else if base.len() == 0 || base.last() == sep() {
        base + seg
    } else {
        spec_child(base, seg)
    }
}


/// `dir`, a separator, then `name`.
pub fn child(dir: &str, name: &str) -> (path: String)
    ensures
        path@ == spec_child(dir@, name@),
{
    proof {
        reveal_strlit("/");
    }
    let path = String::from_str(dir).concat("/").concat(name);
    assert(path@ =~= spec_child(dir@, name@));
    path
}

/// The directory of a channel: `root/channel`.
pub fn channel_dir(root: &str, channel: &str) -> (dir: String)
    ensures
        dir@ == spec_channel_dir(root@, channel@),
{
    child(root, channel)
}

/// The directory of one architecture of a channel: `root/channel/arch`.
pub fn arch_dir(root: &str, channel: &str, arch: &str) -> (dir: String)
    ensures
        dir@ == spec_arch_dir(root@, channel@, arch@),
{
    let parent = channel_dir(root, channel);
    child(parent.as_str(), arch)
}

/// `base` extended by `seg`.
pub fn join(base: &str, seg: &str) -> (path: String)
    ensures
        path@ == spec_join(base@, seg@),
{
    let seg_len: usize = seg.unicode_len();
    let base_len: usize = base.unicode_len();
    if seg_len > 0 && seg.get_char(0) == '/' {
        String::from_str(seg)
    } else if base_len == 0 || base.get_char(base_len - 1) == '/' {
        String::from_str(base).concat(seg)
    } else {
        child(base, seg)
    }
}

/// What precedes the last segment of `s`, separator included.
pub open spec fn spec_dirname(s: Seq<char>) -> Seq<char> {
    s.subrange(0, base_start(s))
}

/// `dir` as the front of the paths of its entries: with a separator at its
/// end, unless it is empty or has one.
pub open spec fn as_prefix(dir: Seq<char>) -> Seq<char> {
    if dir.len() == 0 || dir.last() == sep() {
        dir
    } else {
        dir + seq![sep()]
    }
}

/// Whether `name` can name a file in a directory: it is not empty, holds no
/// separator, and is neither `.` nor `..`.
pub open spec fn is_file_name(name: Seq<char>) -> bool {
    &&& name.len() > 0
    &&& !name.contains(sep())
    &&& name != seq!['.']
    &&& name != seq!['.', '.']
}

/// Whether `path` is an entry of `dir`: the directory's path, a separator
/// unless the path ends in one, and a name that can name a file.
pub open spec fn is_entry_of(path: Seq<char>, dir: Seq<char>) -> bool {
    exists|name: Seq<char>| is_file_name(name) && path == as_prefix(dir) + name
}

/// Where a file sent under the name `filename` is stored in the directory
/// `dir`: at the name's last segment, as an entry of `dir`. A name whose last
/// segment cannot name a file has no destination.
pub open spec fn spec_destination(dir: Seq<char>, filename: Seq<char>) -> Option<Seq<char>> {
    if is_file_name(spec_basename(filename)) {
        Some(spec_join(dir, spec_basename(filename)))
    } else {
        None
    }
}

/// The last segment of a name holds no separator, and what precedes it is
/// empty or ends in one: the segment is all that follows the last separator.
pub proof fn lemma_basename_is_last_segment(name: Seq<char>)
    ensures
        !spec_basename(name).contains(sep()),
        name == spec_dirname(name) + spec_basename(name),
        spec_dirname(name).len() == 0 || spec_dirname(name).last() == sep(),
{
    lemma_base_start_bounds(name);
    let base = spec_basename(name);
    if base.contains(sep()) {
        let i = choose|i: int| 0 <= i < base.len() && base[i] == sep();
        assert(name[base_start(name) + i] == sep());
    }
    assert(name =~= spec_dirname(name) + spec_basename(name));
}

proof fn lemma_base_start_of_entry(front: Seq<char>, name: Seq<char>)
    requires
        front.len() == 0 || front.last() == sep(),
        !name.contains(sep()),
    ensures
        base_start(front + name) == front.len(),
    decreases name.len(),
{
    let path = front + name;
    if name.len() == 0 {
        assert(path =~= front);
        if front.len() > 0 {
            assert(base_start(front) == front.len());
        }
    } else {
        assert(name.last() == name[name.len() - 1]);
        assert(path.last() == name.last());
        assert(path.drop_last() =~= front + name.drop_last());
        if name.drop_last().contains(sep()) {
            let i = choose|i: int| 0 <= i < name.drop_last().len() && name.drop_last()[i] == sep();
            assert(name[i] == sep());
        }
        lemma_base_start_of_entry(front, name.drop_last());
    }
}

/// A name has a destination exactly when its last segment can name a file,
/// and the destination is then the entry of that name in the directory the
/// upload goes to, whatever directories the client put in front of it: no
/// name leads out of that directory.
pub proof fn lemma_destination_is_entry(dir: Seq<char>, filename: Seq<char>)
    ensures
        spec_destination(dir, filename) is Some <==> is_file_name(spec_basename(filename)),
        spec_destination(dir, filename) matches Some(path) ==> {
            &&& path == as_prefix(dir) + spec_basename(filename)
            &&& spec_dirname(path) == as_prefix(dir)
            &&& spec_basename(path) == spec_basename(filename)
            &&& is_entry_of(path, dir)
        },
{
    if let Some(path) = spec_destination(dir, filename) {
        let base = spec_basename(filename);
        if base[0] == sep() {
            assert(base.contains(sep()));
        }
        assert(path =~= as_prefix(dir) + base);
        assert(as_prefix(dir).len() == 0 || as_prefix(dir).last() == sep());
        lemma_base_start_of_entry(as_prefix(dir), base);
        assert(spec_dirname(path) =~= as_prefix(dir));
        assert(spec_basename(path) =~= base);
    }
}

/// Whatever name a client sends, its destination, where it has one, lies in
/// the directory of the upload's channel and architecture, and the
/// destination's path begins with the root's.
pub proof fn lemma_destination_stays_under_root(
    root: Seq<char>,
    channel: Seq<char>,
    arch: Seq<char>,
    filename: Seq<char>,
)
    ensures
        spec_destination(spec_arch_dir(root, channel, arch), filename) matches Some(path) ==> {
            &&& is_entry_of(path, spec_arch_dir(root, channel, arch))
            &&& path.len() > root.len()
            &&& path.subrange(0, root.len() as int + 1) == root + seq![sep()]
        },
{
    let dir = spec_arch_dir(root, channel, arch);
    lemma_destination_is_entry(dir, filename);
    if let Some(path) = spec_destination(dir, filename) {
        assert(path.subrange(0, root.len() as int + 1) =~= root + seq![sep()]);
    }
}

/// Whether `name` can name a file in a directory.
pub fn can_name_file(name: &str) -> (ok: bool)
    ensures
        ok == is_file_name(name@),
{
    let n: usize = name.unicode_len();
    if n == 0 {
        return false;
    }
    if n == 1 && name.get_char(0) == '.' {
        assert(name@ =~= seq!['.']);
        return false;
    }
    if n == 2 && name.get_char(0) == '.' && name.get_char(1) == '.' {
        assert(name@ =~= seq!['.', '.']);
        return false;
    }
    let mut found: bool = false;
    for c in it: name.chars()
        invariant
            it.seq() == name@,
            found == name@.subrange(0, it.index() as int).contains(sep()),
    {
        proof {
            let seen = name@.subrange(0, it.index() as int);
            let next = name@.subrange(0, it.index() + 1);
            assert(next =~= seen.push(c));
            if seen.contains(sep()) {
                let k = choose|k: int| 0 <= k < seen.len() && seen[k] == sep();
                assert(next[k] == sep());
            }
            if c == sep() {
                assert(next[it.index() as int] == sep());
            }
            if next.contains(sep()) && c != sep() {
                let k = choose|k: int| 0 <= k < next.len() && next[k] == sep();
                assert(seen[k] == sep());
            }
        }
        if c == '/' {
            found = true;
        }
    }
    proof {
        assert(name@.subrange(0, n as int) =~= name@);
        assert(name@ != seq!['.']) by {
            if name@ == seq!['.'] {
                assert(name@[0] == '.');
            }
        }
        assert(name@ != seq!['.', '.']) by {
            if name@ == seq!['.', '.'] {
                assert(name@[0] == '.' && name@[1] == '.');
            }
        }
    }
    !found
}

/// Where a file sent under the name `filename` is stored in the directory
/// `dir`, or `None` where the name's last segment cannot name a file.
pub fn destination(dir: &str, filename: &str) -> (path: Option<String>)
    ensures
        match spec_destination(dir@, filename@) {
            Some(expected) => path is Some && path->Some_0@ == expected,
            None => path is None,
        },
{
    let base = basename(filename);
    if can_name_file(base.as_str()) {
        Some(join(dir, base.as_str()))
    } else {
        None
    }
}

} // verus!
