//! What a download request is answered with.
//!
//! The files of a channel are served from its directory as they are; a
//! directory is served by the index page in it.

use crate::path::{is_file_name, join, sep, spec_arch_dir, spec_child, spec_join};
use vstd::prelude::*;

verus! {

/// The name of the page that stands for a directory.
pub open spec fn index_page() -> Seq<char> {
    "index.html"@
}

/// The index page of the architecture `arch` of the channel `channel` under
/// `root`: the page in the directory that the request names.
pub open spec fn spec_channel_index(root: Seq<char>, channel: Seq<char>, arch: Seq<char>) -> Seq<
    char,
> {
    spec_join(spec_join(spec_join(root, channel), arch), index_page())
}

/// The path that a request for `filename` in `channel` names under `root`.
pub open spec fn spec_requested(root: Seq<char>, channel: Seq<char>, filename: Seq<char>) -> Seq<
    char,
> {
    spec_join(spec_join(root, channel), filename)
}

/// The file to send for `path`: the index page in it where it is a directory,
/// else `path` itself.
pub open spec fn spec_served(path: Seq<char>, is_dir: bool) -> Seq<char> {
    if is_dir {
        spec_join(path, index_page())
    } else {
        path
    }
}

/// The index page of the architecture `arch` of the channel `channel` under
/// `root`.
pub fn channel_index(root: &str, channel: &str, arch: &str) -> (path: String)
    ensures
        path@ == spec_channel_index(root@, channel@, arch@),
{
    let channel_dir = join(root, channel);
    let dir = join(channel_dir.as_str(), arch);
    join(dir.as_str(), "index.html")
}

/// The path that a request for `filename` in `channel` names under `root`.
pub fn requested(root: &str, channel: &str, filename: &str) -> (path: String)
    ensures
        path@ == spec_requested(root@, channel@, filename@),
{
    let dir = join(root, channel);
    join(dir.as_str(), filename)
}

/// The file to send for `path`, given whether `path` is a directory.
pub fn served(path: String, is_dir: bool) -> (file: String)
    ensures
        file@ == spec_served(path@, is_dir),
{
    if is_dir {
        join(path.as_str(), "index.html")
    } else {
        path
    }
}

/// The file to send for a request for `filename` in the channel `name`, given
/// whether the path that the request names is a directory. It reads nothing
/// but its arguments and changes nothing.
pub fn channel(root: &str, name: &str, filename: &str, is_dir: bool) -> (file: String)
    ensures
        file@ == spec_served(spec_requested(root@, name@, filename@), is_dir),
{
    served(requested(root, name, filename), is_dir)
}

/// A directory is answered with one page, whichever way it is asked for: the
/// index page of an architecture is the file that is sent when the
/// architecture's directory is requested as a path in its channel.
pub proof fn lemma_index_routes_agree(root: Seq<char>, channel: Seq<char>, arch: Seq<char>)
    ensures
        spec_channel_index(root, channel, arch) == spec_served(
            spec_requested(root, channel, arch),
            true,
        ),
{
}

/// The index page of an architecture is the page in the directory that the
/// architecture's uploads go to: `root/channel/arch/index.html`.
pub proof fn lemma_index_is_in_arch_dir(root: Seq<char>, channel: Seq<char>, arch: Seq<char>)
    requires
        root.len() > 0,
        root.last() != sep(),
        is_file_name(channel),
        is_file_name(arch),
    ensures
        spec_channel_index(root, channel, arch) == spec_child(
            spec_arch_dir(root, channel, arch),
            index_page(),
        ),
{
    reveal_strlit("index.html");
    assert(channel[0] != sep()) by {
        if channel[0] == sep() {
            assert(channel.contains(sep()));
        }
    }
    assert(arch[0] != sep()) by {
        if arch[0] == sep() {
            assert(arch.contains(sep()));
        }
    }
    assert(channel.last() != sep()) by {
        if channel.last() == sep() {
            assert(channel[channel.len() - 1] == sep());
            assert(channel.contains(sep()));
        }
    }
    assert(arch.last() != sep()) by {
        if arch.last() == sep() {
            assert(arch[arch.len() - 1] == sep());
            assert(arch.contains(sep()));
        }
    }
    let channel_dir = spec_join(root, channel);
    assert(channel_dir == spec_child(root, channel));
    assert(channel_dir.last() == channel.last());
    let dir = spec_join(channel_dir, arch);
    assert(dir == spec_child(channel_dir, arch));
    assert(dir.last() == arch.last());
    assert(index_page()[0] == 'i');
}

} // verus!
