//! Path arithmetic shared by the snapshot builder and the compiler: dropping
//! extensions and rebasing a path from one root onto another.

use vstd::prelude::*;
use vstd::slice::slice_subrange;
use sha3::Digest;
use crate::path::{
    common_prefix_len, dot_part, dotdot_part, is_dot_chars, is_dotdot_chars,
    lemma_parts_view_drop_last, lemma_parts_view_push, parts_from, pushed, stem_of_path, FilePath,
};

verus! {

/// A path whose final component has lost its last extension. A path without a
/// file name is unchanged. Where the stem is `.`, which says nothing behind
/// other components, the final component goes altogether.
pub open spec fn stripped(p: Seq<Seq<char>>) -> Seq<Seq<char>> {
    match stem_of_path(p) {
        Some(stem) => if stem == dot_part() && p.len() > 1 {
            p.drop_last()
        } else {
            p.drop_last().push(stem)
        },
        None => p,
    }
}

/// `one` with the components it shares with `two` replaced by `replacement`.
pub open spec fn rebased(
    one: Seq<Seq<char>>,
    two: Seq<Seq<char>>,
    replacement: Seq<Seq<char>>,
) -> Seq<Seq<char>> {
    pushed(replacement, parts_from(one, common_prefix_len(one, two)))
}

/// Removes the last dot-extension of the path's file name.
pub fn strip_extension(path: &mut FilePath)
    ensures
        final(path)@ == stripped(old(path)@),
{
    match path.file_stem() {
        Some(stem) => {
            let n = path.parts.len();
            proof {
                lemma_parts_view_drop_last(path.parts@);
            }
            path.parts.pop();
            if !(is_dot_chars(&stem) && n > 1) {
                proof {
                    lemma_parts_view_push(path.parts@, stem);
                }
                path.parts.push(stem);
            }
        },
        None => {},
    }
}

/// The path without the last two extensions of its file name
/// (`path/to/this/file.tar.gz` gives `path/to/this/file`).
pub fn strip_double_extension(path: &FilePath) -> (r: FilePath)
    ensures
        r@ == stripped(stripped(path@)),
{
    let mut r = path.clone();
    strip_extension(&mut r);
    strip_extension(&mut r);
    r
}

/// The archive root that an archive file name stands for: the path without
/// its `.tar.gz`.
pub fn strip_tar_gz_extension(path: &FilePath) -> (r: FilePath)
    ensures
        r@ == stripped(stripped(path@)),
{
    strip_double_extension(path)
}

/// Replaces the leading components that `one` and `two` share by
/// `replacement`.
pub fn replace_common_prefix(one: &FilePath, two: &FilePath, replacement: &FilePath) -> (r:
    FilePath)
    ensures
        r@ == rebased(one@, two@, replacement@),
{
    let shared = one.common_prefix_with(two);
    let rest = one.tail_from(shared);
    replacement.join(&rest)
}

/// A path shares all of an ancestor's components with it.
pub proof fn lemma_common_prefix_of_descendant(base: Seq<Seq<char>>, rest: Seq<Seq<char>>)
    ensures
        common_prefix_len(base + rest, base) == base.len(),
    decreases base.len(),
{
    if base.len() > 0 {
        assert((base + rest).skip(1) =~= base.skip(1) + rest);
        assert((base + rest)[0] == base[0]);
        lemma_common_prefix_of_descendant(base.skip(1), rest);
    }
}

/// Rebasing a path that lies below `base` keeps what lies below it: the
/// result is `replacement` extended by the part of the path under `base`.
pub proof fn lemma_rebase_descendant(
    base: Seq<Seq<char>>,
    rest: Seq<Seq<char>>,
    replacement: Seq<Seq<char>>,
)
    ensures
        rebased(base + rest, base, replacement) == pushed(replacement, rest),
{
    lemma_common_prefix_of_descendant(base, rest);
    if rest.len() > 0 {
        assert((base + rest).skip(base.len() as int) =~= rest);
    } else {
        assert(rest =~= Seq::<Seq<char>>::empty());
    }
}

/// The name of a file or directory inside the archive of the directory
/// `root`: its path below `root`.
pub fn archive_name(path: &FilePath, root: &FilePath) -> (r: FilePath)
    ensures
        r@ == parts_from(path@, common_prefix_len(path@, root@)),
{
    let shared = path.common_prefix_with(root);
    path.tail_from(shared)
}

/// Whether a path steps up to a parent directory somewhere.
pub open spec fn steps_up(p: Seq<Seq<char>>) -> bool {
    exists|i: int| 0 <= i < p.len() && #[trigger] p[i] == dotdot_part()
}

/// Whether the name of an archive entry must be refused: unpacked, it could
/// leave the directory that the archive is unpacked into.
pub fn is_unsafe_entry(path: &FilePath) -> (r: bool)
    ensures
        r == steps_up(path@),
{
    let mut i: usize = 0;
    while i < path.parts.len()
        invariant
            i <= path.parts.len(),
            forall|j: int| 0 <= j < i ==> #[trigger] path@[j] != dotdot_part(),
        decreases path.parts.len() - i,
    {
        if is_dotdot_chars(&path.parts[i]) {
            assert(path@[i as int] == dotdot_part());
            return true;
        }
        assert(path@[i as int] == path.parts[i as int]@);
        i += 1;
    }
    false
}

/// The SHA3-256 digest of the bytes, as `sha3::Sha3_256` computes it,
/// written in lower-case hexadecimal.
pub uninterp spec fn sha3_256_hex(bytes: Seq<u8>) -> Seq<char>;

/// `sha3::Sha3_256`, fed the bytes in one piece: the digest in hexadecimal.
#[verifier::external_body]
fn sha3_hex(bytes: &[u8]) -> (r: String)
    ensures
        r@ == sha3_256_hex(bytes@),
{
    let mut hasher = sha3::Sha3_256::new();
    hasher.update(bytes);
    format!("{:x}", hasher.finalize())
}

/// The part of a chunk that is hashed: its first 1024 bytes.
pub open spec fn hashed_part(chunk: Seq<u8>) -> Seq<u8> {
    if chunk.len() > 1024 {
        chunk.take(1024)
    } else {
        chunk
    }
}

/// The fingerprint of a chunk of a file: the SHA3-256 digest of its first
/// 1024 bytes, in hexadecimal.
pub fn hash_chunk(chunk: &[u8]) -> (r: String)
    ensures
        r@ == sha3_256_hex(hashed_part(chunk@)),
{
    if chunk.len() > 1024 {
        let head = slice_subrange(chunk, 0, 1024);
        assert(head@ =~= chunk@.take(1024));
        sha3_hex(head)
    } else {
        sha3_hex(chunk)
    }
}

} // verus!
