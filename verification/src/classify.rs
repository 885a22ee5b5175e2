//! The classifier: recognises the target file format by its leading magic
//! bytes.

use vstd::prelude::*;
use crate::model::FileInfo;

verus! {

/// The four magic bytes that open every file of the target format: "GGUF".
pub open spec fn gguf_magic() -> Seq<u8> {
    seq![0x47u8, 0x47u8, 0x55u8, 0x46u8]
}

/// A file matches when it is at least four bytes long and starts with the
/// magic; shorter files never match.
pub open spec fn is_gguf_header(head: Seq<u8>) -> bool {
    head.len() >= 4 && head.subrange(0, 4) == gguf_magic()
}

/// Decide from a file's leading bytes (at most the first four are read)
/// whether it is a file of the target format.
pub fn has_gguf_header(head: &[u8]) -> (r: bool)
    ensures
        r == is_gguf_header(head@),
{
    if head.len() < 4 {
        return false;
    }
    let r = head[0] == 0x47 && head[1] == 0x47 && head[2] == 0x55 && head[3] == 0x46;
    proof {
        if r {
            assert(head@.subrange(0, 4) =~= gguf_magic());
        } else {
            if head@.subrange(0, 4) == gguf_magic() {
                assert(head@[0] == gguf_magic()[0]);
                assert(head@[1] == gguf_magic()[1]);
                assert(head@[2] == gguf_magic()[2]);
                assert(head@[3] == gguf_magic()[3]);
            }
        }
    }
    r
}

/// Build the model entry for a candidate file: accepted exactly when its
/// leading bytes carry the magic.
pub fn classify_file(path: String, size: u64, head: &[u8]) -> (r: Option<FileInfo>)
    ensures
        match r {
            Some(f) => is_gguf_header(head@) && f.path == path && f.size == size,
            None => !is_gguf_header(head@),
        },
{
    if has_gguf_header(head) {
        Some(FileInfo { path, size })
    } else {
        None
    }
}

} // verus!
