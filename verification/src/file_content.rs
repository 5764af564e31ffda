//! Where the full text of a parsed file is kept.
use vstd::prelude::*;

use crate::api::file::join_path;
use crate::text::{chars_of, decimal_int, extend_chars, extend_str, push_i64, string_from_chars};

verus! {

/// The file holding a file's full text: `{file_id}.txt` in the contents
/// directory.
pub fn content_path(contents_path: &str, file_id: i64) -> (p: String)
    ensures
        p@ == join_path(contents_path@, decimal_int(file_id as int) + ".txt"@),
{
    proof {
        reveal_strlit(".txt");
    }
    let base = chars_of(contents_path);
    let mut out: Vec<char> = Vec::new();
    extend_chars(&mut out, base.as_slice());
    if base.len() > 0 && base[base.len() - 1] != '/' {
        out.push('/');
    }
    push_i64(file_id, &mut out);
    extend_str(&mut out, ".txt");
    proof {
        let leaf = decimal_int(file_id as int) + ".txt"@;
        if base@.len() == 0 {
            assert(out@ =~= leaf);
        } else if base@.last() == '/' {
            assert(out@ =~= base@ + leaf);
        } else {
            assert(out@ =~= base@ + seq!['/'] + leaf);
        }
    }
    string_from_chars(out.as_slice())
}

} // verus!
