//! Extraction of the markup body from a free-text reply.
//!
//! A generative service wraps its answer in code fences more often
//! than not.  The extractor takes the body of the first fenced block,
//! preferring a fence that names the markup language, and falls back
//! to the whole reply; the result is trimmed either way.

use vstd::prelude::*;
use crate::text::{
    trim_spec, char_vec_of, copy_range, trim_chars, string_of, find_sub_from, find_sub,
};

verus! {

/// The fence opening a block that names the markup language.
pub open spec fn fence_yaml() -> Seq<char> {
    seq!['`', '`', '`', 'y', 'a', 'm', 'l']
}

/// A bare code fence.
pub open spec fn fence() -> Seq<char> {
    seq!['`', '`', '`']
}

/// The extracted markup body: the text between the first named fence
/// and the next fence, else between the first bare fence and the next
/// fence, else the whole reply; trimmed in every case.  A block whose
/// fence is never closed runs to the end of the reply.
pub open spec fn extract_spec(s: Seq<char>) -> Seq<char> {
    let py = find_sub_from(s, fence_yaml(), 0);
    if py >= 0 {
        let start = py + 7;
        let e = find_sub_from(s, fence(), start);
        let end = if e >= 0 {
            e
        } else {
            s.len() as int
        };
        trim_spec(s.subrange(start, end))
    } else {
        let pf = find_sub_from(s, fence(), 0);
        if pf >= 0 {
            let start = pf + 3;
            let e = find_sub_from(s, fence(), start);
            let end = if e >= 0 {
                e
            } else {
                s.len() as int
            };
            trim_spec(s.subrange(start, end))
        } else {
            trim_spec(s)
        }
    }
}

/// Takes the markup body out of a free-text reply: the content of the
/// first code fence, preferring a fence naming the markup language,
/// or the whole reply when it holds no fence; trimmed in every case.
pub fn extract_yaml(response: &str) -> (r: String)
    ensures
        r@ == extract_spec(response@),
{
    let chars = char_vec_of(response);
    let mut fy: Vec<char> = Vec::new();
    fy.push('`');
    fy.push('`');
    fy.push('`');
    fy.push('y');
    fy.push('a');
    fy.push('m');
    fy.push('l');
    let mut f3: Vec<char> = Vec::new();
    f3.push('`');
    f3.push('`');
    f3.push('`');
    proof {
        assert(fy@ =~= fence_yaml());
        assert(f3@ =~= fence());
    }
    match find_sub(&chars, &fy, 0) {
        Some(py) => {
            let start = py + 7;
            let end = match find_sub(&chars, &f3, start) {
                Some(e) => e,
                None => chars.len(),
            };
            let mid = copy_range(&chars, start, end);
            let tr = trim_chars(&mid);
            string_of(&tr)
        },
        None => {
            match find_sub(&chars, &f3, 0) {
                Some(pf) => {
                    let start = pf + 3;
                    let end = match find_sub(&chars, &f3, start) {
                        Some(e) => e,
                        None => chars.len(),
                    };
                    let mid = copy_range(&chars, start, end);
                    let tr = trim_chars(&mid);
                    string_of(&tr)
                },
                None => {
                    let tr = trim_chars(&chars);
                    string_of(&tr)
                },
            }
        },
    }
}

} // verus!
