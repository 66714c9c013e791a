//! Construction of the prompt handed to the text-generation service.
//!
//! The prompt template holds two placeholders; the uploaded body and
//! the target template are substituted for them.  Substitution is
//! plain non-overlapping left-to-right replacement of every
//! occurrence.

use vstd::prelude::*;
use crate::text::{char_vec_of, append_chars, append_range, find_sub_from, find_sub, string_of};

verus! {

/// The text from position `i` on with every occurrence of `pat`,
/// found left to right without overlap, replaced by `rep`.
pub open spec fn replace_from(s: Seq<char>, pat: Seq<char>, rep: Seq<char>, i: int) -> Seq<char>
    decreases s.len() - i,
{
    if 0 <= i <= s.len() && pat.len() >= 1 {
        let p = find_sub_from(s, pat, i);
        if i <= p && p + pat.len() <= s.len() {
            s.subrange(i, p) + rep + replace_from(s, pat, rep, p + pat.len())
        } else {
            s.subrange(i, s.len() as int)
        }
    } else {
        Seq::empty()
    }
}

/// The whole text with every occurrence of `pat` replaced by `rep`.
pub open spec fn replace_all_spec(s: Seq<char>, pat: Seq<char>, rep: Seq<char>) -> Seq<char> {
    replace_from(s, pat, rep, 0)
}

/// The placeholder that stands for the uploaded body.
pub open spec fn input_placeholder() -> Seq<char> {
    seq!['{', 'I', 'N', 'P', 'U', 'T', '_', 'C', 'O', 'N', 'T', 'E', 'N', 'T', '}']
}

/// The placeholder that stands for the target template.
pub open spec fn template_placeholder() -> Seq<char> {
    seq!['{', 'T', 'E', 'M', 'P', 'L', 'A', 'T', 'E', '_', 'C', 'O', 'N', 'T', 'E', 'N', 'T', '}']
}

/// The finished user prompt: the prompt template with the uploaded
/// body put for the input placeholder and the target template put for
/// the template placeholder.
pub open spec fn build_prompt_spec(
    prompt_template: Seq<char>,
    input_content: Seq<char>,
    template_content: Seq<char>,
) -> Seq<char> {
    replace_all_spec(
        replace_all_spec(prompt_template, input_placeholder(), input_content),
        template_placeholder(),
        template_content,
    )
}

/// Every occurrence of `pat` in `v`, found left to right without
/// overlap, replaced by `rep`.
fn replace_all(v: &Vec<char>, pat: &Vec<char>, rep: &Vec<char>) -> (r: Vec<char>)
    requires
        pat.len() >= 1,
    ensures
        r@ == replace_all_spec(v@, pat@, rep@),
{
    let mut out: Vec<char> = Vec::new();
    let mut pos: usize = 0;
    loop
        invariant_except_break
            0 <= pos <= v.len(),
            pat.len() >= 1,
            replace_all_spec(v@, pat@, rep@) == out@ + replace_from(v@, pat@, rep@, pos as int),
        ensures
            out@ == replace_all_spec(v@, pat@, rep@),
        decreases v.len() - pos,
    {
        let ghost pos0: int = pos as int;
        match find_sub(v, pat, pos) {
            Some(p) => {
                append_range(&mut out, v, pos, p);
                append_chars(&mut out, rep);
                pos = p + pat.len();
                proof {
                    assert(replace_from(v@, pat@, rep@, pos0) == v@.subrange(pos0, p as int)
                        + rep@ + replace_from(v@, pat@, rep@, pos as int));
                }
            },
            None => {
                append_range(&mut out, v, pos, v.len());
                proof {
                    assert(replace_from(v@, pat@, rep@, pos0) == v@.subrange(
                        pos0,
                        v@.len() as int,
                    ));
                }
                break ;
            },
        }
    }
    out
}

/// Builds the user prompt handed to the text-generation service: the
/// prompt template with the uploaded body and the target template
/// substituted for their placeholders.
pub fn build_user_prompt(prompt_template: &str, input_content: &str, template_content: &str) -> (r:
    String)
    ensures
        r@ == build_prompt_spec(prompt_template@, input_content@, template_content@),
{
    let tpl = char_vec_of(prompt_template);
    let input = char_vec_of(input_content);
    let target = char_vec_of(template_content);
    let mut ip: Vec<char> = Vec::new();
    ip.push('{');
    ip.push('I');
    ip.push('N');
    ip.push('P');
    ip.push('U');
    ip.push('T');
    ip.push('_');
    ip.push('C');
    ip.push('O');
    ip.push('N');
    ip.push('T');
    ip.push('E');
    ip.push('N');
    ip.push('T');
    ip.push('}');
    let mut tp: Vec<char> = Vec::new();
    tp.push('{');
    tp.push('T');
    tp.push('E');
    tp.push('M');
    tp.push('P');
    tp.push('L');
    tp.push('A');
    tp.push('T');
    tp.push('E');
    tp.push('_');
    tp.push('C');
    tp.push('O');
    tp.push('N');
    tp.push('T');
    tp.push('E');
    tp.push('N');
    tp.push('T');
    tp.push('}');
    proof {
        assert(ip@ =~= input_placeholder());
        assert(tp@ =~= template_placeholder());
    }
    let step1 = replace_all(&tpl, &ip, &input);
    let step2 = replace_all(&step1, &tp, &target);
    string_of(&step2)
}

} // verus!
