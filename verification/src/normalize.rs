//! Indentation normalizer.
//!
//! The original whitespace of the input is treated as noise: each
//! line's target indentation is derived from the line's shape alone
//! (where its colons and dash markers stand), tracked by a running
//! indent level.  Keys seen at the top level in a pre-scan reset the
//! level to zero; a sequence item directly after a bare key header is
//! pushed one level deeper; a `key: value` pair sits one level below
//! the current header.

use vstd::prelude::*;
use crate::text::{
    trim_spec, key_of, ends_colon, has_colon, spaces, split_spec, join_lines, line_views,
    char_vec_of, split_lines, trim_chars, find_char_from, copy_range, key_in, member_of,
    append_chars, push_indent, join_line_vec, string_of,
};

verus! {

/// Whether a line can contribute a key to the root key set: its
/// trimmed text is non-empty, is no comment, does not start with a
/// sequence marker, and has a non-empty portion before its first
/// colon.
pub open spec fn is_root_line(line: Seq<char>) -> bool {
    let t = trim_spec(line);
    t.len() > 0 && t[0] != '-' && t[0] != '#' && key_of(t).len() > 0
}

/// The set of keys found at candidate top-level lines, computed in a
/// pre-scan of all lines.
pub open spec fn root_keys(lines: Seq<Seq<char>>) -> Set<Seq<char>> {
    Set::new(
        |k: Seq<char>|
            exists|i: int|
                0 <= i < lines.len() && is_root_line(lines[i]) && key_of(trim_spec(lines[i])) == k,
    )
}

/// One step of the rewrite: given the root key set, the current indent
/// level and whether the previous emitted line was a bare key header,
/// yields the level after the line, whether the emitted line is a bare
/// key header, and the emitted line itself.
pub open spec fn norm_step(roots: Set<Seq<char>>, level: nat, prev_colon: bool, line: Seq<char>) -> (
    nat,
    bool,
    Seq<char>,
) {
    let t = trim_spec(line);
    if t.len() == 0 {
        (level, false, Seq::<char>::empty())
    } else if roots.contains(key_of(t)) && t[0] != '-' {
        (0 as nat, ends_colon(t), t)
    } else if t[0] == '-' {
        let lv = if prev_colon {
            (level + 1) as nat
        } else {
            level
        };
        (lv, ends_colon(t), spaces(2 * lv) + t)
    } else if has_colon(t) && !ends_colon(t) {
        (level, false, spaces(2 * (level + 1)) + t)
    } else {
        (level, ends_colon(t), spaces(2 * level) + t)
    }
}

/// The rewritten lines from position `i` on, running the step function
/// from the given state.
pub open spec fn norm_from(
    roots: Set<Seq<char>>,
    lines: Seq<Seq<char>>,
    i: int,
    level: nat,
    prev_colon: bool,
) -> Seq<Seq<char>>
    decreases lines.len() - i,
{
    if 0 <= i < lines.len() {
        let stp = norm_step(roots, level, prev_colon, lines[i]);
        seq![stp.2] + norm_from(roots, lines, i + 1, stp.0, stp.1)
    } else {
        Seq::empty()
    }
}

/// The whole normalized text: every line rewritten in order, starting
/// at level zero, joined with newline separators.
pub open spec fn normalize_spec(s: Seq<char>) -> Seq<char> {
    let lines = split_spec(s);
    join_lines(norm_from(root_keys(lines), lines, 0, 0 as nat, false))
}

proof fn lemma_root_keys_shape(la: Seq<Seq<char>>, lb: Seq<Seq<char>>)
    requires
        la.len() == lb.len(),
        forall|j: int| 0 <= j < la.len() ==> trim_spec(la[j]) == trim_spec(lb[j]),
    ensures
        root_keys(la) == root_keys(lb),
{
    assert forall|k: Seq<char>|
        #![trigger root_keys(la).contains(k)]
        root_keys(la).contains(k) == root_keys(lb).contains(k) by {
        if root_keys(la).contains(k) {
            let i = choose|i: int|
                0 <= i < la.len() && is_root_line(la[i]) && key_of(trim_spec(la[i])) == k;
            assert(is_root_line(lb[i]) && key_of(trim_spec(lb[i])) == k);
            assert(root_keys(lb).contains(k));
        }
        if root_keys(lb).contains(k) {
            let i = choose|i: int|
                0 <= i < lb.len() && is_root_line(lb[i]) && key_of(trim_spec(lb[i])) == k;
            assert(is_root_line(la[i]) && key_of(trim_spec(la[i])) == k);
            assert(root_keys(la).contains(k));
        }
    }
    assert(root_keys(la) =~= root_keys(lb));
}

proof fn lemma_norm_from_shape(
    roots: Set<Seq<char>>,
    la: Seq<Seq<char>>,
    lb: Seq<Seq<char>>,
    i: int,
    level: nat,
    prev_colon: bool,
)
    requires
        la.len() == lb.len(),
        forall|j: int| 0 <= j < la.len() ==> trim_spec(la[j]) == trim_spec(lb[j]),
    ensures
        norm_from(roots, la, i, level, prev_colon) == norm_from(roots, lb, i, level, prev_colon),
    decreases la.len() - i,
{
    if 0 <= i < la.len() {
        assert(norm_step(roots, level, prev_colon, la[i]) == norm_step(
            roots,
            level,
            prev_colon,
            lb[i],
        ));
        let stp = norm_step(roots, level, prev_colon, la[i]);
        lemma_norm_from_shape(roots, la, lb, i + 1, stp.0, stp.1);
    }
}

/// Indentation determinism: the normalizer reads nothing of a line
/// but its trimmed text, so the emitted indentation is a function of
/// line shape alone.  Two texts of equally many lines whose
/// corresponding lines agree after trimming — whatever their original
/// whitespace — are rewritten to the same text.
pub proof fn lemma_normalize_determinism(a: Seq<char>, b: Seq<char>)
    requires
        split_spec(a).len() == split_spec(b).len(),
        forall|j: int|
            0 <= j < split_spec(a).len() ==> trim_spec(split_spec(a)[j]) == trim_spec(
                split_spec(b)[j],
            ),
    ensures
        normalize_spec(a) == normalize_spec(b),
{
    lemma_root_keys_shape(split_spec(a), split_spec(b));
    lemma_norm_from_shape(root_keys(split_spec(a)), split_spec(a), split_spec(b), 0, 0 as nat, false);
}

/// The root key set as a vector of keys, with membership proved
/// equivalent to `root_keys`.
/// Whether some line of `ls` contributes `k` to the root key set.
pub open spec fn root_witness(ls: Seq<Seq<char>>, k: Seq<char>) -> bool {
    exists|i0: int| 0 <= i0 < ls.len() && is_root_line(ls[i0]) && key_of(trim_spec(ls[i0])) == k
}

fn collect_root_keys(lines: &Vec<Vec<char>>) -> (rk: Vec<Vec<char>>)
    ensures
        forall|k: Seq<char>|
            #![trigger root_keys(line_views(lines@)).contains(k)]
            root_keys(line_views(lines@)).contains(k) == key_in(rk@, k),
{
    let ghost ls: Seq<Seq<char>> = line_views(lines@);
    let mut rk: Vec<Vec<char>> = Vec::new();
    let mut i: usize = 0;
    while i < lines.len()
        invariant
            0 <= i <= lines.len(),
            ls == line_views(lines@),
            forall|j: int|
                #![trigger rk@[j]]
                0 <= j < rk@.len() ==> root_witness(ls, rk@[j]@),
            forall|i0: int|
                #![trigger is_root_line(ls[i0])]
                0 <= i0 < i && is_root_line(ls[i0]) ==> key_in(rk@, key_of(trim_spec(ls[i0]))),
        decreases lines.len() - i,
    {
        let ghost rk0: Seq<Vec<char>> = rk@;
        let t = trim_chars(&lines[i]);
        proof {
            assert(t@ == trim_spec(ls[i as int]));
        }
        let mut pushed: bool = false;
        if t.len() > 0 && t[0] != '-' && t[0] != '#' {
            let p = find_char_from(&t, ':', 0);
            let key = copy_range(&t, 0, p);
            proof {
                assert(key@ == key_of(t@));
            }
            if key.len() > 0 {
                rk.push(key);
                pushed = true;
                proof {
                    assert(is_root_line(ls[i as int]));
                    assert(rk@[rk0.len() as int]@ == key_of(trim_spec(ls[i as int])));
                    assert(root_witness(ls, rk@[rk0.len() as int]@));
                }
            }
        }
        proof {
            if !pushed {
                assert(rk@ == rk0);
                assert(!is_root_line(ls[i as int]));
            }
            assert forall|j: int| #![trigger rk@[j]] 0 <= j < rk@.len() implies root_witness(
                ls,
                rk@[j]@,
            ) by {
                if j < rk0.len() {
                    assert(rk@[j] == rk0[j]);
                    assert(root_witness(ls, rk0[j]@));
                }
            }
            assert forall|i0: int|
                #![trigger is_root_line(ls[i0])]
                0 <= i0 < i + 1 && is_root_line(ls[i0]) implies key_in(
                rk@,
                key_of(trim_spec(ls[i0])),
            ) by {
                if i0 < i {
                    let j = choose|j: int|
                        0 <= j < rk0.len() && rk0[j]@ == key_of(trim_spec(ls[i0]));
                    assert(rk@[j]@ == key_of(trim_spec(ls[i0])));
                } else {
                    assert(rk@[rk0.len() as int]@ == key_of(trim_spec(ls[i0])));
                }
            }
        }
        i = i + 1;
    }
    proof {
        assert forall|k: Seq<char>|
            #![trigger root_keys(ls).contains(k)]
            root_keys(ls).contains(k) == key_in(rk@, k) by {
            if root_keys(ls).contains(k) {
                let i0 = choose|i0: int|
                    0 <= i0 < ls.len() && is_root_line(ls[i0]) && key_of(trim_spec(ls[i0])) == k;
                assert(key_in(rk@, key_of(trim_spec(ls[i0]))));
            }
            if key_in(rk@, k) {
                let j = choose|j: int| 0 <= j < rk@.len() && rk@[j]@ == k;
                assert(root_witness(ls, rk@[j]@));
                assert(root_keys(ls).contains(k));
            }
        }
    }
    rk
}

/// Rewrites each line's leading whitespace from the line shapes alone.
/// Total and best-effort: the text is always rewritten, never rejected.
pub fn fix_yaml_indentation(yaml_content: &str) -> (r: String)
    ensures
        r@ == normalize_spec(yaml_content@),
{
    let chars = char_vec_of(yaml_content);
    let lines = split_lines(&chars);
    let ghost ls: Seq<Seq<char>> = line_views(lines@);
    let ghost rs: Set<Seq<char>> = root_keys(ls);
    let rk = collect_root_keys(&lines);
    let mut out: Vec<Vec<char>> = Vec::new();
    let mut level: usize = 0;
    let mut prev_colon: bool = false;
    let mut i: usize = 0;
    while i < lines.len()
        invariant
            0 <= i <= lines.len(),
            ls == line_views(lines@),
            rs == root_keys(ls),
            level as nat <= i,
            forall|k: Seq<char>| #![trigger rs.contains(k)] rs.contains(k) == key_in(rk@, k),
            norm_from(rs, ls, 0, 0 as nat, false) == line_views(out@) + norm_from(
                rs,
                ls,
                i as int,
                level as nat,
                prev_colon,
            ),
        decreases lines.len() - i,
    {
        let ghost level0: nat = level as nat;
        let ghost pc0: bool = prev_colon;
        let ghost stp: (nat, bool, Seq<char>) = norm_step(rs, level0, pc0, ls[i as int]);
        let ghost out0: Seq<Vec<char>> = out@;
        let t = trim_chars(&lines[i]);
        proof {
            assert(t@ == trim_spec(ls[i as int]));
        }
        if t.len() == 0 {
            let e: Vec<char> = Vec::new();
            out.push(e);
            prev_colon = false;
        } else {
            let p = find_char_from(&t, ':', 0);
            let key = copy_range(&t, 0, p);
            proof {
                assert(key@ == key_of(t@));
            }
            let is_member = member_of(&rk, &key);
            proof {
                assert(is_member == key_in(rk@, key@));
                assert(is_member == rs.contains(key_of(t@)));
            }
            let tail_colon = t[t.len() - 1] == ':';
            proof {
                assert(tail_colon == ends_colon(t@));
            }
            if is_member && t[0] != '-' {
                level = 0;
                let e = copy_range(&t, 0, t.len());
                proof {
                    assert(e@ =~= t@);
                }
                out.push(e);
                prev_colon = tail_colon;
            } else if t[0] == '-' {
                if prev_colon {
                    level = level + 1;
                }
                let mut e: Vec<char> = Vec::new();
                push_indent(&mut e, level);
                append_chars(&mut e, &t);
                out.push(e);
                prev_colon = tail_colon;
            } else if p < t.len() && !tail_colon {
                let mut e: Vec<char> = Vec::new();
                push_indent(&mut e, level + 1);
                append_chars(&mut e, &t);
                out.push(e);
                prev_colon = false;
            } else {
                proof {
                    assert(has_colon(t@) == (p < t@.len()));
                }
                let mut e: Vec<char> = Vec::new();
                push_indent(&mut e, level);
                append_chars(&mut e, &t);
                out.push(e);
                prev_colon = tail_colon;
            }
        }
        proof {
            assert(out@.len() == out0.len() + 1);
            assert(out@[out0.len() as int]@ == stp.2);
            assert(level as nat == stp.0);
            assert(prev_colon == stp.1);
            assert(line_views(out@) =~= line_views(out0).push(stp.2));
            assert(norm_from(rs, ls, i as int, level0, pc0) == seq![stp.2] + norm_from(
                rs,
                ls,
                i + 1,
                stp.0,
                stp.1,
            ));
            assert(line_views(out0) + norm_from(rs, ls, i as int, level0, pc0) =~= line_views(
                out@,
            ) + norm_from(rs, ls, i + 1, stp.0, stp.1));
        }
        i = i + 1;
    }
    proof {
        assert(norm_from(rs, ls, i as int, level as nat, prev_colon) =~= Seq::<Seq<char>>::empty());
        assert(norm_from(rs, ls, 0, 0 as nat, false) =~= line_views(out@));
    }
    let joined = join_line_vec(&out);
    let r = string_of(&joined);
    r
}

} // verus!
