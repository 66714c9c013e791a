//! Duplicate-key filter.
//!
//! The filter walks the lines in order while tracking nested mapping
//! scopes by literal indentation width on a stack of frames.  Each
//! frame remembers the mapping keys already seen at its width; a line
//! that introduces a key already present in the current frame is
//! dropped.  A new sequence item clears the current frame: every list
//! element opens a fresh mapping namespace.

use vstd::prelude::*;
use crate::text::{
    trim_spec, trim_start_spec, lead_ws, key_of, has_colon, split_spec, join_lines, line_views,
    key_in, member_of, lemma_key_in_views, char_vec_of, split_lines, trim_chars, find_char_from, copy_range,
    count_leading_ws, join_line_vec, string_of,
};

verus! {

/// One scope: an indentation width and the mapping keys already seen
/// at that width within the current block or sequence item.
#[verifier::ext_equal]
pub struct Frame {
    pub width: nat,
    pub keys: Seq<Seq<char>>,
}

/// The trimmed line with a leading sequence marker, and the blanks
/// after it, stripped.
pub open spec fn after_dash(t: Seq<char>) -> Seq<char> {
    if t.len() > 0 && t[0] == '-' {
        trim_start_spec(t.drop_first())
    } else {
        t
    }
}

/// The mapping key a line would introduce: its pre-colon portion, a
/// leading sequence marker stripped, trimmed.
pub open spec fn candidate_key(t: Seq<char>) -> Seq<char> {
    trim_spec(key_of(after_dash(t)))
}

/// Pops every frame, beyond the root, whose width exceeds `w`.
pub open spec fn pop_to(stack: Seq<Frame>, w: nat) -> Seq<Frame>
    decreases stack.len(),
{
    if stack.len() > 1 && stack.last().width > w {
        pop_to(stack.drop_last(), w)
    } else {
        stack
    }
}

/// One step of the filter: the stack after the line and whether the
/// line is kept.  Blank and comment lines pass through untouched;
/// otherwise the stack is adjusted to the line's width, a sequence
/// marker clears the current frame, and a line introducing a key
/// already seen in the current frame is dropped.
pub open spec fn ded_step(stack: Seq<Frame>, line: Seq<char>) -> (Seq<Frame>, bool) {
    let t = trim_spec(line);
    if t.len() == 0 || t[0] == '#' {
        (stack, true)
    } else {
        let w = lead_ws(line) as nat;
        let s1 = pop_to(stack, w);
        let s2 = if w > s1.last().width {
            s1.push(Frame { width: w, keys: Seq::empty() })
        } else {
            s1
        };
        let s3 = if t[0] == '-' {
            s2.update(s2.len() - 1, Frame { width: s2.last().width, keys: Seq::empty() })
        } else {
            s2
        };
        let k = candidate_key(t);
        if has_colon(t) && k.len() > 0 {
            if s3.last().keys.contains(k) {
                (s3, false)
            } else {
                (
                    s3.update(
                        s3.len() - 1,
                        Frame { width: s3.last().width, keys: s3.last().keys.push(k) },
                    ),
                    true,
                )
            }
        } else {
            (s3, true)
        }
    }
}

/// The lines kept by the filter from position `i` on, running the
/// step function from the given stack.
pub open spec fn ded_from(lines: Seq<Seq<char>>, i: int, stack: Seq<Frame>) -> Seq<Seq<char>>
    decreases lines.len() - i,
{
    if 0 <= i < lines.len() {
        let stp = ded_step(stack, lines[i]);
        if stp.1 {
            seq![lines[i]] + ded_from(lines, i + 1, stp.0)
        } else {
            ded_from(lines, i + 1, stp.0)
        }
    } else {
        Seq::empty()
    }
}

/// The stack at the start of a walk: one root frame of width zero.
pub open spec fn init_stack() -> Seq<Frame> {
    seq![Frame { width: 0 as nat, keys: Seq::empty() }]
}

/// The whole filtered text: the kept lines, joined with newline
/// separators.
pub open spec fn dedupe_spec(s: Seq<char>) -> Seq<char> {
    join_lines(ded_from(split_spec(s), 0, init_stack()))
}

/// Duplicate removal, dropping half: a non-comment mapping line at
/// its scope frame's own width, whose key the frame has already seen,
/// is dropped, and the scopes are left as they were.  Together with
/// the retaining half below, duplicate removal is scope-local.
pub proof fn lemma_duplicate_key_dropped(stack: Seq<Frame>, line: Seq<char>)
    requires
        stack.len() >= 1,
        trim_spec(line).len() > 0,
        trim_spec(line)[0] != '#',
        trim_spec(line)[0] != '-',
        lead_ws(line) == stack.last().width,
        has_colon(trim_spec(line)),
        candidate_key(trim_spec(line)).len() > 0,
        stack.last().keys.contains(candidate_key(trim_spec(line))),
    ensures
        !ded_step(stack, line).1,
        ded_step(stack, line).0 == stack,
{
    let w = lead_ws(line) as nat;
    assert(pop_to(stack, w) == stack);
}

/// Duplicate removal, first occurrence: the same line is kept when
/// the frame has not seen its key, and the key is recorded.
pub proof fn lemma_first_occurrence_kept(stack: Seq<Frame>, line: Seq<char>)
    requires
        stack.len() >= 1,
        trim_spec(line).len() > 0,
        trim_spec(line)[0] != '#',
        trim_spec(line)[0] != '-',
        lead_ws(line) == stack.last().width,
        has_colon(trim_spec(line)),
        candidate_key(trim_spec(line)).len() > 0,
        !stack.last().keys.contains(candidate_key(trim_spec(line))),
    ensures
        ded_step(stack, line).1,
        ded_step(stack, line).0.last().keys.contains(candidate_key(trim_spec(line))),
{
    let w = lead_ws(line) as nat;
    assert(pop_to(stack, w) == stack);
    let k = candidate_key(trim_spec(line));
    let ks = ded_step(stack, line).0.last().keys;
    assert(ks == stack.last().keys.push(k));
    assert(ks[ks.len() - 1] == k);
}

/// Duplicate removal, retaining half: a non-comment line indented
/// deeper than the current scope opens a fresh frame with an empty
/// key set, so it is always kept — the same key name at a deeper
/// scope is retained.
pub proof fn lemma_new_scope_kept(stack: Seq<Frame>, line: Seq<char>)
    requires
        stack.len() >= 1,
        trim_spec(line).len() > 0,
        trim_spec(line)[0] != '#',
        lead_ws(line) > stack.last().width,
    ensures
        ded_step(stack, line).1,
{
    let w = lead_ws(line) as nat;
    assert(pop_to(stack, w) == stack);
    let k = candidate_key(trim_spec(line));
    let s2 = stack.push(Frame { width: w, keys: Seq::empty() });
    assert(s2.last().keys.len() == 0);
    if trim_spec(line)[0] == '-' {
        let s3 = s2.update(s2.len() - 1, Frame { width: s2.last().width, keys: Seq::empty() });
        assert(s3.last().keys.len() == 0);
        assert(!s3.last().keys.contains(k));
    } else {
        assert(!s2.last().keys.contains(k));
    }
}

/// A new sequence item resets the duplicate namespace: after a
/// sequence-item line at the scope's own width, the line is kept and
/// the frame holds at most that item's own inline key, so a key may
/// legally repeat once per list element.
pub proof fn lemma_sequence_item_resets_scope(stack: Seq<Frame>, line: Seq<char>)
    requires
        stack.len() >= 1,
        trim_spec(line).len() > 0,
        trim_spec(line)[0] == '-',
        lead_ws(line) == stack.last().width,
    ensures
        ded_step(stack, line).1,
        forall|k: Seq<char>|
            ded_step(stack, line).0.last().keys.contains(k) ==> k == candidate_key(
                trim_spec(line),
            ),
{
    let w = lead_ws(line) as nat;
    assert(pop_to(stack, w) == stack);
    let t = trim_spec(line);
    let ck = candidate_key(t);
    let s3 = stack.update(stack.len() - 1, Frame { width: stack.last().width, keys: Seq::empty() });
    assert(s3.last().keys.len() == 0);
    assert(!s3.last().keys.contains(ck));
    let ks = ded_step(stack, line).0.last().keys;
    assert forall|k: Seq<char>| ks.contains(k) implies k == ck by {
        if has_colon(t) && ck.len() > 0 {
            assert(ks == s3.last().keys.push(ck));
            let j = choose|j: int| 0 <= j < ks.len() && ks[j] == k;
            assert(j == 0);
        } else {
            assert(ks.len() == 0);
        }
    }
}

/// A plain mapping line of a flat top-level block: non-blank, no
/// comment, no sequence marker, no leading whitespace, and an actual
/// key before a colon.
pub open spec fn flat_mapping_line(line: Seq<char>) -> bool {
    &&& trim_spec(line).len() > 0
    &&& trim_spec(line)[0] != '#'
    &&& trim_spec(line)[0] != '-'
    &&& lead_ws(line) == 0
    &&& has_colon(trim_spec(line))
    &&& candidate_key(trim_spec(line)).len() > 0
}

/// The first-occurrence filter on a flat block: a line whose key was
/// already seen is dropped, every other line is kept, in order.
pub open spec fn first_occurrences(lines: Seq<Seq<char>>, i: int, seen: Seq<Seq<char>>) -> Seq<
    Seq<char>,
>
    decreases lines.len() - i,
{
    if 0 <= i < lines.len() {
        let k = candidate_key(trim_spec(lines[i]));
        if seen.contains(k) {
            first_occurrences(lines, i + 1, seen)
        } else {
            seq![lines[i]] + first_occurrences(lines, i + 1, seen.push(k))
        }
    } else {
        Seq::empty()
    }
}

/// Duplicate removal on a whole flat mapping block: the filter keeps
/// exactly the first line of each distinct key, in order — the scope
/// stack never comes into play.  This is the run-level form of the
/// step lemmas above.
pub proof fn lemma_flat_block_keeps_first_occurrences(
    lines: Seq<Seq<char>>,
    i: int,
    seen: Seq<Seq<char>>,
)
    requires
        forall|j: int| i <= j < lines.len() ==> flat_mapping_line(lines[j]),
    ensures
        ded_from(lines, i, seq![Frame { width: 0 as nat, keys: seen }]) == first_occurrences(
            lines,
            i,
            seen,
        ),
    decreases lines.len() - i,
{
    if 0 <= i < lines.len() {
        let stack = seq![Frame { width: 0 as nat, keys: seen }];
        let t = trim_spec(lines[i]);
        let k = candidate_key(t);
        assert(pop_to(stack, 0 as nat) == stack);
        if seen.contains(k) {
            assert(ded_step(stack, lines[i]) == (stack, false));
            lemma_flat_block_keeps_first_occurrences(lines, i + 1, seen);
        } else {
            let stack2 = seq![Frame { width: 0 as nat, keys: seen.push(k) }];
            assert(ded_step(stack, lines[i]).0 =~~= stack2);
            assert(ded_step(stack, lines[i]).1);
            lemma_flat_block_keeps_first_occurrences(lines, i + 1, seen.push(k));
        }
    }
}

/// One scope frame as the walk holds it at run time.
pub struct ScopeFrame {
    pub width: usize,
    pub keys: Vec<Vec<char>>,
}

/// The mathematical frame a run-time frame stands for.
pub open spec fn frame_model(f: ScopeFrame) -> Frame {
    Frame { width: f.width as nat, keys: line_views(f.keys@) }
}

/// The mathematical stack a run-time stack stands for.
pub open spec fn stack_model(st: Seq<ScopeFrame>) -> Seq<Frame> {
    Seq::new(st.len(), |i: int| frame_model(st[i]))
}

/// Drops every line that repeats a mapping key already seen in its
/// scope; all other lines pass through unchanged.  Total and
/// best-effort: dropping a line is a silent repair, never an error.
pub fn remove_duplicate_keys(yaml_content: &str) -> (r: String)
    ensures
        r@ == dedupe_spec(yaml_content@),
{
    let chars = char_vec_of(yaml_content);
    let lines = split_lines(&chars);
    let ghost ls: Seq<Seq<char>> = line_views(lines@);
    let mut out: Vec<Vec<char>> = Vec::new();
    let mut stack: Vec<ScopeFrame> = Vec::new();
    stack.push(ScopeFrame { width: 0, keys: Vec::new() });
    proof {
        assert(stack_model(stack@) =~~= init_stack());
    }
    let mut i: usize = 0;
    while i < lines.len()
        invariant
            0 <= i <= lines.len(),
            ls == line_views(lines@),
            stack@.len() >= 1,
            ded_from(ls, 0, init_stack()) == line_views(out@) + ded_from(
                ls,
                i as int,
                stack_model(stack@),
            ),
        decreases lines.len() - i,
    {
        let ghost st0: Seq<Frame> = stack_model(stack@);
        let ghost stp: (Seq<Frame>, bool) = ded_step(st0, ls[i as int]);
        let ghost out0: Seq<Vec<char>> = out@;
        let t = trim_chars(&lines[i]);
        proof {
            assert(t@ == trim_spec(ls[i as int]));
        }
        if t.len() == 0 || t[0] == '#' {
            let e = copy_range(&lines[i], 0, lines[i].len());
            proof {
                assert(e@ =~= ls[i as int]);
            }
            out.push(e);
            proof {
                assert(stp.0 == st0 && stp.1);
            }
        } else {
            let w = count_leading_ws(&lines[i]);
            proof {
                assert(w as nat == lead_ws(ls[i as int]) as nat);
            }
            while stack.len() > 1 && stack[stack.len() - 1].width > w
                invariant
                    stack@.len() >= 1,
                    pop_to(st0, w as nat) == pop_to(stack_model(stack@), w as nat),
                decreases stack@.len(),
            {
                let ghost before: Seq<ScopeFrame> = stack@;
                stack.pop();
                proof {
                    assert(stack_model(before).last().width > w as nat);
                    assert(stack_model(stack@) =~= stack_model(before).drop_last());
                }
            }
            proof {
                let sm = stack_model(stack@);
                assert(!(sm.len() > 1 && sm.last().width > w as nat));
                assert(pop_to(sm, w as nat) == sm);
                assert(stack_model(stack@) == pop_to(st0, w as nat));
            }
            let ghost s1: Seq<Frame> = pop_to(st0, w as nat);
            if w > stack[stack.len() - 1].width {
                stack.push(ScopeFrame { width: w, keys: Vec::new() });
                proof {
                    assert(line_views(Seq::<Vec<char>>::empty()) =~= Seq::<Seq<char>>::empty());
                    assert(stack_model(stack@) =~~= s1.push(
                        Frame { width: w as nat, keys: Seq::empty() },
                    ));
                }
            }
            let ghost s2: Seq<Frame> = stack_model(stack@);
            if t[0] == '-' {
                let mut top = stack.pop().unwrap();
                top.keys = Vec::new();
                stack.push(top);
                proof {
                    assert(line_views(Seq::<Vec<char>>::empty()) =~= Seq::<Seq<char>>::empty());
                    assert(stack_model(stack@) =~~= s2.update(
                        s2.len() - 1,
                        Frame { width: s2.last().width, keys: Seq::empty() },
                    ));
                }
            }
            let ghost s3: Seq<Frame> = stack_model(stack@);
            proof {
                assert(s3 == if t@[0] == '-' {
                    s2.update(s2.len() - 1, Frame { width: s2.last().width, keys: Seq::empty() })
                } else {
                    s2
                });
            }
            // derive the candidate key
            let stripped = if t[0] == '-' {
                let u = copy_range(&t, 1, t.len());
                proof {
                    assert(u@ =~= t@.drop_first());
                }
                let lead = count_leading_ws(&u);
                let v = copy_range(&u, lead, u.len());
                proof {
                    assert(v@ =~= trim_start_spec(u@));
                }
                v
            } else {
                copy_range(&t, 0, t.len())
            };
            proof {
                assert(stripped@ == after_dash(t@));
            }
            let pk = find_char_from(&stripped, ':', 0);
            let keyraw = copy_range(&stripped, 0, pk);
            let key = trim_chars(&keyraw);
            proof {
                assert(keyraw@ == key_of(stripped@));
                assert(key@ == candidate_key(t@));
            }
            let p = find_char_from(&t, ':', 0);
            proof {
                assert((p < t.len()) == has_colon(t@));
            }
            if p < t.len() && key.len() > 0 {
                let n = stack.len();
                let member = member_of(&stack[n - 1].keys, &key);
                proof {
                    assert(member == key_in(stack@[n - 1].keys@, key@));
                    assert(line_views(stack@[n - 1].keys@) == s3.last().keys);
                    lemma_key_in_views(stack@[n - 1].keys@, key@);
                    assert(member == s3.last().keys.contains(key@));
                }
                if member {
                    proof {
                        assert(stp == (s3, false));
                    }
                    // the line repeats a key in its scope: drop it
                } else {
                    let mut top = stack.pop().unwrap();
                    top.keys.push(key);
                    stack.push(top);
                    proof {
                        assert(line_views(stack@[n - 1].keys@) =~= s3.last().keys.push(key@));
                        assert(stack_model(stack@) =~~= s3.update(
                            s3.len() - 1,
                            Frame { width: s3.last().width, keys: s3.last().keys.push(key@) },
                        ));
                    }
                    let e = copy_range(&lines[i], 0, lines[i].len());
                    proof {
                        assert(e@ =~= ls[i as int]);
                    }
                    out.push(e);
                }
            } else {
                let e = copy_range(&lines[i], 0, lines[i].len());
                proof {
                    assert(e@ =~= ls[i as int]);
                    assert(stp == (s3, true));
                }
                out.push(e);
            }
        }
        proof {
            assert(stack_model(stack@) == stp.0);
            if stp.1 {
                assert(out@.len() == out0.len() + 1);
                assert(out@[out0.len() as int]@ == ls[i as int]);
                assert(line_views(out@) =~= line_views(out0).push(ls[i as int]));
                assert(ded_from(ls, i as int, st0) == seq![ls[i as int]] + ded_from(
                    ls,
                    i + 1,
                    stp.0,
                ));
                assert(line_views(out0) + ded_from(ls, i as int, st0) =~= line_views(out@)
                    + ded_from(ls, i + 1, stp.0));
            } else {
                assert(out@ == out0);
                assert(ded_from(ls, i as int, st0) == ded_from(ls, i + 1, stp.0));
            }
        }
        i = i + 1;
    }
    proof {
        assert(ded_from(ls, i as int, stack_model(stack@)) =~= Seq::<Seq<char>>::empty());
        assert(ded_from(ls, 0, init_stack()) =~= line_views(out@));
    }
    let joined = join_line_vec(&out);
    let r = string_of(&joined);
    r
}

} // verus!
