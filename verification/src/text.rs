//! Character-level text utilities shared by the repair passes.
//!
//! All passes view a text as a `Seq<char>` and a line as a slice of it
//! between newline separators.  The spec functions here give the
//! mathematical meaning of trimming, searching, splitting and joining;
//! each exec function is proved equal to its spec.

use vstd::prelude::*;
use vstd::string::StrSliceExecFns;

verus! {

/// The blank characters the engine treats as whitespace: the ASCII
/// blanks that occur in machine-generated markup.
pub open spec fn is_ws(c: char) -> bool {
    c == ' ' || c == '\t' || c == '\r' || c == '\n'
}

/// First index at or after `i` holding a non-whitespace character, or
/// `s.len()` when the rest of the text is all whitespace.
pub open spec fn ws_end(s: Seq<char>, i: int) -> int
    decreases s.len() - i,
{
    if 0 <= i < s.len() {
        if is_ws(s[i]) {
            ws_end(s, i + 1)
        } else {
            i
        }
    } else {
        s.len() as int
    }
}

/// Width of a line's leading whitespace.
pub open spec fn lead_ws(s: Seq<char>) -> int {
    ws_end(s, 0)
}

pub proof fn lemma_ws_end_bounds(s: Seq<char>, i: int)
    requires
        0 <= i <= s.len(),
    ensures
        i <= ws_end(s, i) <= s.len(),
        forall|j: int| i <= j < ws_end(s, i) ==> is_ws(s[j]),
        ws_end(s, i) < s.len() ==> !is_ws(s[ws_end(s, i)]),
    decreases s.len() - i,
{
    if i < s.len() && is_ws(s[i]) {
        lemma_ws_end_bounds(s, i + 1);
    }
}

/// Smallest index `j` such that everything from `j` up to `i` is
/// whitespace, scanning down from `i`.
pub open spec fn back_stop(s: Seq<char>, i: int) -> int
    decreases i,
{
    if 0 < i <= s.len() {
        if is_ws(s[i - 1]) {
            back_stop(s, i - 1)
        } else {
            i
        }
    } else {
        0
    }
}


/// The line without its leading whitespace.
pub open spec fn trim_start_spec(s: Seq<char>) -> Seq<char> {
    s.skip(ws_end(s, 0))
}

/// The line without its trailing whitespace.
pub open spec fn trim_end_spec(s: Seq<char>) -> Seq<char> {
    s.take(back_stop(s, s.len() as int))
}

/// The line without leading and trailing whitespace.
pub open spec fn trim_spec(s: Seq<char>) -> Seq<char> {
    trim_end_spec(trim_start_spec(s))
}

/// First index at or after `i` where `c` occurs, or `s.len()` when it
/// does not occur there.
pub open spec fn find_from(s: Seq<char>, c: char, i: int) -> int
    decreases s.len() - i,
{
    if 0 <= i < s.len() {
        if s[i] == c {
            i
        } else {
            find_from(s, c, i + 1)
        }
    } else {
        s.len() as int
    }
}


/// Whether the line holds a colon anywhere.
pub open spec fn has_colon(s: Seq<char>) -> bool {
    find_from(s, ':', 0) < s.len()
}

/// Whether the line's last character is a colon.
pub open spec fn ends_colon(s: Seq<char>) -> bool {
    s.len() > 0 && s[s.len() - 1] == ':'
}

/// The portion of the line before its first colon; the whole line when
/// it holds no colon.
pub open spec fn key_of(s: Seq<char>) -> Seq<char> {
    s.take(find_from(s, ':', 0))
}

/// `n` space characters.
pub open spec fn spaces(n: nat) -> Seq<char>
    decreases n,
{
    if n == 0 {
        Seq::empty()
    } else {
        spaces((n - 1) as nat).push(' ')
    }
}

/// The lines of a text from position `pos` on, split at newline
/// separators.  A text with no newline is a single line; every
/// separator opens a further line.
pub open spec fn split_from(s: Seq<char>, pos: int) -> Seq<Seq<char>>
    decreases s.len() - pos,
{
    if 0 <= pos <= s.len() {
        let p = find_from(s, '\n', pos);
        if pos <= p < s.len() {
            seq![s.subrange(pos, p)] + split_from(s, p + 1)
        } else {
            seq![s.subrange(pos, s.len() as int)]
        }
    } else {
        Seq::empty()
    }
}

/// The lines of a whole text.
pub open spec fn split_spec(s: Seq<char>) -> Seq<Seq<char>> {
    split_from(s, 0)
}

/// The text made of the lines from `i` on, joined with newline
/// separators.
pub open spec fn join_from(ls: Seq<Seq<char>>, i: int) -> Seq<char>
    decreases ls.len() - i,
{
    if 0 <= i < ls.len() {
        if i == ls.len() - 1 {
            ls[i]
        } else {
            ls[i] + seq!['\n'] + join_from(ls, i + 1)
        }
    } else {
        Seq::empty()
    }
}

/// The text made of all the lines, joined with newline separators.
pub open spec fn join_lines(ls: Seq<Seq<char>>) -> Seq<char> {
    join_from(ls, 0)
}

/// The views of a sequence of character vectors.
pub open spec fn line_views(ls: Seq<Vec<char>>) -> Seq<Seq<char>> {
    Seq::new(ls.len(), |i: int| ls[i]@)
}

/// Exec test for `is_ws`.
pub fn ws_char(c: char) -> (r: bool)
    ensures
        r == is_ws(c),
{
    c == ' ' || c == '\t' || c == '\r' || c == '\n'
}

/// The characters of a `&str`, in order.
pub fn char_vec_of(s: &str) -> (r: Vec<char>)
    ensures
        r@ == s@,
{
    let n = s.unicode_len();
    let mut r: Vec<char> = Vec::new();
    let mut i: usize = 0;
    while i < n
        invariant
            n == s@.len(),
            0 <= i <= n,
            r@ == s@.take(i as int),
        decreases n - i,
    {
        let c = s.get_char(i);
        r.push(c);
        i = i + 1;
        proof {
            assert(r@ =~= s@.take(i as int));
        }
    }
    proof {
        assert(s@.take(n as int) =~= s@);
    }
    r
}

/// Builds the `String` holding exactly these characters.
///
/// Relies on `String`'s `FromIterator<char>` implementation (through
/// `Iterator::collect`): the collected string holds the iterated
/// characters in order.
#[verifier::external_body]
pub fn string_of(v: &Vec<char>) -> (r: String)
    ensures
        r@ == v@,
{
    v.iter().collect()
}

/// Width of the line's leading whitespace.
pub fn count_leading_ws(v: &Vec<char>) -> (n: usize)
    ensures
        n == lead_ws(v@),
        0 <= n <= v.len(),
        forall|j: int| 0 <= j < n ==> is_ws(v@[j]),
        n < v.len() ==> !is_ws(v@[n as int]),
{
    let mut i: usize = 0;
    while i < v.len() && ws_char(v[i])
        invariant
            0 <= i <= v.len(),
            ws_end(v@, 0) == ws_end(v@, i as int),
            forall|j: int| 0 <= j < i ==> is_ws(v@[j]),
        decreases v.len() - i,
    {
        i = i + 1;
    }
    proof {
        assert(ws_end(v@, i as int) == i);
        lemma_ws_end_bounds(v@, 0);
    }
    i
}

/// Copy of the characters of `v` from `a` up to `b`.
pub fn copy_range(v: &Vec<char>, a: usize, b: usize) -> (r: Vec<char>)
    requires
        a <= b <= v.len(),
    ensures
        r@ == v@.subrange(a as int, b as int),
{
    let mut r: Vec<char> = Vec::new();
    let mut i: usize = a;
    while i < b
        invariant
            a <= i <= b <= v.len(),
            r@ == v@.subrange(a as int, i as int),
        decreases b - i,
    {
        r.push(v[i]);
        i = i + 1;
        proof {
            assert(r@ =~= v@.subrange(a as int, i as int));
        }
    }
    r
}

/// The line without leading and trailing whitespace.
pub fn trim_chars(v: &Vec<char>) -> (r: Vec<char>)
    ensures
        r@ == trim_spec(v@),
{
    let lo = count_leading_ws(v);
    let ghost u: Seq<char> = v@.skip(lo as int);
    let mut hi: usize = v.len();
    while hi > lo && ws_char(v[hi - 1])
        invariant
            lo <= hi <= v.len(),
            lo == lead_ws(v@),
            u == v@.skip(lo as int),
            back_stop(u, u.len() as int) == back_stop(u, (hi - lo) as int),
        decreases hi,
    {
        proof {
            assert(u[(hi - lo - 1) as int] == v@[hi - 1]);
        }
        hi = hi - 1;
    }
    proof {
        if hi == lo {
            assert(back_stop(u, 0) == 0);
        } else {
            assert(u[(hi - lo - 1) as int] == v@[hi - 1]);
            assert(back_stop(u, (hi - lo) as int) == hi - lo);
        }
        assert(back_stop(u, u.len() as int) == hi - lo);
    }
    let r = copy_range(v, lo, hi);
    proof {
        assert(v@.subrange(lo as int, hi as int) =~= u.take((hi - lo) as int));
    }
    r
}

/// First position at or after `from` where `c` occurs, or the length
/// when it does not.
pub fn find_char_from(v: &Vec<char>, c: char, from: usize) -> (r: usize)
    requires
        from <= v.len(),
    ensures
        r == find_from(v@, c, from as int),
        from <= r <= v.len(),
        r < v.len() ==> v@[r as int] == c,
        forall|j: int| from <= j < r ==> v@[j] != c,
{
    let mut i: usize = from;
    while i < v.len() && v[i] != c
        invariant
            from <= i <= v.len(),
            find_from(v@, c, from as int) == find_from(v@, c, i as int),
            forall|j: int| from <= j < i ==> v@[j] != c,
        decreases v.len() - i,
    {
        i = i + 1;
    }
    proof {
        assert(find_from(v@, c, i as int) == i);
    }
    i
}

/// Whether `k` stands among the views of the collected key vectors.
pub open spec fn key_in(keys: Seq<Vec<char>>, k: Seq<char>) -> bool {
    exists|j: int| 0 <= j < keys.len() && keys[j]@ == k
}

pub proof fn lemma_key_in_views(keys: Seq<Vec<char>>, k: Seq<char>)
    ensures
        key_in(keys, k) == line_views(keys).contains(k),
{
    if key_in(keys, k) {
        let j = choose|j: int| #![trigger keys[j]] 0 <= j < keys.len() && keys[j]@ == k;
        assert(line_views(keys)[j] == k);
        assert(line_views(keys).contains(k));
    }
    if line_views(keys).contains(k) {
        let j = choose|j: int|
            #![trigger line_views(keys)[j]]
            0 <= j < line_views(keys).len() && line_views(keys)[j] == k;
        assert(keys[j]@ == k);
        assert(key_in(keys, k));
    }
}

/// Whether `key` stands in the key vector.
pub fn member_of(keys: &Vec<Vec<char>>, key: &Vec<char>) -> (r: bool)
    ensures
        r == key_in(keys@, key@),
{
    let mut j: usize = 0;
    while j < keys.len()
        invariant
            0 <= j <= keys.len(),
            forall|j0: int| 0 <= j0 < j ==> keys@[j0]@ != key@,
        decreases keys.len() - j,
    {
        if chars_eq(&keys[j], key) {
            return true;
        }
        j = j + 1;
    }
    false
}

/// Whether two character vectors hold the same text.
pub fn chars_eq(a: &Vec<char>, b: &Vec<char>) -> (r: bool)
    ensures
        r == (a@ == b@),
{
    if a.len() != b.len() {
        return false;
    }
    let mut i: usize = 0;
    while i < a.len()
        invariant
            0 <= i <= a.len(),
            a.len() == b.len(),
            forall|j: int| 0 <= j < i ==> a@[j] == b@[j],
        decreases a.len() - i,
    {
        if a[i] != b[i] {
            return false;
        }
        i = i + 1;
    }
    proof {
        assert(a@ =~= b@);
    }
    true
}

/// Appends the characters of `t` to `e`.
pub fn append_chars(e: &mut Vec<char>, t: &Vec<char>)
    ensures
        final(e)@ == old(e)@ + t@,
{
    let ghost e0: Seq<char> = e@;
    let mut i: usize = 0;
    while i < t.len()
        invariant
            0 <= i <= t.len(),
            e@ == e0 + t@.take(i as int),
        decreases t.len() - i,
    {
        e.push(t[i]);
        i = i + 1;
        proof {
            assert(e@ =~= e0 + t@.take(i as int));
        }
    }
    proof {
        assert(e0 + t@.take(t@.len() as int) =~= e0 + t@);
    }
}

/// Appends `2 * n` spaces to `e`: the indentation of nesting depth `n`.
pub fn push_indent(e: &mut Vec<char>, n: usize)
    ensures
        final(e)@ == old(e)@ + spaces(2 * n as nat),
{
    let ghost e0: Seq<char> = e@;
    let mut j: usize = 0;
    while j < n
        invariant
            0 <= j <= n,
            e@ == e0 + spaces(2 * j as nat),
        decreases n - j,
    {
        e.push(' ');
        e.push(' ');
        j = j + 1;
        proof {
            assert(spaces(2 * j as nat) == spaces((2 * j - 1) as nat).push(' '));
            assert(spaces((2 * j - 1) as nat) == spaces((2 * j - 2) as nat).push(' '));
            assert(e@ =~= e0 + spaces(2 * j as nat));
        }
    }
}


/// Appends the characters of `v` from `a` up to `b` to `e`.
pub fn append_range(e: &mut Vec<char>, v: &Vec<char>, a: usize, b: usize)
    requires
        a <= b <= v.len(),
    ensures
        final(e)@ == old(e)@ + v@.subrange(a as int, b as int),
{
    let ghost e0: Seq<char> = e@;
    let mut i: usize = a;
    while i < b
        invariant
            a <= i <= b <= v.len(),
            e@ == e0 + v@.subrange(a as int, i as int),
        decreases b - i,
    {
        e.push(v[i]);
        i = i + 1;
        proof {
            assert(e@ =~= e0 + v@.subrange(a as int, i as int));
        }
    }
}

/// The lines of the text, split at newline separators.
pub fn split_lines(v: &Vec<char>) -> (r: Vec<Vec<char>>)
    ensures
        line_views(r@) == split_spec(v@),
{
    let mut r: Vec<Vec<char>> = Vec::new();
    let mut pos: usize = 0;
    loop
        invariant_except_break
            0 <= pos <= v.len(),
            split_spec(v@) == line_views(r@) + split_from(v@, pos as int),
        ensures
            line_views(r@) == split_spec(v@),
        decreases v.len() - pos,
    {
        let j = find_char_from(v, '\n', pos);
        let ghost lv0: Seq<Seq<char>> = line_views(r@);
        if j < v.len() {
            let line = copy_range(v, pos, j);
            r.push(line);
            proof {
                assert(line_views(r@) =~= lv0.push(line@));
                assert(split_spec(v@) =~= line_views(r@) + split_from(v@, j + 1));
            }
            pos = j + 1;
        } else {
            let line = copy_range(v, pos, v.len());
            r.push(line);
            proof {
                assert(line_views(r@) =~= lv0.push(line@));
                assert(split_from(v@, pos as int) =~= seq![line@]);
                assert(line_views(r@) =~= split_spec(v@));
            }
            break ;
        }
    }
    r
}

/// The text made of the lines, joined with newline separators.
pub fn join_line_vec(ls: &Vec<Vec<char>>) -> (r: Vec<char>)
    ensures
        r@ == join_lines(line_views(ls@)),
{
    let ghost dv: Seq<Seq<char>> = line_views(ls@);
    let mut r: Vec<char> = Vec::new();
    let mut i: usize = 0;
    while i < ls.len()
        invariant
            0 <= i <= ls.len(),
            dv == line_views(ls@),
            dv.len() == ls.len(),
            i == 0 ==> r@ == Seq::<char>::empty(),
            0 < i < dv.len() ==> join_lines(dv) == r@ + seq!['\n'] + join_from(dv, i as int),
            0 < i && i == dv.len() ==> join_lines(dv) == r@,
        decreases ls.len() - i,
    {
        if i > 0 {
            r.push('\n');
        }
        let line = &ls[i];
        let mut k: usize = 0;
        let ghost r_before: Seq<char> = r@;
        while k < line.len()
            invariant
                0 <= k <= line.len(),
                r@ == r_before + line@.take(k as int),
            decreases line.len() - k,
        {
            r.push(line[k]);
            k = k + 1;
            proof {
                assert(r@ =~= r_before + line@.take(k as int));
            }
        }
        proof {
            assert(line@.take(line@.len() as int) =~= line@);
            assert(line@ == dv[i as int]);
        }
        i = i + 1;
        proof {
            if i < dv.len() {
                assert(join_from(dv, (i - 1) as int) == dv[i - 1] + seq!['\n'] + join_from(
                    dv,
                    i as int,
                ));
            } else {
                assert(join_from(dv, (i - 1) as int) == dv[i - 1]);
            }
        }
    }
    proof {
        if ls.len() == 0 {
            assert(join_lines(dv) =~= Seq::<char>::empty());
        }
    }
    r
}

/// Whether the pattern `p` stands in `s` at position `i`.
pub open spec fn match_at(s: Seq<char>, p: Seq<char>, i: int) -> bool {
    0 <= i && i + p.len() <= s.len() && s.subrange(i, i + p.len()) == p
}

/// First position at or after `i` where `p` stands in `s`, or `-1`
/// when there is none.
pub open spec fn find_sub_from(s: Seq<char>, p: Seq<char>, i: int) -> int
    decreases s.len() + 1 - i,
{
    if 0 <= i && i + p.len() <= s.len() {
        if match_at(s, p, i) {
            i
        } else {
            find_sub_from(s, p, i + 1)
        }
    } else {
        -1
    }
}


/// Whether the pattern stands at position `i` of the text.
pub(crate) fn matches_at(v: &Vec<char>, pat: &Vec<char>, i: usize) -> (r: bool)
    requires
        i + pat.len() <= v.len(),
    ensures
        r == match_at(v@, pat@, i as int),
{
    let mut k: usize = 0;
    while k < pat.len()
        invariant
            0 <= k <= pat.len(),
            i + pat.len() <= v.len(),
            forall|k0: int| 0 <= k0 < k ==> v@[i + k0] == pat@[k0],
        decreases pat.len() - k,
    {
        if v[i + k] != pat[k] {
            proof {
                assert(v@.subrange(i as int, i + pat@.len())[k as int] == v@[i + k]);
            }
            return false;
        }
        k = k + 1;
    }
    proof {
        assert(v@.subrange(i as int, i + pat@.len()) =~= pat@);
    }
    true
}

/// First position at or after `from` where the pattern stands in the
/// text.
pub(crate) fn find_sub(v: &Vec<char>, pat: &Vec<char>, from: usize) -> (r: Option<usize>)
    requires
        from <= v.len(),
        pat@.len() >= 1,
    ensures
        r is Some ==> from <= r->0 && r->0 + pat@.len() <= v.len() && r->0 as int == find_sub_from(
            v@,
            pat@,
            from as int,
        ),
        r is None ==> find_sub_from(v@, pat@, from as int) == -1,
{
    if pat.len() > v.len() {
        proof {
            assert(find_sub_from(v@, pat@, from as int) == -1);
        }
        return None;
    }
    let bound = v.len() - pat.len();
    if from > bound {
        proof {
            assert(find_sub_from(v@, pat@, from as int) == -1);
        }
        return None;
    }
    let mut i: usize = from;
    while i <= bound
        invariant
            from <= i,
            bound == v.len() - pat.len(),
            1 <= pat.len() <= v.len(),
            i <= bound + 1,
            find_sub_from(v@, pat@, from as int) == find_sub_from(v@, pat@, i as int),
        decreases bound + 1 - i,
    {
        if matches_at(v, pat, i) {
            return Some(i);
        }
        i = i + 1;
    }
    proof {
        assert(find_sub_from(v@, pat@, i as int) == -1);
    }
    None
}

} // verus!
