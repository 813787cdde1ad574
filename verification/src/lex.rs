//! Splitting, joining and trimming character sequences, and the decimal
//! number grammar that show files use for levels.

use vstd::prelude::*;

use crate::text::{ends_with, is_digit, is_digit_char, lower, lower_char, lower_seq, occurs_at, slice_vec};

verus! {

// ---------------------------------------------------------------------------
// Splitting on a character
// ---------------------------------------------------------------------------

/// `str::split` on one character: the pieces between occurrences of `c`,
/// always at least one.
pub open spec fn split_spec(s: Seq<char>, c: char) -> Seq<Seq<char>>
    decreases s.len(),
{
    if s.len() == 0 {
        seq![Seq::<char>::empty()]
    } else {
        let prev = split_spec(s.drop_last(), c);
        if s.last() == c {
            prev.push(Seq::<char>::empty())
        } else {
            prev.update(prev.len() - 1, prev.last().push(s.last()))
        }
    }
}

pub proof fn lemma_split_nonempty(s: Seq<char>, c: char)
    ensures
        split_spec(s, c).len() >= 1,
    decreases s.len(),
{
    if s.len() > 0 {
        lemma_split_nonempty(s.drop_last(), c);
    }
}

pub open spec fn views(v: Seq<Vec<char>>) -> Seq<Seq<char>> {
    v.map_values(|x: Vec<char>| x@)
}

/// Split a character sequence at every `c`.
pub fn split_chars(s: &[char], c: char) -> (r: Vec<Vec<char>>)
    ensures
        views(r@) == split_spec(s@, c),
{
    let mut out: Vec<Vec<char>> = Vec::new();
    let mut cur: Vec<char> = Vec::new();
    let mut i: usize = 0;
    proof {
        assert(s@.take(0) =~= Seq::<char>::empty());
        assert(views(out@).push(cur@) =~= seq![Seq::<char>::empty()]);
    }
    while i < s.len()
        invariant
            i <= s@.len(),
            views(out@).push(cur@) == split_spec(s@.take(i as int), c),
        decreases s@.len() - i,
    {
        let ghost before = views(out@).push(cur@);
        proof {
            let t = s@.take(i + 1);
            assert(t.drop_last() =~= s@.take(i as int));
            assert(t.last() == s@[i as int]);
            lemma_split_nonempty(s@.take(i as int), c);
        }
        if s[i] == c {
            out.push(cur);
            cur = Vec::new();
            proof {
                assert(views(out@).push(cur@) =~= before.push(Seq::<char>::empty()));
            }
        } else {
            cur.push(s[i]);
            proof {
                assert(views(out@).push(cur@) =~= before.update(
                    before.len() - 1,
                    before.last().push(s@[i as int]),
                ));
            }
        }
        i = i + 1;
    }
    proof {
        assert(s@.take(i as int) =~= s@);
    }
    out.push(cur);
    proof {
        assert(views(out@) =~= split_spec(s@, c));
    }
    out
}

// ---------------------------------------------------------------------------
// Joining
// ---------------------------------------------------------------------------

/// `[..].join(sep)`.
pub open spec fn join_spec(parts: Seq<Seq<char>>, sep: Seq<char>) -> Seq<char>
    decreases parts.len(),
{
    if parts.len() == 0 {
        Seq::empty()
    } else if parts.len() == 1 {
        parts[0]
    } else {
        join_spec(parts.drop_last(), sep) + sep + parts.last()
    }
}

pub open spec fn string_views(v: Seq<String>) -> Seq<Seq<char>> {
    v.map_values(|x: String| x@)
}

/// Append the parts, separated by `sep`, to `out`.
pub fn push_joined(out: &mut String, parts: &[String], sep: &str)
    ensures
        final(out)@ == old(out)@ + join_spec(string_views(parts@), sep@),
{
    let ghost start = out@;
    let mut i: usize = 0;
    proof {
        assert(string_views(parts@).take(0) =~= Seq::<Seq<char>>::empty());
        assert(start + Seq::<char>::empty() =~= start);
    }
    while i < parts.len()
        invariant
            i <= parts@.len(),
            out@ == start + join_spec(string_views(parts@).take(i as int), sep@),
        decreases parts@.len() - i,
    {
        let ghost t = string_views(parts@).take(i + 1);
        proof {
            assert(t.drop_last() =~= string_views(parts@).take(i as int));
            assert(t.last() == parts@[i as int]@);
        }
        if i > 0 {
            crate::text::push_str(out, sep);
        }
        crate::text::push_str(out, parts[i].as_str());
        proof {
            if i == 0 {
                assert(t =~= seq![parts@[0]@]);
                assert(join_spec(string_views(parts@).take(0), sep@) =~= Seq::<char>::empty());
            }
            assert(out@ =~= start + join_spec(t, sep@));
        }
        i = i + 1;
    }
    proof {
        assert(string_views(parts@).take(i as int) =~= string_views(parts@));
    }
}

// ---------------------------------------------------------------------------
// Trimming a repeated character or suffix
// ---------------------------------------------------------------------------

/// Number of leading `c`.
pub open spec fn lead_run(s: Seq<char>, c: char) -> nat
    decreases s.len(),
{
    if s.len() > 0 && s[0] == c {
        1 + lead_run(s.drop_first(), c)
    } else {
        0
    }
}

/// Number of trailing `c`.
pub open spec fn trail_run(s: Seq<char>, c: char) -> nat
    decreases s.len(),
{
    if s.len() > 0 && s.last() == c {
        1 + trail_run(s.drop_last(), c)
    } else {
        0
    }
}

/// `str::trim_start_matches(c)`.
pub open spec fn trim_start_char(s: Seq<char>, c: char) -> Seq<char> {
    s.skip(lead_run(s, c) as int)
}

/// `str::trim_matches(c)`.
pub open spec fn trim_char(s: Seq<char>, c: char) -> Seq<char> {
    let t = trim_start_char(s, c);
    t.take(t.len() - trail_run(t, c))
}

pub proof fn lemma_lead_run_unique(s: Seq<char>, c: char, n: int)
    requires
        0 <= n <= s.len(),
        forall|i: int| 0 <= i < n ==> #[trigger] s[i] == c,
        n < s.len() ==> s[n] != c,
    ensures
        lead_run(s, c) == n,
    decreases s.len(),
{
    if n > 0 {
        assert(s[0] == c);
        assert forall|i: int| 0 <= i < n - 1 implies #[trigger] s.drop_first()[i] == c by {
            assert(s.drop_first()[i] == s[i + 1]);
        }
        if n - 1 < s.len() - 1 {
            assert(s.drop_first()[n - 1] == s[n]);
        }
        lemma_lead_run_unique(s.drop_first(), c, n - 1);
    } else if s.len() > 0 {
        assert(s[0] != c);
    }
}

pub proof fn lemma_trail_run_unique(s: Seq<char>, c: char, n: int)
    requires
        0 <= n <= s.len(),
        forall|i: int| s.len() - n <= i < s.len() ==> #[trigger] s[i] == c,
        n < s.len() ==> s[s.len() - n - 1] != c,
    ensures
        trail_run(s, c) == n,
    decreases s.len(),
{
    if n > 0 {
        assert(s[s.len() - 1] == c);
        assert forall|i: int| s.len() - 1 - (n - 1) <= i < s.len() - 1 implies #[trigger] s.drop_last()[i] == c by {
            assert(s.drop_last()[i] == s[i]);
        }
        if n - 1 < s.len() - 1 {
            assert(s.drop_last()[s.len() - 1 - (n - 1) - 1] == s[s.len() - n - 1]);
        }
        lemma_trail_run_unique(s.drop_last(), c, n - 1);
    } else if s.len() > 0 {
        assert(s.last() != c);
    }
}

/// `str::trim_start_matches(c)`, over characters.
pub fn trim_start_char_vec(s: &[char], c: char) -> (r: Vec<char>)
    ensures
        r@ == trim_start_char(s@, c),
{
    let mut a: usize = 0;
    while a < s.len() && s[a] == c
        invariant
            a <= s@.len(),
            forall|i: int| 0 <= i < a ==> #[trigger] s@[i] == c,
        decreases s@.len() - a,
    {
        a = a + 1;
    }
    proof {
        lemma_lead_run_unique(s@, c, a as int);
    }
    slice_vec(s, a, s.len())
}

/// `str::trim_matches(c)`, over characters.
pub fn trim_char_vec(s: &[char], c: char) -> (r: Vec<char>)
    ensures
        r@ == trim_char(s@, c),
{
    let t = trim_start_char_vec(s, c);
    let mut b: usize = t.len();
    while b > 0 && t[b - 1] == c
        invariant
            b <= t@.len(),
            forall|i: int| b <= i < t@.len() ==> #[trigger] t@[i] == c,
        decreases b,
    {
        b = b - 1;
    }
    proof {
        lemma_trail_run_unique(t@, c, t@.len() - b);
    }
    slice_vec(t.as_slice(), 0, b)
}

/// `str::trim_end_matches(p)` for a non-empty pattern: strip `p` from the end
/// for as long as it is there.
pub open spec fn trim_end_seq(s: Seq<char>, p: Seq<char>) -> Seq<char>
    decreases s.len(),
{
    if p.len() > 0 && p.len() <= s.len() && s.skip(s.len() - p.len()) == p {
        trim_end_seq(s.take(s.len() - p.len()), p)
    } else {
        s
    }
}

/// `str::trim_end_matches(p)`, over characters.
pub fn trim_end_seq_vec(s: &[char], p: &[char]) -> (r: Vec<char>)
    requires
        p@.len() > 0,
    ensures
        r@ == trim_end_seq(s@, p@),
{
    let mut cur = slice_vec(s, 0, s.len());
    proof {
        assert(cur@ =~= s@);
    }
    while ends_with(cur.as_slice(), p)
        invariant
            p@.len() > 0,
            trim_end_seq(cur@, p@) == trim_end_seq(s@, p@),
        decreases cur@.len(),
    {
        let n = cur.len() - p.len();
        cur = slice_vec(cur.as_slice(), 0, n);
    }
    cur
}

// ---------------------------------------------------------------------------
// Decimal numbers as `f32::from_str` reads them
// ---------------------------------------------------------------------------

/// States of the recogniser for the number grammar that `f32::from_str`
/// documents: `( Digit+ | Digit+ '.' Digit* | Digit* '.' Digit+ ) Exp?`,
/// with `Exp ::= [eE] Sign? Digit+`.
pub open spec fn num_step(state: u8, c: char) -> u8 {
    if state == 0 {
        if is_digit(c) { 1 } else if c == '.' { 2 } else { 7 }
    } else if state == 1 {
        if is_digit(c) { 1 } else if c == '.' { 3 } else if c == 'e' || c == 'E' { 4 } else { 7 }
    } else if state == 2 {
        if is_digit(c) { 3 } else { 7 }
    } else if state == 3 {
        if is_digit(c) { 3 } else if c == 'e' || c == 'E' { 4 } else { 7 }
    } else if state == 4 {
        if c == '+' || c == '-' { 5 } else if is_digit(c) { 6 } else { 7 }
    } else if state == 5 {
        if is_digit(c) { 6 } else { 7 }
    } else if state == 6 {
        if is_digit(c) { 6 } else { 7 }
    } else {
        7
    }
}

pub open spec fn num_state(s: Seq<char>) -> u8
    decreases s.len(),
{
    if s.len() == 0 {
        0
    } else {
        num_step(num_state(s.drop_last()), s.last())
    }
}

pub open spec fn is_number_text(s: Seq<char>) -> bool {
    let st = num_state(s);
    st == 1 || st == 3 || st == 6
}

/// The text `f32::from_str` accepts: an optional sign, then `inf`,
/// `infinity`, `nan` (in any case) or a decimal number.
pub open spec fn is_float_text(s: Seq<char>) -> bool {
    let b = if s.len() > 0 && (s[0] == '+' || s[0] == '-') {
        s.drop_first()
    } else {
        s
    };
    ||| lower_seq(b) == "inf"@
    ||| lower_seq(b) == "infinity"@
    ||| lower_seq(b) == "nan"@
    ||| is_number_text(b)
}

fn num_step_exec(state: u8, c: char) -> (r: u8)
    ensures
        r == num_step(state, c),
{
    let d = is_digit_char(c);
    if state == 0 {
        if d { 1 } else if c == '.' { 2 } else { 7 }
    } else if state == 1 {
        if d { 1 } else if c == '.' { 3 } else if c == 'e' || c == 'E' { 4 } else { 7 }
    } else if state == 2 {
        if d { 3 } else { 7 }
    } else if state == 3 {
        if d { 3 } else if c == 'e' || c == 'E' { 4 } else { 7 }
    } else if state == 4 {
        if c == '+' || c == '-' { 5 } else if d { 6 } else { 7 }
    } else if state == 5 {
        if d { 6 } else { 7 }
    } else if state == 6 {
        if d { 6 } else { 7 }
    } else {
        7
    }
}

/// ASCII lower case of every character.
pub fn lower_vec(s: &[char]) -> (r: Vec<char>)
    ensures
        r@ == lower_seq(s@),
{
    let mut r: Vec<char> = Vec::new();
    let mut i: usize = 0;
    while i < s.len()
        invariant
            i <= s@.len(),
            r@ == lower_seq(s@.take(i as int)),
        decreases s@.len() - i,
    {
        r.push(lower_char(s[i]));
        i = i + 1;
        proof {
            assert(r@ =~= lower_seq(s@.take(i as int)));
        }
    }
    proof {
        assert(s@.take(i as int) =~= s@);
    }
    r
}

/// Whether `f32::from_str` accepts the text.
pub fn is_float_chars(s: &[char]) -> (r: bool)
    ensures
        r == is_float_text(s@),
{
    let start: usize = if s.len() > 0 && (s[0] == '+' || s[0] == '-') {
        1
    } else {
        0
    };
    let b = slice_vec(s, start, s.len());
    proof {
        if s@.len() > 0 && (s@[0] == '+' || s@[0] == '-') {
            assert(b@ =~= s@.drop_first());
        } else {
            assert(b@ =~= s@);
        }
    }
    let l = lower_vec(b.as_slice());
    if crate::text::eq_str(l.as_slice(), "inf") || crate::text::eq_str(l.as_slice(), "infinity")
        || crate::text::eq_str(l.as_slice(), "nan") {
        return true;
    }
    let mut st: u8 = 0;
    let mut i: usize = 0;
    proof {
        assert(b@.take(0) =~= Seq::<char>::empty());
    }
    while i < b.len()
        invariant
            i <= b@.len(),
            st == num_state(b@.take(i as int)),
        decreases b@.len() - i,
    {
        proof {
            assert(b@.take(i + 1).drop_last() =~= b@.take(i as int));
        }
        st = num_step_exec(st, b[i]);
        i = i + 1;
    }
    proof {
        assert(b@.take(i as int) =~= b@);
    }
    st == 1 || st == 3 || st == 6
}

/// The token, if `f32::from_str` would read it as a number.
pub fn float_token(t: &String) -> (r: Option<String>)
    ensures
        match r {
            Some(v) => is_float_text(t@) && v@ == t@,
            None => !is_float_text(t@),
        },
{
    let cs = crate::text::chars_of(t.as_str());
    if is_float_chars(cs.as_slice()) {
        Some(t.clone())
    } else {
        None
    }
}


/// Whether `needle` occurs anywhere in `s`.
pub fn contains_chars(s: &[char], needle: &[char]) -> (r: bool)
    ensures
        r == (exists|i: int| occurs_at(s@, needle@, i)),
{
    if needle.len() > s.len() {
        proof {
            assert forall|i: int| !occurs_at(s@, needle@, i) by {}
        }
        return false;
    }
    let n = s.len();
    let last = n - needle.len();
    let mut i: usize = 0;
    while i <= last
        invariant
            n == s@.len(),
            last == s@.len() - needle@.len(),
            needle@.len() <= s@.len(),
            i <= last,
            forall|j: int| 0 <= j < i ==> !occurs_at(s@, needle@, j),
        decreases last - i,
    {
        let piece = slice_vec(s, i, i + needle.len());
        if crate::text::eq_chars(piece.as_slice(), needle) {
            proof {
                assert(occurs_at(s@, needle@, i as int));
            }
            return true;
        }
        if i == last {
            proof {
                assert forall|j: int| !occurs_at(s@, needle@, j) by {
                    if 0 <= j && j <= i {
                    }
                }
            }
            return false;
        }
        i = i + 1;
    }
    false
}

} // verus!
