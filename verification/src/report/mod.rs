//! What the reports need besides drawing: file names, logos, PDF text
//! encoding, the topology's connector ranges.

pub mod image;
pub mod patch_list;
pub mod pdf;
pub mod sheet;
pub mod topology;

use vstd::prelude::*;

use crate::lex::{trail_run, lead_run, trim_char, trim_char_vec};
use crate::text::{chars_of, is_ascii_alnum, is_alnum_char, lower, lower_char, push_str, string_of};

verus! {

/// How a table column aligns its text.
#[derive(Debug, Clone, Copy, PartialEq, Eq, Structural)]
pub enum Align {
    Left,
    Right,
    Centre,
}

/// A generated document.
pub struct Report {
    /// Suggested file name, without a directory.
    pub file_name: String,
    /// Human title for the UI.
    pub title: String,
    pub bytes: Vec<u8>,
}

/// ASCII letters and digits kept in lower case; everything else a hyphen.
pub open spec fn slug_char(c: char) -> char {
    if is_ascii_alnum(c) {
        lower(c)
    } else {
        '-'
    }
}

/// Runs of hyphens reduced to one.
pub open spec fn collapse_hyphens(s: Seq<char>) -> Seq<char>
    decreases s.len(),
{
    if s.len() == 0 {
        Seq::empty()
    } else {
        let p = collapse_hyphens(s.drop_last());
        if s.last() == '-' && p.len() > 0 && p.last() == '-' {
            p
        } else {
            p.push(s.last())
        }
    }
}

/// The slug of a show name: mapped, hyphen runs collapsed, hyphens trimmed
/// from both ends, at most 48 characters, and `show` when nothing is left.
pub open spec fn slug_spec(s: Seq<char>) -> Seq<char> {
    let t = trim_char(collapse_hyphens(s.map_values(|c: char| slug_char(c))), '-');
    if t.len() == 0 {
        "show"@
    } else if t.len() > 48 {
        t.take(48)
    } else {
        t
    }
}

fn collapse_hyphens_vec(s: &[char]) -> (r: Vec<char>)
    ensures
        r@ == collapse_hyphens(s@),
{
    let mut r: Vec<char> = Vec::new();
    let mut i: usize = 0;
    while i < s.len()
        invariant
            i <= s@.len(),
            r@ == collapse_hyphens(s@.take(i as int)),
        decreases s@.len() - i,
    {
        let c = s[i];
        let n = r.len();
        proof {
            assert(s@.take(i + 1).drop_last() =~= s@.take(i as int));
        }
        if !(c == '-' && n > 0 && r[n - 1] == '-') {
            r.push(c);
        }
        i = i + 1;
    }
    proof {
        assert(s@.take(i as int) =~= s@);
    }
    r
}

/// Slugify a show name into something safe for a file name on any platform.
pub fn slug(s: &str) -> (r: String)
    ensures
        r@ == slug_spec(s@),
{
    let cs = chars_of(s);
    let mut mapped: Vec<char> = Vec::new();
    let mut i: usize = 0;
    while i < cs.len()
        invariant
            i <= cs@.len(),
            cs@ == s@,
            mapped@ == cs@.take(i as int).map_values(|c: char| slug_char(c)),
        decreases cs@.len() - i,
    {
        let c = cs[i];
        if is_alnum_char(c) {
            mapped.push(lower_char(c));
        } else {
            mapped.push('-');
        }
        i = i + 1;
        proof {
            assert(mapped@ =~= cs@.take(i as int).map_values(|c: char| slug_char(c)));
        }
    }
    proof {
        assert(cs@.take(i as int) =~= cs@);
    }
    let collapsed = collapse_hyphens_vec(mapped.as_slice());
    let t = trim_char_vec(collapsed.as_slice(), '-');
    if t.len() == 0 {
        String::from_str("show")
    } else if t.len() > 48 {
        let mut k: Vec<char> = Vec::new();
        let mut j: usize = 0;
        while j < 48
            invariant
                j <= 48,
                t@.len() > 48,
                k@ == t@.take(j as int),
            decreases 48 - j,
        {
            k.push(t[j]);
            j = j + 1;
            proof {
                assert(k@ =~= t@.take(j as int));
            }
        }
        string_of(k.as_slice())
    } else {
        string_of(t.as_slice())
    }
}

/// A name character as it stands in the exchange file's name: ASCII letters
/// and digits stay, everything else becomes a hyphen.
pub open spec fn xml_name_char(c: char) -> char {
    if is_ascii_alnum(c) {
        c
    } else {
        '-'
    }
}

/// The name of the exchange file for a show called `name`: the mapped name
/// with hyphens trimmed from both ends, then `.pfx.xml`.
pub open spec fn xml_file_name_spec(name: Seq<char>) -> Seq<char> {
    trim_char(name.map_values(|c: char| xml_name_char(c)), '-') + ".pfx.xml"@
}

/// The file name under which the exchange file of a show called `name` is
/// handed out.
pub fn xml_file_name(name: &str) -> (r: String)
    ensures
        r@ == xml_file_name_spec(name@),
{
    let cs = chars_of(name);
    let mut mapped: Vec<char> = Vec::new();
    let mut i: usize = 0;
    while i < cs.len()
        invariant
            i <= cs@.len(),
            cs@ == name@,
            mapped@ == cs@.take(i as int).map_values(|c: char| xml_name_char(c)),
        decreases cs@.len() - i,
    {
        let c = cs[i];
        if is_alnum_char(c) {
            mapped.push(c);
        } else {
            mapped.push('-');
        }
        i = i + 1;
        proof {
            assert(mapped@ =~= cs@.take(i as int).map_values(|c: char| xml_name_char(c)));
        }
    }
    proof {
        assert(cs@.take(i as int) =~= cs@);
    }
    let stem = trim_char_vec(mapped.as_slice(), '-');
    let mut out = string_of(stem.as_slice());
    push_str(&mut out, ".pfx.xml");
    out
}

/// Safe in a file name on any platform.
pub open spec fn file_safe(c: char) -> bool {
    ('a' <= c && c <= 'z') || ('0' <= c && c <= '9') || c == '-'
}

proof fn lemma_collapse_safe(s: Seq<char>)
    requires
        forall|i: int| 0 <= i < s.len() ==> file_safe(#[trigger] s[i]),
    ensures
        forall|i: int| 0 <= i < collapse_hyphens(s).len() ==> file_safe(#[trigger] collapse_hyphens(s)[i]),
    decreases s.len(),
{
    if s.len() > 0 {
        let d = s.drop_last();
        assert forall|i: int| 0 <= i < d.len() implies file_safe(#[trigger] d[i]) by {
            assert(d[i] == s[i]);
        }
        lemma_collapse_safe(d);
        let p = collapse_hyphens(d);
        assert(file_safe(s.last()));
        if !(s.last() == '-' && p.len() > 0 && p.last() == '-') {
            assert forall|i: int| 0 <= i < p.push(s.last()).len() implies file_safe(
                #[trigger] p.push(s.last())[i],
            ) by {
                if i < p.len() {
                    assert(p.push(s.last())[i] == p[i]);
                }
            }
        }
    }
}

proof fn lemma_run_bounds(s: Seq<char>, c: char)
    ensures
        lead_run(s, c) <= s.len(),
        trail_run(s, c) <= s.len(),
    decreases s.len(),
{
    if s.len() > 0 {
        lemma_run_bounds(s.drop_first(), c);
        lemma_run_bounds(s.drop_last(), c);
    }
}

/// A slug is never empty, at most 48 characters, and made only of lower-case
/// ASCII letters, digits and hyphens, so no path separator, drive colon or
/// other reserved character can reach a file name through it.
pub proof fn law_slugs_are_filesystem_safe(s: Seq<char>)
    ensures
        0 < slug_spec(s).len() <= 48,
        forall|i: int| 0 <= i < slug_spec(s).len() ==> file_safe(#[trigger] slug_spec(s)[i]),
{
    let m = s.map_values(|c: char| slug_char(c));
    assert forall|i: int| 0 <= i < m.len() implies file_safe(#[trigger] m[i]) by {
        let c = s[i];
        assert(m[i] == slug_char(c));
        if is_ascii_alnum(c) {
            assert(('a' <= lower(c) && lower(c) <= 'z') || ('0' <= lower(c) && lower(c) <= '9')) by {
                if 'A' <= c && c <= 'Z' {
                    assert(((c as u32) + 32) as char as u32 == (c as u32) + 32);
                }
            }
        }
    }
    lemma_collapse_safe(m);
    let k = collapse_hyphens(m);
    let t = trim_char(k, '-');
    let u = k.skip(lead_run(k, '-') as int);
    lemma_run_bounds(k, '-');
    lemma_run_bounds(u, '-');
    assert forall|i: int| 0 <= i < t.len() implies file_safe(#[trigger] t[i]) by {
        assert(t[i] == u[i]);
        assert(u[i] == k[i + lead_run(k, '-')]);
    }
    reveal_strlit("show");
}

} // verus!
