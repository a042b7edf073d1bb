//! Name normalisation: arbitrary text to a lower-case, dash-joined slug.

use vstd::prelude::*;
use crate::text::{
    ascii_lower, chars_of, is_alnum, is_ascii_alnum, lemma_replaced_absent,
    lemma_strip_leading, lemma_strip_trailing, occurs_in, replace_all, replaced, starts_with,
    string_of_range, strip_leading, to_ascii_lower, trim_bounds, trimmed,
};

verus! {

/// The scan before trimming: letters and digits in lower case, every run of
/// other characters as one dash.
pub open spec fn raw_slug(s: Seq<char>) -> Seq<char>
    decreases s.len(),
{
    if s.len() == 0 {
        s
    } else {
        let head = raw_slug(s.drop_last());
        let c = s.last();
        if is_ascii_alnum(c) {
            head.push(ascii_lower(c))
        } else if head.len() > 0 && head.last() == '-' {
            head
        } else {
            head.push('-')
        }
    }
}

/// The slug of a text: its scan without the dashes at either end.
pub open spec fn slug(s: Seq<char>) -> Seq<char> {
    trimmed(raw_slug(s), '-')
}

/// The characters a slug is made of.
pub open spec fn is_slug_char(c: char) -> bool {
    ('a' <= c && c <= 'z') || ('0' <= c && c <= '9') || c == '-'
}

/// No two neighbouring characters of `s` are both dashes.
pub open spec fn no_double_dash(s: Seq<char>) -> bool {
    forall|i: int| 0 <= i < s.len() - 1 ==> !(#[trigger] s[i] == '-' && s[i + 1] == '-')
}

/// A well-formed slug: lower-case letters, digits and dashes, no dash at
/// either end and no two dashes in a row. The empty text is a slug.
pub open spec fn is_slug(s: Seq<char>) -> bool {
    &&& forall|i: int| 0 <= i < s.len() ==> is_slug_char(#[trigger] s[i])
    &&& no_double_dash(s)
    &&& s.len() > 0 ==> s[0] != '-' && s.last() != '-'
}

/// The text `--`.
pub open spec fn double_dash() -> Seq<char> {
    seq!['-', '-']
}

/// The text `-`.
pub open spec fn single_dash() -> Seq<char> {
    seq!['-']
}

/// The flag of a parameter name: its slug with each `--` collapsed to `-`.
pub open spec fn flag_slug(s: Seq<char>) -> Seq<char> {
    replaced(slug(s), double_dash(), single_dash())
}

/// The scan emits slug characters only and never two dashes in a row.
pub proof fn lemma_raw_slug(s: Seq<char>)
    ensures
        forall|i: int| 0 <= i < raw_slug(s).len() ==> is_slug_char(#[trigger] raw_slug(s)[i]),
        no_double_dash(raw_slug(s)),
    decreases s.len(),
{
    if s.len() > 0 {
        lemma_raw_slug(s.drop_last());
    }
}

/// Every text has a slug, and it is well formed.
pub proof fn lemma_slug_well_formed(s: Seq<char>)
    ensures
        is_slug(slug(s)),
{
    let raw = raw_slug(s);
    lemma_raw_slug(s);
    lemma_strip_leading(raw, '-');
    let mid = strip_leading(raw, '-');
    lemma_strip_trailing(mid, '-');
    let out = slug(s);
    let k = raw.len() - mid.len();
    assert forall|i: int| 0 <= i < out.len() implies is_slug_char(#[trigger] out[i]) by {
        assert(out[i] == raw[k + i]);
    }
    assert forall|i: int| 0 <= i < out.len() - 1 implies !(#[trigger] out[i] == '-' && out[i + 1]
        == '-') by {
        assert(out[i] == raw[k + i]);
        assert(out[i + 1] == raw[k + i + 1]);
    }
    if out.len() > 0 {
        assert(out[0] == mid[0]);
    }
}

/// A text without two dashes in a row holds no `--`.
pub proof fn lemma_no_double_dash_absent(s: Seq<char>)
    requires
        no_double_dash(s),
    ensures
        !occurs_in(s, double_dash()),
{
    assert forall|i: int| 0 <= i <= s.len() implies !#[trigger] starts_with(
        s.skip(i),
        double_dash(),
    ) by {
        let rest = s.skip(i);
        if starts_with(rest, double_dash()) {
            assert(rest.take(2)[0] == '-' && rest.take(2)[1] == '-');
            assert(s[i] == '-' && s[i + 1] == '-');
        }
    }
}

/// Collapsing double dashes never changes a slug: a flag is the slug of its name.
pub proof fn lemma_flag_is_slug(s: Seq<char>)
    ensures
        flag_slug(s) == slug(s),
        is_slug(flag_slug(s)),
{
    lemma_slug_well_formed(s);
    lemma_no_double_dash_absent(slug(s));
    lemma_replaced_absent(slug(s), double_dash(), single_dash());
}

/// Normalises arbitrary text into a slug: ASCII letters and digits are kept
/// in lower case, every run of other characters becomes one dash, and dashes
/// at either end are dropped.
pub fn normalize_name(input: &str) -> (out: String)
    ensures
        out@ == slug(input@),
        is_slug(out@),
{
    let chars = chars_of(input);
    let mut raw: Vec<char> = Vec::new();
    let mut dash = false;
    let mut i: usize = 0;
    assert(chars@.take(0) =~= Seq::<char>::empty());
    while i < chars.len()
        invariant
            i <= chars.len(),
            raw@ == raw_slug(chars@.take(i as int)),
            dash == (raw.len() > 0 && raw@.last() == '-'),
        decreases chars.len() - i,
    {
        let ch = chars[i];
        assert(chars@.take(i + 1).drop_last() =~= chars@.take(i as int));
        if is_alnum(ch) {
            raw.push(to_ascii_lower(ch));
            dash = false;
        } else if !dash {
            raw.push('-');
            dash = true;
        }
        i += 1;
    }
    assert(chars@.take(i as int) =~= chars@);
    let (start, end) = trim_bounds(&raw, '-');
    proof {
        lemma_slug_well_formed(input@);
    }
    string_of_range(&raw, start, end)
}

/// The command-line flag for a parameter name: its slug, with any `--`
/// collapsed to `-`.
pub fn normalize_flag(input: &str) -> (out: String)
    ensures
        out@ == flag_slug(input@),
        out@ == slug(input@),
        is_slug(out@),
{
    let name = normalize_name(input);
    proof {
        reveal_strlit("--");
        reveal_strlit("-");
        assert("--"@ =~= double_dash());
        assert("-"@ =~= single_dash());
        lemma_flag_is_slug(input@);
    }
    replace_all(name.as_str(), "--", "-")
}

} // verus!
