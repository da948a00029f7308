//! Normalisation of the text fields of a todo.

use vstd::prelude::*;

verus! {

/// A character with the Unicode property White_Space.
pub open spec fn is_space(c: char) -> bool {
    let u = c as u32;
    (9 <= u && u <= 13) || u == 32 || u == 0x85 || u == 0xA0 || u == 0x1680 || (0x2000 <= u && u
        <= 0x200A) || u == 0x2028 || u == 0x2029 || u == 0x202F || u == 0x205F || u == 0x3000
}

/// The text without its leading white space.
pub open spec fn trim_start_of(s: Seq<char>) -> Seq<char>
    decreases s.len(),
{
    if s.len() > 0 && is_space(s[0]) {
        trim_start_of(s.drop_first())
    } else {
        s
    }
}

/// The text without its trailing white space.
pub open spec fn trim_end_of(s: Seq<char>) -> Seq<char>
    decreases s.len(),
{
    if s.len() > 0 && is_space(s.last()) {
        trim_end_of(s.drop_last())
    } else {
        s
    }
}

/// The text without its leading and trailing white space.
pub open spec fn trim_of(s: Seq<char>) -> Seq<char> {
    trim_end_of(trim_start_of(s))
}

/// A text is blank when nothing is left of it once trimmed.
pub open spec fn is_blank(s: Seq<char>) -> bool {
    trim_of(s).len() == 0
}

/// A text that trimming leaves as it is.
pub open spec fn is_trimmed(s: Seq<char>) -> bool {
    trim_of(s) == s
}

proof fn lemma_trim_start_shape(s: Seq<char>)
    ensures
        trim_start_of(s).len() == 0 || !is_space(trim_start_of(s)[0]),
    decreases s.len(),
{
    if s.len() > 0 && is_space(s[0]) {
        lemma_trim_start_shape(s.drop_first());
    }
}

proof fn lemma_trim_end_shape(s: Seq<char>)
    ensures
        trim_end_of(s).len() <= s.len(),
        trim_end_of(s) == s.subrange(0, trim_end_of(s).len() as int),
        trim_end_of(s).len() == 0 || !is_space(trim_end_of(s).last()),
    decreases s.len(),
{
    if s.len() > 0 && is_space(s.last()) {
        lemma_trim_end_shape(s.drop_last());
        let r = trim_end_of(s.drop_last());
        assert(s.drop_last().subrange(0, r.len() as int) =~= s.subrange(0, r.len() as int));
    } else {
        assert(s.subrange(0, s.len() as int) =~= s);
    }
}

/// A text that starts and ends with a character other than white space is
/// trimmed.
pub proof fn lemma_trimmed_when_ends_not_space(s: Seq<char>)
    requires
        s.len() == 0 || (!is_space(s[0]) && !is_space(s.last())),
    ensures
        is_trimmed(s),
{
}

/// Trimming twice gives what trimming once gives.
pub proof fn lemma_trim_idempotent(s: Seq<char>)
    ensures
        is_trimmed(trim_of(s)),
{
    let t = trim_start_of(s);
    lemma_trim_start_shape(s);
    lemma_trim_end_shape(t);
    let r = trim_end_of(t);
    if r.len() > 0 {
        assert(r[0] == t.subrange(0, r.len() as int)[0]);
    }
    lemma_trimmed_when_ends_not_space(r);
}

/// Relies on `str::trim`: leading and trailing white space (the Unicode
/// property White_Space) removed.
#[verifier::external_body]
fn trim_str(s: &str) -> (r: &str)
    ensures
        r@ == trim_of(s@),
{
    s.trim()
}

/// The text trimmed; what is left is trimmed already.
pub fn trim_text(s: &str) -> (r: &str)
    ensures
        r@ == trim_of(s@),
        is_trimmed(r@),
{
    proof {
        lemma_trim_idempotent(s@);
    }
    trim_str(s)
}

/// The canonical recurrence tags.
pub open spec fn tag_none() -> Seq<char> {
    seq!['n', 'o', 'n', 'e']
}

pub open spec fn tag_daily() -> Seq<char> {
    seq!['d', 'a', 'i', 'l', 'y']
}

pub open spec fn tag_bi_weekly() -> Seq<char> {
    seq!['b', 'i', '-', 'w', 'e', 'e', 'k', 'l', 'y']
}

pub open spec fn is_canonical_tag(s: Seq<char>) -> bool {
    s == tag_none() || s == tag_daily() || s == tag_bi_weekly()
}

/// The canonical tag that a trimmed tag stands for: "daily" and
/// "bi-weekly" are kept, anything else is "none".
pub open spec fn tag_for(t: Seq<char>) -> Seq<char> {
    if t == tag_daily() {
        tag_daily()
    } else if t == tag_bi_weekly() {
        tag_bi_weekly()
    } else {
        tag_none()
    }
}

/// The canonical tag that a requested tag stands for, once trimmed; no tag
/// is "none".
pub open spec fn canonical_tag(value: Option<Seq<char>>) -> Seq<char> {
    match value {
        Some(v) => tag_for(trim_of(v)),
        None => tag_none(),
    }
}

/// The due date that a trimmed text stands for: none where it is empty.
pub open spec fn date_for(t: Seq<char>) -> Option<Seq<char>> {
    if t.len() == 0 {
        None
    } else {
        Some(t)
    }
}

/// A due date as it is stored: trimmed, and absent where it is blank.
pub open spec fn normalized_date(value: Option<Seq<char>>) -> Option<Seq<char>> {
    match value {
        Some(v) => date_for(trim_of(v)),
        None => None,
    }
}

/// A canonical tag is kept as it is.
pub proof fn lemma_canonical_tag_kept(t: Seq<char>)
    requires
        is_canonical_tag(t),
    ensures
        canonical_tag(Some(t)) == t,
{
    lemma_trimmed_when_ends_not_space(t);
}

/// A date that starts and ends with a character other than white space is
/// stored as it is.
pub proof fn lemma_date_kept(d: Seq<char>)
    requires
        d.len() > 0,
        !is_space(d[0]),
        !is_space(d.last()),
    ensures
        normalized_date(Some(d)) == Some(d),
{
    lemma_trimmed_when_ends_not_space(d);
}

/// Normalising a stored due date again changes nothing.
pub proof fn lemma_normalized_date_idempotent(value: Option<Seq<char>>)
    ensures
        normalized_date(normalized_date(value)) == normalized_date(value),
{
    if let Some(v) = value {
        lemma_trim_idempotent(v);
    }
}

pub open spec fn opt_view(v: Option<String>) -> Option<Seq<char>> {
    match v {
        Some(s) => Some(s@),
        None => None,
    }
}

/// The due date that an already trimmed text stands for.
pub fn date_from_trimmed(t: &str) -> (r: Option<String>)
    ensures
        opt_view(r) == date_for(t@),
{
    if t.is_empty() {
        None
    } else {
        Some(t.to_owned())
    }
}

pub fn normalize_date(value: Option<String>) -> (r: Option<String>)
    ensures
        opt_view(r) == normalized_date(opt_view(value)),
        r matches Some(d) ==> is_trimmed(d@) && !is_blank(d@),
{
    match value {
        Some(candidate) => date_from_trimmed(trim_text(candidate.as_str())),
        None => None,
    }
}

/// The canonical tag that an already trimmed tag stands for.
pub fn tag_from_trimmed(t: &str) -> (r: String)
    ensures
        r@ == tag_for(t@),
        is_canonical_tag(r@),
{
    proof {
        reveal_strlit("none");
        reveal_strlit("daily");
        reveal_strlit("bi-weekly");
        assert("none"@ =~= tag_none());
        assert("daily"@ =~= tag_daily());
        assert("bi-weekly"@ =~= tag_bi_weekly());
    }
    let given = t.to_owned();
    let daily = "daily".to_owned();
    let bi_weekly = "bi-weekly".to_owned();
    if given == daily {
        daily
    } else if given == bi_weekly {
        bi_weekly
    } else {
        "none".to_owned()
    }
}

pub fn normalize_recurrence_tag(value: Option<String>) -> (r: String)
    ensures
        r@ == canonical_tag(opt_view(value)),
        is_canonical_tag(r@),
{
    match value {
        Some(v) => tag_from_trimmed(trim_text(v.as_str())),
        None => {
            proof {
                reveal_strlit("none");
                assert("none"@ =~= tag_none());
            }
            "none".to_owned()
        },
    }
}

/// The integer a flag is stored as.
pub fn to_db_bool(value: bool) -> (r: i64)
    ensures
        r == (if value { 1int } else { 0int }),
{
    if value {
        1
    } else {
        0
    }
}

} // verus!
