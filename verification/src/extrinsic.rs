//! The input of a station extrinsic calibration: a text file of
//! corresponding points, one per line, as six comma-separated values
//! (sensor x, y, z, then station x, y, z). Blank lines and lines starting
//! with `#` are skipped. The values themselves are numbers read by the
//! application.

use vstd::prelude::*;

use crate::text::{chars_of, push_decimal, spec_decimal, spec_trim, string_from_chars, trim_chars};

verus! {

/// The number of values on a line of corresponding points.
pub const CORRESPONDENCE_FIELDS: usize = 6;

/// `s` cut at every `sep`: the pieces between separators, in order, empty
/// ones included; there is always one more piece than separators.
pub open spec fn spec_split(s: Seq<char>, sep: char) -> Seq<Seq<char>>
    decreases s.len(),
{
    if s.len() == 0 {
        seq![Seq::empty()]
    } else {
        let before = spec_split(s.drop_last(), sep);
        if s.last() == sep {
            before.push(Seq::empty())
        } else {
            before.update(before.len() - 1, before.last().push(s.last()))
        }
    }
}

proof fn lemma_split_not_empty(s: Seq<char>, sep: char)
    ensures
        spec_split(s, sep).len() >= 1,
    decreases s.len(),
{
    if s.len() > 0 {
        lemma_split_not_empty(s.drop_last(), sep);
    }
}

/// The pieces of `s` between commas, each without its surrounding white
/// space.
pub open spec fn spec_fields(s: Seq<char>) -> Seq<Seq<char>> {
    spec_split(s, ',').map_values(|f: Seq<char>| spec_trim(f))
}

/// What a line of the file holds.
#[derive(Debug, Clone, PartialEq, Eq)]
pub enum CorrespondenceLine {
    /// A blank line or a comment.
    Skip,
    /// The six value texts, trimmed, in order.
    Values(Vec<String>),
    /// A line with another number of values, and the message that says so.
    Refused(String),
}

/// Whether a trimmed line is skipped: it is empty or a comment.
pub open spec fn spec_is_skipped(t: Seq<char>) -> bool {
    t.len() == 0 || t[0] == '#'
}

/// The message for line `line_number` that holds `count` values.
pub open spec fn spec_count_message(line_number: nat, count: nat) -> Seq<char> {
    "line "@ + spec_decimal(line_number) + ": expected 6 comma-separated values, got "@ + spec_decimal(count)
}

/// The pieces of `s` between `sep`, as character vectors.
fn split_chars(s: &Vec<char>, sep: char) -> (r: Vec<Vec<char>>)
    ensures
        r@.len() == spec_split(s@, sep).len(),
        forall|k: int| 0 <= k < r@.len() ==> #[trigger] r@[k]@ == spec_split(s@, sep)[k],
{
    let mut done: Vec<Vec<char>> = Vec::new();
    let mut current: Vec<char> = Vec::new();
    let mut i: usize = 0;
    while i < s.len()
        invariant
            i <= s.len(),
            done@.len() + 1 == spec_split(s@.take(i as int), sep).len(),
            forall|k: int| 0 <= k < done@.len() ==> #[trigger] done@[k]@ == spec_split(s@.take(i as int), sep)[k],
            current@ == spec_split(s@.take(i as int), sep).last(),
        decreases s.len() - i,
    {
        proof {
            lemma_split_not_empty(s@.take(i as int), sep);
            assert(s@.take(i as int + 1).drop_last() =~= s@.take(i as int));
            assert(s@.take(i as int + 1).last() == s@[i as int]);
        }
        let c = s[i];
        if c == sep {
            let finished = current;
            done.push(finished);
            current = Vec::new();
            assert(current@ =~= Seq::<char>::empty());
        } else {
            current.push(c);
        }
        i = i + 1;
    }
    assert(s@.take(s.len() as int) =~= s@);
    done.push(current);
    done
}

/// Reads line `line_number` (counted from one) of a corresponding-points
/// file: blank and comment lines are skipped, a line of six values gives
/// their trimmed texts, and any other count is refused with a message that
/// names the line and the count.
pub fn read_correspondence_line(line: &str, line_number: u64) -> (r: CorrespondenceLine)
    ensures
        spec_is_skipped(spec_trim(line@)) ==> r == CorrespondenceLine::Skip,
        !spec_is_skipped(spec_trim(line@)) && spec_fields(spec_trim(line@)).len() == CORRESPONDENCE_FIELDS ==> (
        r matches CorrespondenceLine::Values(v) && v@.len() == CORRESPONDENCE_FIELDS && forall|k: int|
            0 <= k < v@.len() ==> #[trigger] v@[k]@ == spec_fields(spec_trim(line@))[k]),
        !spec_is_skipped(spec_trim(line@)) && spec_fields(spec_trim(line@)).len() != CORRESPONDENCE_FIELDS ==> (
        r matches CorrespondenceLine::Refused(m) && m@ == spec_count_message(
            line_number as nat,
            spec_fields(spec_trim(line@)).len(),
        )),
{
    let trimmed = trim_chars(&chars_of(line));
    if trimmed.len() == 0 || trimmed[0] == '#' {
        return CorrespondenceLine::Skip;
    }
    let pieces = split_chars(&trimmed, ',');
    let ghost fields = spec_fields(trimmed@);
    assert(fields.len() == pieces@.len());
    if pieces.len() != CORRESPONDENCE_FIELDS {
        let mut m = String::from_str("line ");
        push_decimal(&mut m, line_number);
        m = m.concat(": expected 6 comma-separated values, got ");
        push_decimal(&mut m, pieces.len() as u64);
        return CorrespondenceLine::Refused(m);
    }
    let mut values: Vec<String> = Vec::new();
    let mut k: usize = 0;
    while k < pieces.len()
        invariant
            k <= pieces@.len(),
            fields.len() == pieces@.len(),
            fields == spec_fields(trimmed@),
            forall|j: int| 0 <= j < pieces@.len() ==> #[trigger] pieces@[j]@ == spec_split(trimmed@, ',')[j],
            values@.len() == k,
            forall|j: int| 0 <= j < k ==> #[trigger] values@[j]@ == fields[j],
        decreases pieces.len() - k,
    {
        let t = trim_chars(&pieces[k]);
        values.push(string_from_chars(&t));
        k = k + 1;
    }
    CorrespondenceLine::Values(values)
}

} // verus!
