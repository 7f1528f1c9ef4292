//! The error record kind: a key parsed out of a pipe-delimited text blob and
//! the error message filed under it.
//!
//! The key pattern: an opening pipe, at least one character none of which is
//! a line feed, a closing pipe, optional whitespace, then a run of decimal
//! digits. The leftmost position where the pattern can start wins; for that
//! start, the rightmost workable closing pipe wins; the digit run after it is
//! the key. Text without any such match yields key zero, never a failure.

use vstd::prelude::*;

use crate::digits::digits_value;
use crate::digits::is_ascii_digit;
use crate::digits::lemma_digits_value_prefix;
use crate::extract::FromXmlEvents;
use crate::text::is_whitespace;
use crate::text::is_whitespace_char;
use crate::text::str_eq;

verus! {

/// An extracted error record.
#[derive(Debug)]
pub struct RecordError {
    /// The key dug out of the raw record-id blob; zero when the pattern is
    /// absent or its digits overflow.
    pub record_id: usize,
    /// The error message text.
    pub error_text: String,
}

/// The model of an error record: its key and message as plain values.
pub struct RecordErrorV {
    /// The key.
    pub record_id: usize,
    /// The message.
    pub error_text: Seq<char>,
}

impl View for RecordError {
    type V = RecordErrorV;

    open spec fn view(&self) -> RecordErrorV {
        RecordErrorV { record_id: self.record_id, error_text: self.error_text@ }
    }
}

impl Clone for RecordError {
    /// An exact copy, field by field.
    fn clone(&self) -> (r: Self)
        ensures
            r == *self,
    {
        RecordError { record_id: self.record_id, error_text: self.error_text.clone() }
    }
}

impl PartialEq for RecordError {
    /// Records compare by key alone, deliberately coarser than structural
    /// equality.
    fn eq(&self, other: &Self) -> (r: bool) {
        self.record_id == other.record_id
    }
}

impl vstd::std_specs::cmp::PartialEqSpecImpl for RecordError {
    open spec fn obeys_eq_spec() -> bool {
        true
    }

    open spec fn eq_spec(&self, other: &Self) -> bool {
        self.record_id == other.record_id
    }
}

impl PartialOrd for RecordError {
    /// Records order by key alone.
    fn partial_cmp(&self, other: &Self) -> (r: Option<core::cmp::Ordering>) {
        if self.record_id < other.record_id {
            Some(core::cmp::Ordering::Less)
        } else if self.record_id == other.record_id {
            Some(core::cmp::Ordering::Equal)
        } else {
            Some(core::cmp::Ordering::Greater)
        }
    }
}

impl vstd::std_specs::cmp::PartialOrdSpecImpl for RecordError {
    open spec fn obeys_partial_cmp_spec() -> bool {
        true
    }

    open spec fn partial_cmp_spec(&self, other: &Self) -> Option<core::cmp::Ordering> {
        if self.record_id < other.record_id {
            Some(core::cmp::Ordering::Less)
        } else if self.record_id == other.record_id {
            Some(core::cmp::Ordering::Equal)
        } else {
            Some(core::cmp::Ordering::Greater)
        }
    }
}

impl Default for RecordError {
    /// The untouched record: key zero and an empty message.
    fn default() -> (r: Self)
        ensures
            r@ == RecordError::spec_default(),
    {
        RecordError { record_id: 0, error_text: String::new() }
    }
}

/// Scans from `p`, skipping whitespace: the position of the first ASCII
/// digit, if only whitespace stands before it, else nothing.
pub open spec fn first_digit_from(s: Seq<char>, p: int) -> Option<int>
    decreases s.len() - p,
{
    if p >= s.len() {
        None
    } else if is_ascii_digit(s[p]) {
        Some(p)
    } else if is_whitespace(s[p]) {
        first_digit_from(s, p + 1)
    } else {
        None
    }
}

/// Whether pipes at `i` and `j` frame the key pattern's delimited segment:
/// at least one character between them and no line feed among those.
pub open spec fn pipe_pair(s: Seq<char>, i: int, j: int) -> bool {
    &&& 0 <= i
    &&& i + 2 <= j < s.len()
    &&& s[i] == '|'
    &&& s[j] == '|'
    &&& forall|m: int| i < m < j ==> s[m] != '\n'
}

/// Whether the key pattern matches with its pipes at `i` and `j`.
pub open spec fn match_at(s: Seq<char>, i: int, j: int) -> bool {
    pipe_pair(s, i, j) && first_digit_from(s, j + 1) is Some
}

/// Whether the key pattern matches starting at `i`.
pub open spec fn match_from(s: Seq<char>, i: int) -> bool {
    exists|j: int| match_at(s, i, j)
}

/// Whether the key pattern matches anywhere in `s`.
pub open spec fn has_key_match(s: Seq<char>) -> bool {
    exists|i: int| match_from(s, i)
}

/// The first position at or after `k` holding no ASCII digit.
pub open spec fn digit_run_end(s: Seq<char>, k: int) -> int
    decreases s.len() - k,
{
    if k >= s.len() {
        k
    } else if !is_ascii_digit(s[k]) {
        k
    } else {
        digit_run_end(s, k + 1)
    }
}

/// The key captured by a match whose closing pipe stands at `j`: the digit
/// run after the optional whitespace, read in base ten, with zero standing
/// in for a capture too large for the key type.
pub open spec fn key_value_at(s: Seq<char>, j: int) -> usize {
    match first_digit_from(s, j + 1) {
        Some(k) => {
            let digits = s.subrange(k, digit_run_end(s, k));
            if digits_value(digits) <= usize::MAX {
                digits_value(digits) as usize
            } else {
                0
            }
        },
        None => 0,
    }
}

/// The key the pattern extracts from `s`: the leftmost match start wins, and
/// for it the rightmost workable closing pipe; no match at all yields zero.
pub open spec fn spec_parse_record_id(s: Seq<char>) -> usize {
    if has_key_match(s) {
        let i = choose|i: int|
            match_from(s, i) && (forall|i2: int| 0 <= i2 < i ==> !match_from(s, i2));
        let j = choose|j: int|
            match_at(s, i, j) && (forall|j2: int| j < j2 ==> !match_at(s, i, j2));
        key_value_at(s, j)
    } else {
        0
    }
}

/// Scans from `p` over whitespace for the first digit, as the spec does.
fn first_digit_exec(s: &str, p: usize, n: usize) -> (r: Option<usize>)
    requires
        n == s@.len(),
        p <= n,
    ensures
        match r {
            Some(k) => first_digit_from(s@, p as int) == Some(k as int) && p <= k < n
                && is_ascii_digit(s@[k as int]),
            None => first_digit_from(s@, p as int) is None,
        },
{
    let mut q: usize = p;
    while q < n
        invariant
            n == s@.len(),
            p <= q <= n,
            first_digit_from(s@, p as int) == first_digit_from(s@, q as int),
        decreases n - q,
    {
        let c = s.get_char(q);
        let u = c as u32;
        if 0x30 <= u && u <= 0x39 {
            return Some(q);
        }
        if !is_whitespace_char(c) {
            return None;
        }
        q = q + 1;
    }
    None
}

/// The value of the digit run starting at `k`, or zero if it overflows.
fn digit_run_value(s: &str, k: usize, n: usize) -> (r: usize)
    requires
        n == s@.len(),
        k < n,
        is_ascii_digit(s@[k as int]),
    ensures
        ({
            let digits = s@.subrange(k as int, digit_run_end(s@, k as int));
            r == (if digits_value(digits) <= usize::MAX {
                digits_value(digits) as usize
            } else {
                0
            })
        }),
{
    let ghost e = digit_run_end(s@, k as int);
    let mut q: usize = k;
    let mut acc: usize = 0;
    while q < n
        invariant
            n == s@.len(),
            k <= q <= n,
            e == digit_run_end(s@, k as int),
            digit_run_end(s@, q as int) == e,
            forall|m: int| k <= m < q ==> is_ascii_digit(#[trigger] s@[m]),
            acc == digits_value(s@.subrange(k as int, q as int)),
            digits_value(s@.subrange(k as int, q as int)) <= usize::MAX,
        decreases n - q,
    {
        let c = s.get_char(q);
        let u = c as u32;
        if u < 0x30 || u > 0x39 {
            proof {
                assert(digit_run_end(s@, q as int) == q);
                assert(s@.subrange(k as int, e) =~= s@.subrange(k as int, q as int));
            }
            return acc;
        }
        let d: usize = (u - 0x30) as usize;
        proof {
            assert(is_ascii_digit(s@[q as int]));
            assert(digit_run_end(s@, q as int) == digit_run_end(s@, q as int + 1));
            let sub2 = s@.subrange(k as int, q as int + 1);
            assert(sub2.drop_last() =~= s@.subrange(k as int, q as int));
            assert(sub2.last() == s@[q as int]);
        }
        if acc > (usize::MAX - d) / 10 {
            proof {
                assert(acc * 10 + d > usize::MAX) by (nonlinear_arith)
                    requires
                        acc > (usize::MAX - d) / 10,
                        d <= 9,
                ;
                let full = s@.subrange(k as int, e);
                assert(q < e <= n) by {
                    assert(digit_run_end(s@, q as int) == digit_run_end(s@, q as int + 1));
                    lemma_digit_run_end_bounds(s@, q as int + 1);
                    assert(digit_run_end(s@, q as int + 1) >= q + 1);
                };
                assert(full.take(q - k + 1) =~= s@.subrange(k as int, q as int + 1));
                assert(digits_value(s@.subrange(k as int, q as int + 1)) == acc * 10 + d);
                lemma_digits_value_prefix(full, q - k + 1);
            }
            return 0;
        }
        proof {
            assert(acc * 10 + d <= usize::MAX) by (nonlinear_arith)
                requires
                    acc <= (usize::MAX - d) / 10,
                    d <= 9,
            ;
        }
        acc = acc * 10 + d;
        q = q + 1;
    }
    proof {
        assert(digit_run_end(s@, n as int) == n);
        assert(s@.subrange(k as int, e) =~= s@.subrange(k as int, n as int));
    }
    acc
}

/// The run end never comes before its start and never after the text's end.
proof fn lemma_digit_run_end_bounds(s: Seq<char>, k: int)
    requires
        k <= s.len(),
    ensures
        k <= digit_run_end(s, k) <= s.len(),
    decreases s.len() - k,
{
    if k >= s.len() {
    } else if !is_ascii_digit(s[k]) {
    } else {
        lemma_digit_run_end_bounds(s, k + 1);
    }
}

/// A match with a leftmost start and, for it, a rightmost closing pipe pins
/// the extracted key down to that match's capture.
proof fn lemma_match_pins(s: Seq<char>, i: int, j: int)
    requires
        match_at(s, i, j),
        forall|i2: int| 0 <= i2 < i ==> !match_from(s, i2),
        forall|j2: int| j < j2 ==> !match_at(s, i, j2),
    ensures
        has_key_match(s),
        spec_parse_record_id(s) == key_value_at(s, j),
{
    assert(match_from(s, i));
    assert(has_key_match(s));
    let ci = choose|c: int| match_from(s, c) && (forall|i2: int| 0 <= i2 < c ==> !match_from(s, i2));
    assert(match_from(s, i) && (forall|i2: int| 0 <= i2 < i ==> !match_from(s, i2)));
    assert(ci == i) by {
        if ci < i {
            assert(!match_from(s, ci));
        }
        if ci > i {
            assert(!match_from(s, i));
        }
    }
    let cj = choose|c: int|
        match_at(s, i, c) && (forall|j2: int| c < j2 ==> !match_at(s, i, j2));
    assert(match_at(s, i, j) && (forall|j2: int| j < j2 ==> !match_at(s, i, j2)));
    assert(cj == j) by {
        if cj < j {
            assert(!match_at(s, i, j));
        }
        if cj > j {
            assert(!match_at(s, i, cj));
        }
    }
}

/// Digs the key out of a raw pipe-delimited blob. Text the pattern does not
/// match anywhere yields zero rather than a failure, a deliberate tolerance.
pub fn parse_record_id(s: &str) -> (r: usize)
    ensures
        r == spec_parse_record_id(s@),
        !has_key_match(s@) ==> r == 0,
{
    let n: usize = s.unicode_len();
    let mut i: usize = 0;
    while i < n
        invariant
            n == s@.len(),
            i <= n,
            forall|i2: int| 0 <= i2 < i ==> !match_from(s@, i2),
        decreases n - i,
    {
        if s.get_char(i) == '|' {
            // the region the delimited segment may span: up to the first
            // line feed after the opening pipe
            let mut limit: usize = i + 1;
            while limit < n && s.get_char(limit) != '\n'
                invariant
                    n == s@.len(),
                    i + 1 <= limit <= n,
                    forall|m: int| i < m < limit ==> s@[m] != '\n',
                decreases n - limit,
            {
                limit = limit + 1;
            }
            proof {
                assert forall|j2: int| limit <= j2 implies !match_at(s@, i as int, j2) by {
                    if j2 < s@.len() && limit < j2 {
                        assert(s@[limit as int] == '\n');
                    }
                }
            }
            // the rightmost workable closing pipe wins
            let mut jj: usize = limit;
            while jj - i > 2
                invariant_except_break
                    n == s@.len(),
                    i + 1 <= jj <= limit <= n,
                    i < n,
                    s@[i as int] == '|',
                    forall|i2: int| 0 <= i2 < i ==> !match_from(s@, i2),
                    forall|m: int| i < m < limit ==> s@[m] != '\n',
                    forall|j2: int| jj <= j2 ==> !match_at(s@, i as int, j2),
                ensures
                    forall|j2: int| !match_at(s@, i as int, j2),
                decreases jj,
            {
                let j = jj - 1;
                if s.get_char(j) == '|' {
                    match first_digit_exec(s, j + 1, n) {
                        Some(k) => {
                            // the leftmost start and its rightmost closing
                            // pipe are pinned down; the capture decides
                            let v = digit_run_value(s, k, n);
                            proof {
                                assert(match_at(s@, i as int, j as int));
                                lemma_match_pins(s@, i as int, j as int);
                                assert(key_value_at(s@, j as int) == v);
                            }
                            return v;
                        },
                        None => {
                            proof {
                                assert(!match_at(s@, i as int, j as int));
                            }
                        },
                    }
                } else {
                    proof {
                        assert(!match_at(s@, i as int, j as int));
                    }
                }
                jj = j;
            }
            proof {
                assert forall|j2: int| !match_at(s@, i as int, j2) by {}
                assert(!match_from(s@, i as int));
            }
        } else {
            proof {
                assert forall|j2: int| !match_at(s@, i as int, j2) by {}
                assert(!match_from(s@, i as int));
            }
        }
        i = i + 1;
    }
    proof {
        assert(!has_key_match(s@)) by {
            if has_key_match(s@) {
                let w = choose|w: int| match_from(s@, w);
                assert(match_from(s@, w));
                let j = choose|j: int| match_at(s@, w, j);
                assert(0 <= w < s@.len());
            }
        }
    }
    0
}

/// The recognized element names of an error record.
#[derive(Debug, Clone, Copy, PartialEq, Eq, Structural)]
pub enum RecordErrorFieldType {
    /// The key element, holding the pipe-delimited blob.
    RecordId,
    /// The error message element.
    ErrorText,
}

impl RecordErrorFieldType {
    /// The field identifier a raw element name stands for, if any.
    pub open spec fn spec_try_from(name: Seq<char>) -> Option<RecordErrorFieldType> {
        if name == "UniqueRecordId"@ {
            Some(RecordErrorFieldType::RecordId)
        } else if name == "ns2:ErrorMessageTxt"@ {
            Some(RecordErrorFieldType::ErrorText)
        } else {
            None
        }
    }

    /// Classifies a raw element name by exact, case-sensitive match; every
    /// other name is irrelevant noise and classifies to nothing.
    pub fn try_from(name: &str) -> (r: Option<RecordErrorFieldType>)
        ensures
            r == RecordErrorFieldType::spec_try_from(name@),
    {
        if str_eq(name, "UniqueRecordId") {
            Some(RecordErrorFieldType::RecordId)
        } else if str_eq(name, "ns2:ErrorMessageTxt") {
            Some(RecordErrorFieldType::ErrorText)
        } else {
            None
        }
    }
}

impl FromXmlEvents for RecordError {
    type FieldType = RecordErrorFieldType;

    open spec fn spec_default() -> RecordErrorV {
        RecordErrorV { record_id: 0, error_text: Seq::empty() }
    }

    open spec fn spec_classify(name: Seq<char>) -> Option<RecordErrorFieldType> {
        RecordErrorFieldType::spec_try_from(name)
    }

    /// The key slot digs the key out of the blob by the pipe pattern; the
    /// message slot stores the text itself.
    open spec fn spec_insert(
        v: RecordErrorV,
        f: RecordErrorFieldType,
        text: Seq<char>,
    ) -> RecordErrorV {
        match f {
            RecordErrorFieldType::RecordId => RecordErrorV {
                record_id: spec_parse_record_id(text),
                ..v
            },
            RecordErrorFieldType::ErrorText => RecordErrorV { error_text: text, ..v },
        }
    }

    open spec fn spec_is_last(f: RecordErrorFieldType) -> bool {
        f == RecordErrorFieldType::ErrorText
    }

    fn default_record() -> (r: Self) {
        RecordError { record_id: 0, error_text: String::new() }
    }

    fn classify(name: &str) -> (r: Option<RecordErrorFieldType>) {
        RecordErrorFieldType::try_from(name)
    }

    fn insert_xml_value(&mut self, f: RecordErrorFieldType, text: &str) {
        match f {
            RecordErrorFieldType::RecordId => {
                self.record_id = parse_record_id(text);
            },
            RecordErrorFieldType::ErrorText => {
                self.error_text = String::from_str(text);
            },
        }
    }

    fn is_last_field(f: RecordErrorFieldType) -> (r: bool) {
        matches!(f, RecordErrorFieldType::ErrorText)
    }
}

} // verus!
