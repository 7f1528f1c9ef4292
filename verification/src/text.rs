//! The text normalizer: collapses every maximal run of whitespace characters
//! in a piece of extracted text to a single ASCII space, and proves that the
//! collapse is idempotent and leaves no two adjacent whitespace characters.

use vstd::prelude::*;

verus! {

/// Relies on `String::push` of std: appends one character at the end of the
/// string, so the new contents are the old contents followed by that character.
pub assume_specification[ String::push ](s: &mut String, ch: char)
    ensures
        final(s)@ == old(s)@.push(ch),
;

/// The whitespace characters the normalizer collapses: the Unicode
/// `White_Space` set (ASCII whitespace, NEL, NBSP, the Unicode space
/// separators, and the line and paragraph separators).
pub open spec fn is_whitespace(c: char) -> bool {
    let u = c as u32;
    ||| u == 0x09
    ||| u == 0x0A
    ||| u == 0x0B
    ||| u == 0x0C
    ||| u == 0x0D
    ||| u == 0x20
    ||| u == 0x85
    ||| u == 0xA0
    ||| u == 0x1680
    ||| (0x2000 <= u && u <= 0x200A)
    ||| u == 0x2028
    ||| u == 0x2029
    ||| u == 0x202F
    ||| u == 0x205F
    ||| u == 0x3000
}

/// Whether `c` is one of the whitespace characters the normalizer collapses.
pub fn is_whitespace_char(c: char) -> (r: bool)
    ensures
        r == is_whitespace(c),
{
    let u = c as u32;
    u == 0x09 || u == 0x0A || u == 0x0B || u == 0x0C || u == 0x0D || u == 0x20 || u == 0x85
        || u == 0xA0 || u == 0x1680 || (0x2000 <= u && u <= 0x200A) || u == 0x2028 || u == 0x2029
        || u == 0x202F || u == 0x205F || u == 0x3000
}

/// The normalized form of `s`, given whether the position just before `s`
/// sits inside a whitespace run whose single space was already emitted.
pub open spec fn normalize_from(s: Seq<char>, in_run: bool) -> Seq<char>
    decreases s.len(),
{
    if s.len() == 0 {
        Seq::empty()
    } else if is_whitespace(s[0]) {
        if in_run {
            normalize_from(s.skip(1), true)
        } else {
            seq![' '] + normalize_from(s.skip(1), true)
        }
    } else {
        seq![s[0]] + normalize_from(s.skip(1), false)
    }
}

/// The normalized form of `s`: every maximal run of whitespace collapsed to
/// one ASCII space; nothing is trimmed at the edges beyond that collapse.
pub open spec fn normalize_text(s: Seq<char>) -> Seq<char> {
    normalize_from(s, false)
}

/// Replaces every maximal run of whitespace characters in `s` by a single
/// ASCII space. Runs touching the edges still leave their one space there.
pub fn remove_excess_whitespace(s: &str) -> (r: String)
    ensures
        r@ == normalize_text(s@),
{
    let n: usize = s.unicode_len();
    let mut out = String::new();
    let mut in_run: bool = false;
    let mut i: usize = 0;
    proof {
        assert(s@.skip(0) =~= s@);
        assert(out@ + normalize_from(s@, false) =~= normalize_from(s@, false));
    }
    while i < n
        invariant
            n == s@.len(),
            i <= n,
            out@ + normalize_from(s@.skip(i as int), in_run) == normalize_text(s@),
        decreases n - i,
    {
        let c = s.get_char(i);
        let ghost old_out = out@;
        let ghost rest = s@.skip(i as int);
        let ghost rest2 = s@.skip(i as int + 1);
        proof {
            assert(rest.len() > 0);
            assert(rest[0] == s@[i as int]);
            assert(rest.skip(1) =~= rest2);
        }
        if is_whitespace_char(c) {
            if !in_run {
                out.push(' ');
                proof {
                    assert(normalize_from(rest, false) == seq![' '] + normalize_from(rest2, true));
                    assert(out@ =~= old_out + seq![' ']);
                    assert((old_out + seq![' ']) + normalize_from(rest2, true) =~= old_out + (seq![
                        ' ',
                    ] + normalize_from(rest2, true)));
                }
            } else {
                proof {
                    assert(normalize_from(rest, true) == normalize_from(rest2, true));
                }
            }
            in_run = true;
        } else {
            out.push(c);
            proof {
                assert(normalize_from(rest, in_run) == seq![c] + normalize_from(rest2, false));
                assert(out@ =~= old_out + seq![c]);
                assert((old_out + seq![c]) + normalize_from(rest2, false) =~= old_out + (seq![c]
                    + normalize_from(rest2, false)));
            }
            in_run = false;
        }
        i = i + 1;
    }
    proof {
        assert(s@.skip(n as int) =~= Seq::<char>::empty());
        assert(out@ + Seq::<char>::empty() =~= out@);
    }
    out
}

/// Shape of normalizer output: every whitespace character in it is the ASCII
/// space, no two adjacent characters are both whitespace, and under an open
/// run the output starts with a non-whitespace character.
pub proof fn lemma_normalize_from_shape(s: Seq<char>, in_run: bool)
    ensures
        forall|i: int|
            0 <= i < normalize_from(s, in_run).len() && is_whitespace(
                #[trigger] normalize_from(s, in_run)[i],
            ) ==> normalize_from(s, in_run)[i] == ' ',
        forall|i: int|
            0 <= i < normalize_from(s, in_run).len() - 1 && is_whitespace(
                #[trigger] normalize_from(s, in_run)[i],
            ) ==> !is_whitespace(normalize_from(s, in_run)[i + 1]),
        in_run && normalize_from(s, in_run).len() > 0 ==> !is_whitespace(
            normalize_from(s, in_run)[0],
        ),
    decreases s.len(),
{
    if s.len() == 0 {
    } else {
        let c = s[0];
        if is_whitespace(c) {
            lemma_normalize_from_shape(s.skip(1), true);
            if !in_run {
                let t = normalize_from(s, false);
                let rest = normalize_from(s.skip(1), true);
                assert(t == seq![' '] + rest);
                assert forall|i: int|
                    0 <= i < t.len() && is_whitespace(#[trigger] t[i]) implies t[i] == ' ' by {
                    if i > 0 {
                        assert(t[i] == rest[i - 1]);
                    }
                }
                assert forall|i: int|
                    0 <= i < t.len() - 1 && is_whitespace(#[trigger] t[i]) implies !is_whitespace(
                    t[i + 1],
                ) by {
                    if i == 0 {
                        assert(t[1] == rest[0]);
                    } else {
                        assert(t[i] == rest[i - 1]);
                        assert(t[i + 1] == rest[i]);
                    }
                }
            }
        } else {
            lemma_normalize_from_shape(s.skip(1), false);
            let t = normalize_from(s, in_run);
            let rest = normalize_from(s.skip(1), false);
            assert(t == seq![c] + rest);
            assert forall|i: int|
                0 <= i < t.len() && is_whitespace(#[trigger] t[i]) implies t[i] == ' ' by {
                if i > 0 {
                    assert(t[i] == rest[i - 1]);
                }
            }
            assert forall|i: int|
                0 <= i < t.len() - 1 && is_whitespace(#[trigger] t[i]) implies !is_whitespace(
                t[i + 1],
            ) by {
                if i > 0 {
                    assert(t[i] == rest[i - 1]);
                    assert(t[i + 1] == rest[i]);
                }
            }
        }
    }
}

/// A sequence already in normal form is left unchanged by the normalizer.
pub proof fn lemma_normalize_fixed(t: Seq<char>, in_run: bool)
    requires
        forall|i: int| 0 <= i < t.len() && is_whitespace(#[trigger] t[i]) ==> t[i] == ' ',
        forall|i: int|
            0 <= i < t.len() - 1 && is_whitespace(#[trigger] t[i]) ==> !is_whitespace(t[i + 1]),
        in_run && t.len() > 0 ==> !is_whitespace(t[0]),
    ensures
        normalize_from(t, in_run) == t,
    decreases t.len(),
{
    if t.len() == 0 {
        assert(normalize_from(t, in_run) =~= t);
    } else {
        let c = t[0];
        let rest = t.skip(1);
        assert(forall|i: int| 0 <= i < rest.len() ==> rest[i] == t[i + 1]);
        if is_whitespace(c) {
            assert(c == ' ');
            assert(rest.len() > 0 ==> !is_whitespace(rest[0])) by {
                if rest.len() > 0 {
                    assert(rest[0] == t[1]);
                }
            }
            lemma_normalize_fixed(rest, true);
            assert(normalize_from(t, false) == seq![' '] + rest);
            assert(seq![' '] + rest =~= t);
        } else {
            lemma_normalize_fixed(rest, false);
            assert(normalize_from(t, in_run) == seq![c] + rest);
            assert(seq![c] + rest =~= t);
        }
    }
}

/// Normalizing is idempotent: a second pass over already-normalized text
/// changes nothing.
pub proof fn lemma_normalize_idempotent(s: Seq<char>)
    ensures
        normalize_text(normalize_text(s)) == normalize_text(s),
{
    lemma_normalize_from_shape(s, false);
    lemma_normalize_fixed(normalize_text(s), false);
}

/// Normalized text holds no two adjacent whitespace characters.
pub proof fn lemma_normalize_no_adjacent_whitespace(s: Seq<char>)
    ensures
        forall|i: int|
            0 <= i < normalize_text(s).len() - 1 ==> !(is_whitespace(
                #[trigger] normalize_text(s)[i],
            ) && is_whitespace(normalize_text(s)[i + 1])),
{
    lemma_normalize_from_shape(s, false);
}

/// Character-by-character equality of two string slices.
pub fn str_eq(a: &str, b: &str) -> (r: bool)
    ensures
        r == (a@ == b@),
{
    let na = a.unicode_len();
    let nb = b.unicode_len();
    if na != nb {
        proof {
            if a@ == b@ {
                assert(a@.len() == b@.len());
            }
        }
        return false;
    }
    let mut i: usize = 0;
    while i < na
        invariant
            na == a@.len(),
            nb == b@.len(),
            na == nb,
            i <= na,
            forall|k: int| 0 <= k < i ==> a@[k] == b@[k],
        decreases na - i,
    {
        if a.get_char(i) != b.get_char(i) {
            proof {
                if a@ == b@ {
                    assert(a@[i as int] == b@[i as int]);
                }
            }
            return false;
        }
        i = i + 1;
    }
    proof {
        assert(a@ =~= b@);
    }
    true
}

} // verus!
