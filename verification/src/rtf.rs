//! Markup-to-plain-text extraction for search indexing.
//!
//! The rich-text payload is treated as backslash-prefixed control words
//! (lowercase letters, then optional digits, then optional whitespace)
//! interleaved with literal text. Every control word is replaced by a
//! single space, every grouping brace is dropped, runs of whitespace
//! collapse to single spaces, and the ends are trimmed. This is a lossy,
//! best-effort stripper: it feeds the search index and never fails.

use vstd::prelude::*;
use vstd::utf8::decode_utf8;
use vstd::utf8::valid_utf8;

verus! {

pub open spec fn is_lower(c: char) -> bool {
    ('a' as u32) <= (c as u32) && (c as u32) <= ('z' as u32)
}

pub open spec fn is_digit(c: char) -> bool {
    ('0' as u32) <= (c as u32) && (c as u32) <= ('9' as u32)
}

/// The whitespace characters the extractor collapses and trims: the
/// Unicode white-space code points.
pub open spec fn is_space(c: char) -> bool {
    c == ' ' || c == '\t' || c == '\n' || c == '\x0b' || c == '\x0c' || c == '\r' || c == '\u{85}'
        || c == '\u{a0}' || c == '\u{1680}' || ((0x2000 <= (c as u32)) && ((c as u32) <= 0x200a))
        || c == '\u{2028}' || c == '\u{2029}' || c == '\u{202f}' || c == '\u{205f}' || c
        == '\u{3000}'
}

/// First index at or after `i` whose character is not a lowercase letter.
pub open spec fn skip_lower(s: Seq<char>, i: int) -> int
    decreases s.len() - i,
{
    if 0 <= i < s.len() && is_lower(s[i]) {
        skip_lower(s, i + 1)
    } else {
        i
    }
}

/// First index at or after `i` whose character is not a digit.
pub open spec fn skip_digits(s: Seq<char>, i: int) -> int
    decreases s.len() - i,
{
    if 0 <= i < s.len() && is_digit(s[i]) {
        skip_digits(s, i + 1)
    } else {
        i
    }
}

/// First index at or after `i` whose character is not whitespace.
pub open spec fn skip_spaces(s: Seq<char>, i: int) -> int
    decreases s.len() - i,
{
    if 0 <= i < s.len() && is_space(s[i]) {
        skip_spaces(s, i + 1)
    } else {
        i
    }
}

proof fn lemma_skip_lower_bounds(s: Seq<char>, i: int)
    requires
        0 <= i <= s.len(),
    ensures
        i <= skip_lower(s, i) <= s.len(),
    decreases s.len() - i,
{
    if i < s.len() && is_lower(s[i]) {
        lemma_skip_lower_bounds(s, i + 1);
    }
}

proof fn lemma_skip_digits_bounds(s: Seq<char>, i: int)
    requires
        0 <= i <= s.len(),
    ensures
        i <= skip_digits(s, i) <= s.len(),
    decreases s.len() - i,
{
    if i < s.len() && is_digit(s[i]) {
        lemma_skip_digits_bounds(s, i + 1);
    }
}

proof fn lemma_skip_spaces_bounds(s: Seq<char>, i: int)
    requires
        0 <= i <= s.len(),
    ensures
        i <= skip_spaces(s, i) <= s.len(),
    decreases s.len() - i,
{
    if i < s.len() && is_space(s[i]) {
        lemma_skip_spaces_bounds(s, i + 1);
    }
}

/// Index just past the control word starting with the backslash at `i`:
/// its letters, its digits, and the whitespace that follows them.
pub open spec fn control_end(s: Seq<char>, i: int) -> int {
    skip_spaces(s, skip_digits(s, skip_lower(s, i + 1)))
}

/// `s` from index `i` on, with every control word replaced by one space.
/// A backslash not followed by a lowercase letter is kept as literal text.
pub open spec fn strip_controls_from(s: Seq<char>, i: int) -> Seq<char>
    decreases s.len() - i,
    when 0 <= i <= s.len()
    via strip_controls_from_decreases
{
    if i >= s.len() {
        Seq::empty()
    } else if s[i] == '\\' && i + 1 < s.len() && is_lower(s[i + 1]) {
        seq![' '] + strip_controls_from(s, control_end(s, i))
    } else {
        seq![s[i]] + strip_controls_from(s, i + 1)
    }
}

#[via_fn]
proof fn strip_controls_from_decreases(s: Seq<char>, i: int) {
    if 0 <= i < s.len() && s[i] == '\\' && i + 1 < s.len() && is_lower(s[i + 1]) {
        lemma_skip_lower_bounds(s, i + 1);
        lemma_skip_digits_bounds(s, skip_lower(s, i + 1));
        lemma_skip_spaces_bounds(s, skip_digits(s, skip_lower(s, i + 1)));
    }
}

pub open spec fn strip_controls(s: Seq<char>) -> Seq<char> {
    strip_controls_from(s, 0)
}

/// `s` without its grouping braces.
pub open spec fn remove_braces(s: Seq<char>) -> Seq<char> {
    s.filter(|c: char| c != '{' && c != '}')
}

/// `s` from index `i` on, with every whitespace run replaced by one space.
pub open spec fn collapse_spaces_from(s: Seq<char>, i: int) -> Seq<char>
    decreases s.len() - i,
    when 0 <= i <= s.len()
    via collapse_spaces_from_decreases
{
    if i >= s.len() {
        Seq::empty()
    } else if is_space(s[i]) {
        seq![' '] + collapse_spaces_from(s, skip_spaces(s, i))
    } else {
        seq![s[i]] + collapse_spaces_from(s, i + 1)
    }
}

#[via_fn]
proof fn collapse_spaces_from_decreases(s: Seq<char>, i: int) {
    if 0 <= i < s.len() && is_space(s[i]) {
        assert(skip_spaces(s, i) == skip_spaces(s, i + 1));
        lemma_skip_spaces_bounds(s, i + 1);
    }
}

pub open spec fn collapse_spaces(s: Seq<char>) -> Seq<char> {
    collapse_spaces_from(s, 0)
}

/// `s` without its leading whitespace.
pub open spec fn trim_front(s: Seq<char>) -> Seq<char>
    decreases s.len(),
{
    if s.len() > 0 && is_space(s[0]) {
        trim_front(s.drop_first())
    } else {
        s
    }
}

/// `s` without its trailing whitespace.
pub open spec fn trim_back(s: Seq<char>) -> Seq<char>
    decreases s.len(),
{
    if s.len() > 0 && is_space(s.last()) {
        trim_back(s.drop_last())
    } else {
        s
    }
}

/// The plain text the extractor owes for the character sequence `s`.
pub open spec fn extracted_text(s: Seq<char>) -> Seq<char> {
    trim_back(trim_front(collapse_spaces(remove_braces(strip_controls(s)))))
}

/// The plain text the extractor owes for a raw payload: empty when the
/// bytes are not valid UTF-8.
pub open spec fn extracted_from_bytes(bytes: Seq<u8>) -> Seq<char> {
    if valid_utf8(bytes) {
        extracted_text(decode_utf8(bytes))
    } else {
        Seq::empty()
    }
}

fn is_lower_char(c: char) -> (r: bool)
    ensures
        r == is_lower(c),
{
    (c as u32) >= ('a' as u32) && (c as u32) <= ('z' as u32)
}

fn is_digit_char(c: char) -> (r: bool)
    ensures
        r == is_digit(c),
{
    (c as u32) >= ('0' as u32) && (c as u32) <= ('9' as u32)
}

fn is_space_char(c: char) -> (r: bool)
    ensures
        r == is_space(c),
{
    c == ' ' || c == '\t' || c == '\n' || c == '\x0b' || c == '\x0c' || c == '\r' || c == '\u{85}'
        || c == '\u{a0}' || c == '\u{1680}' || ((c as u32) >= 0x2000 && (c as u32) <= 0x200a)
        || c == '\u{2028}' || c == '\u{2029}' || c == '\u{202f}' || c == '\u{205f}' || c
        == '\u{3000}'
}

fn skip_lower_run(s: &Vec<char>, from: usize) -> (r: usize)
    requires
        from <= s@.len(),
    ensures
        r == skip_lower(s@, from as int),
        from <= r <= s@.len(),
{
    let n = s.len();
    let mut i: usize = from;
    while i < n && is_lower_char(s[i])
        invariant
            n == s@.len(),
            from <= i <= n,
            skip_lower(s@, from as int) == skip_lower(s@, i as int),
        decreases n - i,
    {
        i += 1;
    }
    i
}

fn skip_digit_run(s: &Vec<char>, from: usize) -> (r: usize)
    requires
        from <= s@.len(),
    ensures
        r == skip_digits(s@, from as int),
        from <= r <= s@.len(),
{
    let n = s.len();
    let mut i: usize = from;
    while i < n && is_digit_char(s[i])
        invariant
            n == s@.len(),
            from <= i <= n,
            skip_digits(s@, from as int) == skip_digits(s@, i as int),
        decreases n - i,
    {
        i += 1;
    }
    i
}

fn skip_space_run(s: &Vec<char>, from: usize) -> (r: usize)
    requires
        from <= s@.len(),
    ensures
        r == skip_spaces(s@, from as int),
        from <= r <= s@.len(),
{
    let n = s.len();
    let mut i: usize = from;
    while i < n && is_space_char(s[i])
        invariant
            n == s@.len(),
            from <= i <= n,
            skip_spaces(s@, from as int) == skip_spaces(s@, i as int),
        decreases n - i,
    {
        i += 1;
    }
    i
}

fn strip_controls_pass(s: &Vec<char>) -> (r: Vec<char>)
    ensures
        r@ == strip_controls(s@),
{
    let n = s.len();
    let mut out: Vec<char> = Vec::new();
    let mut i: usize = 0;
    while i < n
        invariant
            n == s@.len(),
            0 <= i <= n,
            out@ + strip_controls_from(s@, i as int) == strip_controls(s@),
        decreases n - i,
    {
        let ghost prev = out@;
        let ghost i0 = i as int;
        if s[i] == '\\' && i + 1 < n && is_lower_char(s[i + 1]) {
            out.push(' ');
            let j = skip_space_run(s, skip_digit_run(s, skip_lower_run(s, i + 1)));
            proof {
                assert(strip_controls_from(s@, i0) == seq![' '] + strip_controls_from(
                    s@,
                    j as int,
                ));
                assert(out@ + strip_controls_from(s@, j as int) =~= prev + strip_controls_from(
                    s@,
                    i0,
                ));
            }
            i = j;
        } else {
            out.push(s[i]);
            proof {
                assert(strip_controls_from(s@, i0) == seq![s@[i0]] + strip_controls_from(
                    s@,
                    i0 + 1,
                ));
                assert(out@ + strip_controls_from(s@, i0 + 1) =~= prev + strip_controls_from(
                    s@,
                    i0,
                ));
            }
            i += 1;
        }
    }
    proof {
        assert(out@ + strip_controls_from(s@, n as int) =~= out@);
    }
    out
}

fn remove_braces_pass(s: &Vec<char>) -> (r: Vec<char>)
    ensures
        r@ == remove_braces(s@),
{
    let n = s.len();
    let mut out: Vec<char> = Vec::new();
    let mut i: usize = 0;
    while i < n
        invariant
            n == s@.len(),
            0 <= i <= n,
            out@ == remove_braces(s@.take(i as int)),
        decreases n - i,
    {
        let c = s[i];
        if c != '{' && c != '}' {
            out.push(c);
        }
        proof {
            let pre = s@.take(i as int);
            let cur = s@.take(i + 1);
            assert(cur.drop_last() =~= pre);
            assert(cur.last() == s@[i as int]);
            reveal_with_fuel(Seq::filter, 2);
            assert(remove_braces(cur) == if s@[i as int] != '{' && s@[i as int] != '}' {
                remove_braces(pre).push(s@[i as int])
            } else {
                remove_braces(pre)
            });
        }
        i += 1;
    }
    proof {
        assert(s@.take(n as int) =~= s@);
    }
    out
}

fn collapse_spaces_pass(s: &Vec<char>) -> (r: Vec<char>)
    ensures
        r@ == collapse_spaces(s@),
{
    let n = s.len();
    let mut out: Vec<char> = Vec::new();
    let mut i: usize = 0;
    while i < n
        invariant
            n == s@.len(),
            0 <= i <= n,
            out@ + collapse_spaces_from(s@, i as int) == collapse_spaces(s@),
        decreases n - i,
    {
        let ghost prev = out@;
        let ghost i0 = i as int;
        if is_space_char(s[i]) {
            out.push(' ');
            let j = skip_space_run(s, i);
            proof {
                assert(j > i);
                assert(collapse_spaces_from(s@, i0) == seq![' '] + collapse_spaces_from(
                    s@,
                    j as int,
                ));
                assert(out@ + collapse_spaces_from(s@, j as int) =~= prev + collapse_spaces_from(
                    s@,
                    i0,
                ));
            }
            i = j;
        } else {
            out.push(s[i]);
            proof {
                assert(collapse_spaces_from(s@, i0) == seq![s@[i0]] + collapse_spaces_from(
                    s@,
                    i0 + 1,
                ));
                assert(out@ + collapse_spaces_from(s@, i0 + 1) =~= prev + collapse_spaces_from(
                    s@,
                    i0,
                ));
            }
            i += 1;
        }
    }
    proof {
        assert(out@ + collapse_spaces_from(s@, n as int) =~= out@);
    }
    out
}

fn trim_pass(s: &Vec<char>) -> (r: Vec<char>)
    ensures
        r@ == trim_back(trim_front(s@)),
{
    let n = s.len();
    proof {
        assert(s@.skip(0) =~= s@);
    }
    let mut a: usize = 0;
    while a < n && is_space_char(s[a])
        invariant
            n == s@.len(),
            0 <= a <= n,
            trim_front(s@) == trim_front(s@.skip(a as int)),
        decreases n - a,
    {
        proof {
            let t = s@.skip(a as int);
            assert(t[0] == s@[a as int]);
            assert(t.drop_first() =~= s@.skip(a + 1));
        }
        a += 1;
    }
    let ghost t = s@.skip(a as int);
    proof {
        if a < n {
            assert(t[0] == s@[a as int]);
            assert(trim_front(t) == t);
        } else {
            assert(t =~= Seq::<char>::empty());
        }
    }
    proof {
        assert(t.take(n - a as int) =~= t);
    }
    let mut b: usize = n;
    while b > a && is_space_char(s[b - 1])
        invariant
            n == s@.len(),
            a <= b <= n,
            t == s@.skip(a as int),
            trim_back(t) == trim_back(t.take(b - a as int)),
        decreases b,
    {
        proof {
            let u = t.take(b - a as int);
            assert(u.last() == s@[b - 1]);
            assert(u.drop_last() =~= t.take(b - 1 - a as int));
        }
        b -= 1;
    }
    proof {
        let u = t.take(b - a as int);
        if b > a {
            assert(u.last() == s@[b - 1]);
            assert(trim_back(u) == u);
        } else {
            assert(u =~= Seq::<char>::empty());
        }
    }
    let mut out: Vec<char> = Vec::new();
    let mut i: usize = a;
    while i < b
        invariant
            n == s@.len(),
            a <= i <= b <= n,
            t == s@.skip(a as int),
            out@ =~= t.take(i - a as int),
        decreases b - i,
    {
        out.push(s[i]);
        i += 1;
    }
    proof {
        assert(out@ =~= t.take(b - a as int));
    }
    out
}

/// Relies on str::chars: it yields exactly the characters of the string.
#[verifier::external_body]
fn str_chars(s: &str) -> (r: Vec<char>)
    ensures
        r@ == s@,
{
    s.chars().collect()
}

/// Relies on String's FromIterator over char: the collected string holds
/// exactly the given characters, in order.
#[verifier::external_body]
fn chars_string(cs: &Vec<char>) -> (r: String)
    ensures
        r@ == cs@,
{
    cs.iter().collect()
}

/// Relies on String::from_utf8: it returns the string whose UTF-8 encoding
/// is the input, and fails exactly when the input is not valid UTF-8.
#[verifier::external_body]
fn utf8_to_string(bytes: &[u8]) -> (r: Option<String>)
    ensures
        match r {
            Option::Some(s) => valid_utf8(bytes@) && s@ == decode_utf8(bytes@),
            Option::None => !valid_utf8(bytes@),
        },
{
    String::from_utf8(bytes.to_vec()).ok()
}

/// Strips markup from a rich-text string: control words become single
/// spaces, grouping braces disappear, whitespace runs collapse, and the
/// ends are trimmed.
pub fn extract_text(rtf: &str) -> (r: String)
    ensures
        r@ == extracted_text(rtf@),
{
    let cs = str_chars(rtf);
    let stripped = strip_controls_pass(&cs);
    let unbraced = remove_braces_pass(&stripped);
    let collapsed = collapse_spaces_pass(&unbraced);
    let trimmed = trim_pass(&collapsed);
    chars_string(&trimmed)
}

/// Strips markup from a raw rich-text payload. Never fails: bytes that are
/// not valid UTF-8 yield the empty string.
pub fn extract_text_from_bytes(rtf_data: &[u8]) -> (r: String)
    ensures
        r@ == extracted_from_bytes(rtf_data@),
{
    match utf8_to_string(rtf_data) {
        Option::Some(s) => extract_text(s.as_str()),
        Option::None => String::new(),
    }
}

} // verus!
