//! Escaping of key strings into filesystem-safe path segments.
//!
//! Each `/`-delimited segment of a key is transformed independently: a
//! character in the allowed set (ASCII letters, digits, space, hyphen) is
//! copied verbatim, any other character is replaced by the escape sequence
//! `_<codepoint>_` with the code point written in decimal, and an empty
//! segment becomes the single placeholder `_`. Because `.`, `/` and `\` are
//! all escaped, no sanitized segment can ever be a parent-directory
//! reference, so a key can never name a location outside the directory its
//! segments are joined under. Sanitization never rejects a key: every string
//! maps to a non-empty sequence of non-empty segments.

use vstd::prelude::*;

verus! {

/// A character that sanitization copies verbatim: an ASCII letter, an ASCII
/// digit, a space, or a hyphen.
pub open spec fn is_allowed_char(c: char) -> bool {
    ('a' <= c && c <= 'z') || ('A' <= c && c <= 'Z') || ('0' <= c && c <= '9') || c == ' ' || c
        == '-'
}

/// The decimal digit character for `d` (which must be below 10).
pub open spec fn decimal_digit_char(d: nat) -> char {
    if d == 0 {
        '0'
    } else if d == 1 {
        '1'
    } else if d == 2 {
        '2'
    } else if d == 3 {
        '3'
    } else if d == 4 {
        '4'
    } else if d == 5 {
        '5'
    } else if d == 6 {
        '6'
    } else if d == 7 {
        '7'
    } else if d == 8 {
        '8'
    } else {
        '9'
    }
}

/// The decimal representation of `n`, most significant digit first, with no
/// leading zeros (`0` itself is written as the single digit `0`).
pub open spec fn decimal_rep(n: nat) -> Seq<char>
    decreases n,
{
    if n < 10 {
        seq![decimal_digit_char(n)]
    } else {
        decimal_rep(n / 10).push(decimal_digit_char(n % 10))
    }
}

/// The escape sequence `_<codepoint>_` that stands for a character outside
/// the allowed set.
pub open spec fn escaped_char(c: char) -> Seq<char> {
    seq!['_'] + decimal_rep(c as u32 as nat) + seq!['_']
}

/// What one character of a key segment contributes to the sanitized segment.
pub open spec fn sanitized_char(c: char) -> Seq<char> {
    if is_allowed_char(c) {
        seq![c]
    } else {
        escaped_char(c)
    }
}

/// The concatenation of the per-character sanitizations of `s`.
pub open spec fn sanitized_chars(s: Seq<char>) -> Seq<char>
    decreases s.len(),
{
    if s.len() == 0 {
        Seq::empty()
    } else {
        sanitized_char(s[0]) + sanitized_chars(s.drop_first())
    }
}

/// The sanitized form of one `/`-delimited key segment: the per-character
/// sanitization, or the placeholder `_` for an empty segment.
pub open spec fn sanitized_segment(s: Seq<char>) -> Seq<char> {
    if s.len() == 0 {
        seq!['_']
    } else {
        sanitized_chars(s)
    }
}

/// The `/`-delimited segments of a key, in order. A key with no slash is one
/// segment; each slash ends a segment, so leading, trailing and doubled
/// slashes give empty segments.
pub open spec fn split_key(s: Seq<char>) -> Seq<Seq<char>>
    decreases s.len(),
{
    if s.len() == 0 {
        seq![Seq::<char>::empty()]
    } else if s[0] == '/' {
        seq![Seq::<char>::empty()] + split_key(s.drop_first())
    } else {
        let rest = split_key(s.drop_first());
        seq![seq![s[0]] + rest[0]] + rest.drop_first()
    }
}

/// The sanitized segments of a whole key.
pub open spec fn sanitized_segments(key: Seq<char>) -> Seq<Seq<char>> {
    split_key(key).map_values(|s: Seq<char>| sanitized_segment(s))
}

/// A key always splits into at least one segment.
pub proof fn lemma_split_key_len(s: Seq<char>)
    ensures
        split_key(s).len() >= 1,
    decreases s.len(),
{
    if s.len() != 0 {
        lemma_split_key_len(s.drop_first());
    }
}

/// Appending one character to a key either starts a fresh empty segment (for
/// a slash) or extends the last segment (for anything else).
pub proof fn lemma_split_key_push(s: Seq<char>, c: char)
    ensures
        c == '/' ==> split_key(s.push(c)) == split_key(s).push(Seq::<char>::empty()),
        c != '/' ==> split_key(s.push(c)) == split_key(s).update(
            split_key(s).len() - 1,
            split_key(s).last().push(c),
        ),
    decreases s.len(),
{
    lemma_split_key_len(s);
    if s.len() == 0 {
        assert(s.push(c).drop_first() =~= s);
        if c == '/' {
            assert(split_key(s.push(c)) =~~= split_key(s).push(Seq::<char>::empty()));
        } else {
            assert(split_key(s.push(c)) =~~= split_key(s).update(
                split_key(s).len() - 1,
                split_key(s).last().push(c),
            ));
        }
    } else {
        lemma_split_key_len(s.drop_first());
        lemma_split_key_push(s.drop_first(), c);
        assert(s.push(c).drop_first() =~= s.drop_first().push(c));
        if c == '/' {
            assert(split_key(s.push(c)) =~~= split_key(s).push(Seq::<char>::empty()));
        } else {
            let r = split_key(s.drop_first());
            let rp = split_key(s.drop_first().push(c));
            assert(rp == r.update(r.len() - 1, r.last().push(c)));
            if s[0] == '/' {
                assert(split_key(s.push(c)) =~~= split_key(s).update(
                    split_key(s).len() - 1,
                    split_key(s).last().push(c),
                ));
            } else {
                if r.len() == 1 {
                    assert(rp[0] == r[0].push(c));
                    assert(split_key(s.push(c)) =~~= split_key(s).update(
                        split_key(s).len() - 1,
                        split_key(s).last().push(c),
                    ));
                } else {
                    assert(rp[0] == r[0]);
                    assert(rp.drop_first() =~~= r.drop_first().update(
                        r.drop_first().len() - 1,
                        r.drop_first().last().push(c),
                    ));
                    assert(split_key(s.push(c)) =~~= split_key(s).update(
                        split_key(s).len() - 1,
                        split_key(s).last().push(c),
                    ));
                }
            }
        }
    }
}

/// Appending one character to a segment appends that character's
/// sanitization to the sanitized characters.
pub proof fn lemma_sanitized_chars_push(s: Seq<char>, c: char)
    ensures
        sanitized_chars(s.push(c)) == sanitized_chars(s) + sanitized_char(c),
    decreases s.len(),
{
    if s.len() == 0 {
        assert(s.push(c).drop_first() =~= s);
        assert(sanitized_chars(s.push(c)) =~= sanitized_chars(s) + sanitized_char(c));
    } else {
        lemma_sanitized_chars_push(s.drop_first(), c);
        assert(s.push(c).drop_first() =~= s.drop_first().push(c));
        assert(sanitized_chars(s.push(c)) =~= sanitized_chars(s) + sanitized_char(c));
    }
}

/// A non-empty segment sanitizes to a non-empty character sequence.
pub proof fn lemma_sanitized_chars_nonempty(s: Seq<char>)
    ensures
        s.len() > 0 ==> sanitized_chars(s).len() > 0,
    decreases s.len(),
{
    if s.len() > 0 {
        assert(sanitized_char(s[0]).len() > 0);
    }
}

/// A character that can appear in a sanitized segment: an allowed character,
/// or the underscore used by escape sequences and placeholders.
pub open spec fn is_safe_path_char(c: char) -> bool {
    is_allowed_char(c) || c == '_'
}

/// A path segment that cannot change the meaning of a path it is joined
/// into: non-empty, free of separators, NUL and control characters, and not
/// a current- or parent-directory reference.
pub open spec fn safe_segment(s: Seq<char>) -> bool {
    &&& s.len() > 0
    &&& forall|i: int|
        0 <= i < s.len() ==> (#[trigger] s[i]) != '/' && s[i] != '\\' && s[i] != '\0' && !(s[i]
            < ' ')
    &&& s != seq!['.']
    &&& s != seq!['.', '.']
}

/// A safe path character is printable ASCII and is neither a separator nor a
/// dot.
pub proof fn lemma_safe_path_char(c: char)
    ensures
        is_safe_path_char(c) ==> c != '/' && c != '\\' && c != '\0' && c != '.' && !(c < ' '),
{
}

proof fn lemma_decimal_rep_allowed(n: nat)
    ensures
        forall|i: int|
            0 <= i < decimal_rep(n).len() ==> is_allowed_char(#[trigger] decimal_rep(n)[i]),
    decreases n,
{
    if n >= 10 {
        lemma_decimal_rep_allowed(n / 10);
        assert forall|i: int| 0 <= i < decimal_rep(n).len() implies is_allowed_char(
            #[trigger] decimal_rep(n)[i],
        ) by {
            if i < decimal_rep(n).len() - 1 {
                assert(decimal_rep(n)[i] == decimal_rep(n / 10)[i]);
            } else {
                assert(decimal_rep(n)[i] == decimal_digit_char(n % 10));
            }
        }
    } else {
        assert(decimal_rep(n)[0] == decimal_digit_char(n));
    }
}

proof fn lemma_sanitized_char_safe(c: char)
    ensures
        sanitized_char(c).len() > 0,
        forall|i: int|
            0 <= i < sanitized_char(c).len() ==> is_safe_path_char(#[trigger] sanitized_char(c)[i]),
{
    if !is_allowed_char(c) {
        lemma_decimal_rep_allowed(c as u32 as nat);
    }
}

proof fn lemma_sanitized_chars_safe(s: Seq<char>)
    ensures
        forall|i: int|
            0 <= i < sanitized_chars(s).len() ==> is_safe_path_char(
                #[trigger] sanitized_chars(s)[i],
            ),
    decreases s.len(),
{
    if s.len() > 0 {
        lemma_sanitized_char_safe(s[0]);
        lemma_sanitized_chars_safe(s.drop_first());
        let head = sanitized_char(s[0]);
        let tail = sanitized_chars(s.drop_first());
        assert forall|i: int| 0 <= i < sanitized_chars(s).len() implies is_safe_path_char(
            #[trigger] sanitized_chars(s)[i],
        ) by {
            if i < head.len() {
                assert(sanitized_chars(s)[i] == head[i]);
            } else {
                assert(sanitized_chars(s)[i] == tail[i - head.len()]);
            }
        }
    }
}

/// Traversal safety of one segment: whatever the key segment holds — `..`,
/// `.`, separators, NUL or control characters — its sanitized form is a
/// non-empty name made of safe characters only, and in particular is never a
/// parent- or current-directory reference.
pub proof fn lemma_sanitized_segment_safe(s: Seq<char>)
    ensures
        forall|i: int|
            0 <= i < sanitized_segment(s).len() ==> is_safe_path_char(
                #[trigger] sanitized_segment(s)[i],
            ),
        safe_segment(sanitized_segment(s)),
{
    lemma_sanitized_chars_safe(s);
    lemma_sanitized_chars_nonempty(s);
    let out = sanitized_segment(s);
    assert forall|i: int| 0 <= i < out.len() implies (#[trigger] out[i]) != '/' && out[i] != '\\'
        && out[i] != '\0' && !(out[i] < ' ') by {
        lemma_safe_path_char(out[i]);
    }
    assert(out != seq!['.'] && out != seq!['.', '.']) by {
        if out =~= seq!['.'] || out =~= seq!['.', '.'] {
            lemma_safe_path_char(out[0]);
        }
    }
}

/// Traversal safety of a whole key: every segment that sanitization produces
/// is safe, whatever the key contains.
pub proof fn lemma_traversal_safe(key: Seq<char>)
    ensures
        sanitized_segments(key).len() >= 1,
        forall|i: int|
            0 <= i < sanitized_segments(key).len() ==> safe_segment(
                #[trigger] sanitized_segments(key)[i],
            ),
{
    lemma_split_key_len(key);
    assert forall|i: int| 0 <= i < sanitized_segments(key).len() implies safe_segment(
        #[trigger] sanitized_segments(key)[i],
    ) by {
        lemma_sanitized_segment_safe(split_key(key)[i]);
    }
}

fn allowed_char(c: char) -> (r: bool)
    ensures
        r == is_allowed_char(c),
{
    ('a' <= c && c <= 'z') || ('A' <= c && c <= 'Z') || ('0' <= c && c <= '9') || c == ' ' || c
        == '-'
}

fn digit_char(d: u32) -> (c: char)
    requires
        d < 10,
    ensures
        c == decimal_digit_char(d as nat),
{
    if d == 0 {
        '0'
    } else if d == 1 {
        '1'
    } else if d == 2 {
        '2'
    } else if d == 3 {
        '3'
    } else if d == 4 {
        '4'
    } else if d == 5 {
        '5'
    } else if d == 6 {
        '6'
    } else if d == 7 {
        '7'
    } else if d == 8 {
        '8'
    } else {
        '9'
    }
}

fn push_decimal(out: &mut Vec<char>, n: u32)
    ensures
        final(out)@ == old(out)@ + decimal_rep(n as nat),
    decreases n,
{
    if n < 10 {
        out.push(digit_char(n));
        assert(final(out)@ =~= old(out)@ + decimal_rep(n as nat));
    } else {
        push_decimal(out, n / 10);
        out.push(digit_char(n % 10));
        assert(final(out)@ =~= old(out)@ + decimal_rep(n as nat));
    }
}

fn push_sanitized_char(out: &mut Vec<char>, c: char)
    ensures
        final(out)@ == old(out)@ + sanitized_char(c),
{
    if allowed_char(c) {
        out.push(c);
        assert(final(out)@ =~= old(out)@ + sanitized_char(c));
    } else {
        out.push('_');
        push_decimal(out, c as u32);
        out.push('_');
        assert(final(out)@ =~= old(out)@ + sanitized_char(c));
    }
}

/// Builds a `String` from a vector of characters.
///
/// Relies on `String`'s `FromIterator` implementation: collecting an iterator
/// of characters yields the string of exactly those characters, in order.
#[verifier::external_body]
fn chars_to_string(v: &Vec<char>) -> (s: String)
    ensures
        s@ == v@,
{
    v.iter().collect()
}

fn finish_segment(cur: &Vec<char>) -> (s: String)
    ensures
        cur@.len() == 0 ==> s@ == seq!['_'],
        cur@.len() > 0 ==> s@ == cur@,
{
    if cur.is_empty() {
        proof {
            reveal_strlit("_");
        }
        let s = String::from_str("_");
        assert(s@ =~= seq!['_']);
        s
    } else {
        chars_to_string(cur)
    }
}

/// Sanitizes a key into its filesystem-safe path segments.
///
/// The key is split on `/`; each segment is escaped character by character,
/// and an empty segment (from a leading, trailing or doubled slash, or from
/// an empty key) becomes the placeholder `_`. Sanitization cannot fail: every
/// key yields at least one segment.
pub fn sanitize(key: &str) -> (segs: Vec<String>)
    ensures
        segs.deep_view() == sanitized_segments(key@),
        segs.deep_view().len() >= 1,
{
    let n = key.unicode_len();
    let mut segs: Vec<String> = Vec::new();
    let mut cur: Vec<char> = Vec::new();
    let mut i: usize = 0;
    proof {
        lemma_split_key_len(key@.take(0));
        assert(key@.take(0) =~= Seq::<char>::empty());
    }
    while i < n
        invariant
            n == key@.len(),
            i <= n,
            split_key(key@.take(i as int)).len() >= 1,
            segs.deep_view() =~= split_key(key@.take(i as int)).drop_last().map_values(
                (|s: Seq<char>| sanitized_segment(s)),
            ),
            cur@ == sanitized_chars(split_key(key@.take(i as int)).last()),
            cur@.len() > 0 ==> split_key(key@.take(i as int)).last().len() > 0,
        decreases n - i,
    {
        let ghost pre = key@.take(i as int);
        let ghost parts = split_key(pre);
        let c = key.get_char(i);
        proof {
            assert(key@.take(i + 1) =~= pre.push(c));
            lemma_split_key_push(pre, c);
            lemma_split_key_len(key@.take(i + 1));
        }
        if c == '/' {
            proof {
                lemma_sanitized_chars_nonempty(parts.last());
            }
            let ghost dv = segs.deep_view();
            let done = finish_segment(&cur);
            assert(done@ == sanitized_segment(parts.last()));
            segs.push(done);
            cur.clear();
            proof {
                let parts2 = split_key(key@.take(i + 1));
                assert(segs.deep_view() =~~= dv.push(done@));
                assert(parts2.drop_last() =~~= parts);
                assert(segs.deep_view() =~~= parts2.drop_last().map_values(
                    (|s: Seq<char>| sanitized_segment(s)),
                ));
            }
        } else {
            proof {
                lemma_sanitized_chars_push(parts.last(), c);
            }
            push_sanitized_char(&mut cur, c);
            proof {
                let parts2 = split_key(key@.take(i + 1));
                assert(parts2.drop_last() =~~= parts.drop_last());
                assert(parts2.last() == parts.last().push(c));
                assert(sanitized_char(c).len() > 0);
            }
        }
        i += 1;
    }
    proof {
        assert(key@.take(i as int) =~= key@);
        lemma_sanitized_chars_nonempty(split_key(key@).last());
    }
    let ghost dv = segs.deep_view();
    let done = finish_segment(&cur);
    assert(done@ == sanitized_segment(split_key(key@).last()));
    segs.push(done);
    proof {
        assert(segs.deep_view() =~~= dv.push(done@));
        assert(segs.deep_view() =~~= split_key(key@).map_values(
            (|s: Seq<char>| sanitized_segment(s)),
        ));
        lemma_split_key_len(key@);
    }
    segs
}

} // verus!
