//! Resolved file locations: sanitized key segments joined under a base
//! directory.
//!
//! A key's record lives at `<base>/<seg_1>/…/<seg_n>/prefs.json`: the
//! sanitized segments form nested directories and a fixed file name is
//! placed inside the deepest one, so keys that are prefixes of one another
//! never collide. Because every sanitized segment is safe (see
//! [`crate::sanitize`]), the resolved path can never leave the base
//! directory, whatever the key contains.

use crate::sanitize::{
    lemma_split_key_len, lemma_traversal_safe, safe_segment, sanitize, sanitized_segments,
    split_key,
};
use vstd::prelude::*;

verus! {

/// The fixed file name placed inside a key's deepest directory.
pub open spec fn record_file_name() -> Seq<char> {
    "prefs.json"@
}

/// The `/`-joined form of a sequence of path segments.
pub open spec fn joined(segs: Seq<Seq<char>>) -> Seq<char>
    decreases segs.len(),
{
    if segs.len() == 0 {
        Seq::empty()
    } else if segs.len() == 1 {
        segs[0]
    } else {
        segs[0] + seq!['/'] + joined(segs.drop_first())
    }
}

/// Where a key's record lives under a base directory: the sanitized
/// segments joined under the base, with the fixed file name inside the
/// deepest directory.
pub open spec fn file_path_spec(base: Seq<char>, key: Seq<char>) -> Seq<char> {
    base + seq!['/'] + joined(sanitized_segments(key)) + seq!['/'] + record_file_name()
}

/// Joining one more segment appends a separator and that segment (when
/// anything precedes it).
proof fn lemma_joined_push(segs: Seq<Seq<char>>, t: Seq<char>)
    ensures
        segs.len() == 0 ==> joined(segs.push(t)) == t,
        segs.len() > 0 ==> joined(segs.push(t)) == joined(segs) + seq!['/'] + t,
    decreases segs.len(),
{
    if segs.len() == 0 {
        assert(joined(segs.push(t)) =~= t);
    } else if segs.len() == 1 {
        assert(segs.push(t).drop_first() =~~= seq![t]);
        assert(joined(seq![t]) == t);
        assert(joined(segs.push(t)) =~= joined(segs) + seq!['/'] + t);
    } else {
        lemma_joined_push(segs.drop_first(), t);
        assert(segs.push(t).drop_first() =~~= segs.drop_first().push(t));
        assert(joined(segs.push(t)) =~= joined(segs) + seq!['/'] + t);
    }
}

/// Splitting distributes over a separator: the components of
/// `a` + `/` + `b` are the components of `a` followed by those of `b`.
pub proof fn lemma_split_key_concat(a: Seq<char>, b: Seq<char>)
    ensures
        split_key(a + seq!['/'] + b) == split_key(a) + split_key(b),
    decreases a.len(),
{
    lemma_split_key_len(a);
    lemma_split_key_len(b);
    if a.len() == 0 {
        assert((a + seq!['/'] + b).drop_first() =~= b);
        assert(split_key(a + seq!['/'] + b) =~~= split_key(a) + split_key(b));
    } else {
        lemma_split_key_concat(a.drop_first(), b);
        lemma_split_key_len(a.drop_first());
        assert((a + seq!['/'] + b).drop_first() =~= a.drop_first() + seq!['/'] + b);
        if a[0] == '/' {
            assert(split_key(a + seq!['/'] + b) =~~= split_key(a) + split_key(b));
        } else {
            let r = split_key(a.drop_first() + seq!['/'] + b);
            assert(r[0] == split_key(a.drop_first())[0]);
            assert(split_key(a + seq!['/'] + b) =~~= split_key(a) + split_key(b));
        }
    }
}

/// A string without separators is a single component.
pub proof fn lemma_split_key_no_slash(s: Seq<char>)
    requires
        forall|i: int| 0 <= i < s.len() ==> (#[trigger] s[i]) != '/',
    ensures
        split_key(s) == seq![s],
    decreases s.len(),
{
    if s.len() == 0 {
        assert(split_key(s) =~~= seq![s]);
    } else {
        lemma_split_key_no_slash(s.drop_first());
        assert(split_key(s) =~~= seq![s]);
    }
}

/// Splitting inverts joining, for non-empty lists of separator-free
/// segments.
pub proof fn lemma_split_key_joined(segs: Seq<Seq<char>>)
    requires
        segs.len() >= 1,
        forall|i: int, j: int|
            0 <= i < segs.len() && 0 <= j < segs[i].len() ==> #[trigger] segs[i][j] != '/',
    ensures
        split_key(joined(segs)) == segs,
    decreases segs.len(),
{
    if segs.len() == 1 {
        lemma_split_key_no_slash(segs[0]);
        assert(split_key(joined(segs)) =~~= segs);
    } else {
        lemma_split_key_joined(segs.drop_first());
        lemma_split_key_no_slash(segs[0]);
        lemma_split_key_concat(segs[0], joined(segs.drop_first()));
        assert(split_key(joined(segs)) =~~= segs);
    }
}

/// Traversal safety of a resolved path: read back as `/`-separated
/// components, the path is exactly the base directory's own components,
/// then the sanitized key segments, then the record file name — and every
/// component after the base is non-empty, free of separators, and never a
/// parent- or current-directory reference. Interpreting the path therefore
/// stays within the base directory, whatever the key contains.
pub proof fn lemma_file_path_within_base(base: Seq<char>, key: Seq<char>)
    ensures
        split_key(file_path_spec(base, key)) == split_key(base) + sanitized_segments(key) + seq![
            record_file_name(),
        ],
        forall|i: int|
            split_key(base).len() <= i < split_key(base).len() + sanitized_segments(key).len()
                ==> safe_segment(
                #[trigger] (split_key(base) + sanitized_segments(key) + seq![
                    record_file_name(),
                ])[i],
            ),
        record_file_name().len() > 0,
        record_file_name() != seq!['.'] && record_file_name() != seq!['.', '.'],
        forall|i: int| 0 <= i < record_file_name().len() ==> #[trigger] record_file_name()[i]
            != '/',
{
    reveal_strlit("prefs.json");
    lemma_traversal_safe(key);
    let segs = sanitized_segments(key);
    assert forall|i: int, j: int|
        0 <= i < segs.len() && 0 <= j < segs[i].len() implies #[trigger] segs[i][j] != '/' by {
        assert(safe_segment(segs[i]));
    }
    lemma_split_key_joined(segs);
    lemma_split_key_no_slash(record_file_name());
    lemma_split_key_concat(base, joined(segs) + seq!['/'] + record_file_name());
    lemma_split_key_concat(joined(segs), record_file_name());
    assert(base + seq!['/'] + (joined(segs) + seq!['/'] + record_file_name()) =~= file_path_spec(
        base,
        key,
    ));
    assert(split_key(file_path_spec(base, key)) =~~= split_key(base) + segs + seq![
        record_file_name(),
    ]);
}

/// Computes the resolved file path for a key under a base directory, as a
/// `/`-separated string.
pub fn compute_file_path(base: &str, key: &str) -> (r: String)
    ensures
        r@ == file_path_spec(base@, key@),
{
    proof {
        reveal_strlit("/");
        reveal_strlit("prefs.json");
    }
    let segs = sanitize(key);
    let ghost seg_views = segs.deep_view();
    let mut out = String::from_str(base);
    out.append("/");
    let mut i: usize = 0;
    while i < segs.len()
        invariant
            seg_views == segs.deep_view(),
            seg_views == sanitized_segments(key@),
            seg_views.len() >= 1,
            i <= segs.len(),
            segs@.len() == seg_views.len(),
            i == 0 ==> out@ == base@ + seq!['/'],
            i > 0 ==> out@ == base@ + seq!['/'] + joined(seg_views.take(i as int)) + seq!['/'],
        decreases segs.len() - i,
    {
        proof {
            reveal_strlit("/");
            lemma_joined_push(seg_views.take(i as int), seg_views[i as int]);
            assert(seg_views.take(i + 1) =~~= seg_views.take(i as int).push(seg_views[i as int]));
        }
        let seg = &segs[i];
        out.append(seg.as_str());
        out.append("/");
        assert(out@ =~= base@ + seq!['/'] + joined(seg_views.take(i + 1)) + seq!['/']);
        i += 1;
    }
    proof {
        assert(seg_views.take(seg_views.len() as int) =~~= seg_views);
    }
    out.append("prefs.json");
    assert(out@ =~= file_path_spec(base@, key@));
    out
}

} // verus!
