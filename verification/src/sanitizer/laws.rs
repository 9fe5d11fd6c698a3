//! What holds of the two rules and of their use one after the other.

use crate::sanitizer::{
    first_match, has_match, in_segment, is_first_match, is_separator, lemma_first_match_is_unique,
    match_at, placeholder, prefix_len, rewritten, same_letter, sanitized, segment_end, Rule,
};
use vstd::prelude::*;

verus! {

/// Where a rule applies at all, it applies at a first index.
pub proof fn lemma_first_match_exists(rule: Rule, s: Seq<char>)
    requires
        has_match(rule, s),
    ensures
        is_first_match(rule, s, first_match(rule, s)),
{
    let some = choose|at: int| match_at(rule, s, at);
    lemma_match_has_first(rule, s, some);
}

proof fn lemma_match_has_first(rule: Rule, s: Seq<char>, at: int)
    requires
        match_at(rule, s, at),
    ensures
        exists|first: int| is_first_match(rule, s, first),
    decreases at,
{
    if exists|earlier: int| 0 <= earlier < at && match_at(rule, s, earlier) {
        let earlier = choose|earlier: int| 0 <= earlier < at && match_at(rule, s, earlier);
        lemma_match_has_first(rule, s, earlier);
    } else {
        assert(is_first_match(rule, s, at));
    }
}

/// A directory name runs from `from` to `segment_end`: every character in
/// between can be part of it, and the character at its end, if there is
/// one, cannot.
pub proof fn lemma_segment_end_bounds(rule: Rule, s: Seq<char>, from: int)
    requires
        0 <= from <= s.len(),
    ensures
        from <= segment_end(rule, s, from) <= s.len(),
        forall|k: int| from <= k < segment_end(rule, s, from) ==> in_segment(rule, #[trigger] s[k]),
        segment_end(rule, s, from) < s.len() ==> !in_segment(
            rule,
            s[segment_end(rule, s, from)],
        ),
    decreases s.len() - from,
{
    if from < s.len() && in_segment(rule, s[from]) {
        lemma_segment_end_bounds(rule, s, from + 1);
    }
}

/// The end of a directory name is known by what stands before and at it.
pub proof fn lemma_segment_end_is(rule: Rule, s: Seq<char>, from: int, end: int)
    requires
        0 <= from <= end <= s.len(),
        forall|k: int| from <= k < end ==> in_segment(rule, #[trigger] s[k]),
        end < s.len() ==> !in_segment(rule, s[end]),
    ensures
        segment_end(rule, s, from) == end,
    decreases end - from,
{
    if from < end {
        assert(in_segment(rule, s[from]));
        lemma_segment_end_is(rule, s, from + 1, end);
    }
}

/// What a rule changes and what it leaves alone. Where it applies, the
/// result is the text up to the end of the recognised prefix, the
/// placeholder, and the text from the end of the directory name on; the
/// part that gave way is one non-empty directory name. Where it does not
/// apply, the result is the input.
pub proof fn lemma_rewrite_preserves_surroundings(rule: Rule, s: Seq<char>)
    ensures
        !has_match(rule, s) ==> rewritten(rule, s) == s,
        has_match(rule, s) ==> ({
            let at = first_match(rule, s);
            let kept = at + prefix_len(rule, s, at);
            let end = segment_end(rule, s, kept);
            let out = rewritten(rule, s);
            &&& is_first_match(rule, s, at)
            &&& 0 <= at < kept < end <= s.len()
            &&& out.len() == kept + placeholder().len() + (s.len() - end)
            &&& out.subrange(0, kept) == s.subrange(0, kept)
            &&& out.subrange(kept, kept + placeholder().len()) == placeholder()
            &&& out.subrange(kept + placeholder().len(), out.len() as int) == s.subrange(
                end,
                s.len() as int,
            )
            &&& forall|k: int| kept <= k < end ==> in_segment(rule, #[trigger] s[k])
            &&& end < s.len() ==> !in_segment(rule, s[end])
        }),
{
    if has_match(rule, s) {
        lemma_first_match_exists(rule, s);
        let at = first_match(rule, s);
        let kept = at + prefix_len(rule, s, at);
        lemma_segment_end_bounds(rule, s, kept);
        let end = segment_end(rule, s, kept);
        assert(end > kept) by {
            lemma_segment_end_bounds(rule, s, kept + 1);
        }
        let out = rewritten(rule, s);
        assert(out.subrange(0, kept) =~= s.subrange(0, kept));
        assert(out.subrange(kept, kept + placeholder().len()) =~= placeholder());
        assert(out.subrange(kept + placeholder().len(), out.len() as int) =~= s.subrange(
            end,
            s.len() as int,
        ));
    }
}

/// `out` is `s` but for the first directory name that `rule` finds, in
/// whose place the placeholder stands; where `rule` finds none, `out` is
/// `s`.
pub open spec fn replaces_first_name(rule: Rule, s: Seq<char>, out: Seq<char>) -> bool {
    if has_match(rule, s) {
        let at = first_match(rule, s);
        let kept = at + prefix_len(rule, s, at);
        let end = segment_end(rule, s, kept);
        &&& 0 <= at < kept < end <= s.len()
        &&& out.len() == kept + placeholder().len() + (s.len() - end)
        &&& out.subrange(0, kept) == s.subrange(0, kept)
        &&& out.subrange(kept, kept + placeholder().len()) == placeholder()
        &&& out.subrange(kept + placeholder().len(), out.len() as int) == s.subrange(
            end,
            s.len() as int,
        )
    } else {
        out == s
    }
}

/// Sanitizing changes a path in at most two places, one for each rule, and
/// in each only a directory name: the Windows rule puts the placeholder
/// for the first name that it finds in the path, and the Unix rule for the
/// first name that it finds in what the Windows rule left. Everything else
/// is carried over character by character.
pub proof fn lemma_sanitize_preserves_surroundings(s: Seq<char>)
    ensures
        replaces_first_name(Rule::Windows, s, rewritten(Rule::Windows, s)),
        replaces_first_name(Rule::Unix, rewritten(Rule::Windows, s), sanitized(s)),
{
    lemma_rewrite_preserves_surroundings(Rule::Windows, s);
    lemma_rewrite_preserves_surroundings(Rule::Unix, rewritten(Rule::Windows, s));
}

/// The prefix that a rule recognises at `at` depends on the characters of
/// the prefix alone.
proof fn lemma_prefix_is_local(rule: Rule, s: Seq<char>, t: Seq<char>, at: int, upto: int)
    requires
        0 <= at,
        upto <= s.len(),
        upto <= t.len(),
        forall|k: int| 0 <= k < upto ==> s[k] == t[k],
        prefix_len(rule, s, at) > 0,
        at + prefix_len(rule, s, at) <= upto,
    ensures
        prefix_len(rule, t, at) == prefix_len(rule, s, at),
{
}

/// The placeholder can be part of a directory name under either rule.
proof fn lemma_placeholder_in_segment(rule: Rule)
    ensures
        forall|k: int| 0 <= k < placeholder().len() ==> in_segment(rule, #[trigger] placeholder()[k]),
{
}

/// A rule finds nothing more to do in what it has rewritten.
pub proof fn lemma_rewrite_idempotent(rule: Rule, s: Seq<char>)
    ensures
        rewritten(rule, rewritten(rule, s)) == rewritten(rule, s),
{
    if has_match(rule, s) {
        lemma_rewrite_preserves_surroundings(rule, s);
        lemma_placeholder_in_segment(rule);
        let at = first_match(rule, s);
        let len = prefix_len(rule, s, at);
        let kept = at + len;
        let end = segment_end(rule, s, kept);
        let t = rewritten(rule, s);
        let mark = placeholder().len() as int;
        assert forall|k: int| 0 <= k < kept implies s[k] == t[k] by {
            assert(t.subrange(0, kept)[k] == s.subrange(0, kept)[k]);
        }
        assert forall|k: int| 0 <= k < mark implies t[kept + k] == placeholder()[k] by {
            assert(t.subrange(kept, kept + mark)[k] == placeholder()[k]);
        }
        lemma_prefix_is_local(rule, s, t, at, kept);
        assert(t[kept] == placeholder()[0]);
        assert(match_at(rule, t, at));
        assert forall|earlier: int| 0 <= earlier < at implies !match_at(rule, t, earlier) by {
            if match_at(rule, t, earlier) {
                let early_len = prefix_len(rule, t, earlier);
                if earlier + early_len < kept {
                    lemma_prefix_is_local(rule, t, s, earlier, kept);
                    assert(match_at(rule, s, earlier));
                } else {
                    // A longer prefix that starts earlier would need a letter
                    // where this match has its leading slash.
                    assert(rule == Rule::Unix && early_len == 7 && len == 6 && earlier + 1 == at);
                    assert(t[at] == '/');
                    assert(same_letter(t[earlier + 1], 'u'));
                }
            }
        }
        assert(is_first_match(rule, t, at));
        lemma_first_match_is_unique(rule, t, at);
        assert forall|k: int| kept <= k < kept + mark implies in_segment(rule, #[trigger] t[k]) by {
            assert(t[kept + (k - kept)] == placeholder()[k - kept]);
        }
        if kept + mark < t.len() {
            assert(t[kept + mark] == t.subrange(kept + mark, t.len() as int)[0]);
            assert(t[kept + mark] == s[end]);
        }
        lemma_segment_end_is(rule, t, kept, kept + mark);
        assert(rewritten(rule, t) =~= t);
    }
}

/// Sanitizing a sanitized path changes nothing, provided the Windows rule
/// finds nothing to rewrite in it.
///
/// The proviso is needed. The Unix rule can swallow the place that the
/// Windows rule rewrote, and so lay bare a second place where the Windows
/// rule applies: `/home/C:\Users\a/D:\Users\b` becomes
/// `/home/<USER>/D:\Users\b`, in which `b` then gives way on a second pass.
pub proof fn lemma_sanitize_idempotent(s: Seq<char>)
    requires
        rewritten(Rule::Windows, sanitized(s)) == sanitized(s),
    ensures
        sanitized(sanitized(s)) == sanitized(s),
{
    lemma_rewrite_idempotent(Rule::Unix, rewritten(Rule::Windows, s));
}

/// In a text that a rule leaves as it is although it applies, the
/// placeholder stands behind the first prefix and ends the directory name.
proof fn lemma_fixed_point_shape(rule: Rule, q: Seq<char>, at: int)
    requires
        is_first_match(rule, q, at),
        rewritten(rule, q) == q,
    ensures
        ({
            let kept = at + prefix_len(rule, q, at);
            &&& kept + 6 <= q.len()
            &&& segment_end(rule, q, kept) == kept + 6
            &&& forall|k: int| kept <= k < kept + 6 ==> #[trigger] q[k] == placeholder()[k - kept]
        }),
{
    lemma_first_match_is_unique(rule, q, at);
    lemma_rewrite_preserves_surroundings(rule, q);
    let kept = at + prefix_len(rule, q, at);
    assert forall|k: int| kept <= k < kept + 6 implies #[trigger] q[k] == placeholder()[k
        - kept] by {
        assert(q.subrange(kept, kept + 6)[k - kept] == placeholder()[k - kept]);
    }
}

/// Neither `<` nor `>` can stand in the prefix of the Windows rule.
proof fn lemma_windows_prefix_has_no_bracket(q: Seq<char>, at: int, inside: int)
    requires
        prefix_len(Rule::Windows, q, at) == 9,
        at <= inside < at + 9,
    ensures
        q[inside] != '<',
        q[inside] != '>',
{
    let offset = inside - at;
    if offset == 0 {
    } else if offset == 1 {
    } else if offset == 2 {
    } else if offset == 3 {
    } else if offset == 4 {
    } else if offset == 5 {
    } else if offset == 6 {
    } else if offset == 7 {
    } else {
        assert(offset == 8);
    }
}

/// `x` is `q` with the placeholder in place of what stood from `kept` up
/// to `end`.
#[verifier::opaque]
spec fn is_splice(x: Seq<char>, q: Seq<char>, kept: int, end: int) -> bool {
    &&& 0 <= kept <= end <= q.len()
    &&& x.len() == kept + 6 + (q.len() - end)
    &&& forall|k: int| 0 <= k < kept ==> #[trigger] x[k] == q[k]
    &&& forall|k: int| kept <= k < kept + 6 ==> #[trigger] x[k] == placeholder()[k - kept]
    &&& forall|k: int| kept + 6 <= k < x.len() ==> #[trigger] x[k] == q[k - (kept + 6) + end]
}

/// What stands at index `k` of a splice.
proof fn lemma_splice_at(x: Seq<char>, q: Seq<char>, kept: int, end: int, k: int)
    requires
        is_splice(x, q, kept, end),
    ensures
        0 <= kept <= end <= q.len(),
        x.len() == kept + 6 + (q.len() - end),
        0 <= k < kept ==> x[k] == q[k],
        kept <= k < kept + 6 ==> x[k] == placeholder()[k - kept],
        kept + 6 <= k < x.len() ==> x[k] == q[k - (kept + 6) + end],
{
    reveal(is_splice);
}

/// What a rule makes of a text in which it applies is a splice of that
/// text.
proof fn lemma_rewrite_is_splice(rule: Rule, q: Seq<char>)
    requires
        has_match(rule, q),
    ensures
        ({
            let at = first_match(rule, q);
            let kept = at + prefix_len(rule, q, at);
            let end = segment_end(rule, q, kept);
            &&& is_first_match(rule, q, at)
            &&& kept < end
            &&& is_splice(rewritten(rule, q), q, kept, end)
            &&& forall|k: int| kept <= k < end ==> in_segment(rule, #[trigger] q[k])
            &&& end < q.len() ==> !in_segment(rule, q[end])
        }),
{
    reveal(is_splice);
    lemma_rewrite_preserves_surroundings(rule, q);
    let at = first_match(rule, q);
    let kept = at + prefix_len(rule, q, at);
    let end = segment_end(rule, q, kept);
    let x = rewritten(rule, q);
    assert forall|k: int| 0 <= k < kept implies #[trigger] x[k] == q[k] by {
        assert(x.subrange(0, kept)[k] == q.subrange(0, kept)[k]);
    }
    assert forall|k: int| kept <= k < kept + 6 implies #[trigger] x[k] == placeholder()[k
        - kept] by {
        assert(x.subrange(kept, kept + 6)[k - kept] == placeholder()[k - kept]);
    }
    assert forall|k: int| kept + 6 <= k < x.len() implies #[trigger] x[k] == q[k - (kept + 6)
        + end] by {
        assert(x.subrange(kept + 6, x.len() as int)[k - (kept + 6)] == q.subrange(
            end,
            q.len() as int,
        )[k - (kept + 6)]);
    }
}

/// A splice that puts the placeholder where it already stood changes
/// nothing.
proof fn lemma_splice_of_placeholder(x: Seq<char>, q: Seq<char>, kept: int)
    requires
        is_splice(x, q, kept, kept + 6),
        forall|k: int| kept <= k < kept + 6 ==> #[trigger] q[k] == placeholder()[k - kept],
    ensures
        x == q,
{
    reveal(is_splice);
    assert(x =~= q);
}

/// Where the Unix rule, rewriting a place behind the one that the Windows
/// rule rewrote, gives back the text that the Windows rule started from,
/// the Windows rule had changed nothing.
proof fn lemma_no_undo_behind(
    q: Seq<char>,
    x: Seq<char>,
    kept: int,
    end: int,
    a: int,
    b: int,
)
    requires
        is_splice(x, q, kept, end),
        kept < end,
        forall|k: int| kept <= k < end ==> !is_separator(#[trigger] q[k]),
        end < q.len() ==> is_separator(q[end]),
        is_splice(q, x, a, b),
        kept + 6 <= a < x.len(),
        x[a - 1] == '/',
    ensures
        x == q,
{
    lemma_splice_at(x, q, kept, end, 0);
    lemma_splice_at(q, x, a, b, 0);
    assert forall|k: int| kept <= k < kept + 6 implies #[trigger] q[k] == placeholder()[k
        - kept] by {
        lemma_splice_at(q, x, a, b, k);
        lemma_splice_at(x, q, kept, end, k);
    }
    if end < kept + 6 {
        assert(q[end] == placeholder()[end - kept]);
        assert(false);
    }
    if end == kept + 6 {
        lemma_splice_of_placeholder(x, q, kept);
    } else if a == kept + 6 {
        lemma_splice_at(x, q, kept, end, kept + 5);
        assert(x[kept + 5] == placeholder()[5]);
        assert(false);
    } else {
        lemma_splice_at(q, x, a, b, kept + 6);
        lemma_splice_at(x, q, kept, end, kept + 6);
        assert(q[kept + 6] == x[kept + 6]);
        assert(x[kept + 6] == q[end]);
        assert(!is_separator(q[kept + 6]));
        assert(false);
    }
}

/// The first place where the Unix rule applies is the same in two texts
/// that agree up to `upto`, when the prefix there ends at or before
/// `upto`.
proof fn lemma_first_unix_match_transfers(x: Seq<char>, q: Seq<char>, upto: int, u: int)
    requires
        0 <= upto <= x.len(),
        upto <= q.len(),
        forall|k: int| 0 <= k < upto ==> #[trigger] x[k] == q[k],
        is_first_match(Rule::Unix, x, u),
        u + prefix_len(Rule::Unix, x, u) <= upto,
        u + prefix_len(Rule::Unix, x, u) == upto ==> upto < q.len() && q[upto] != '/',
    ensures
        is_first_match(Rule::Unix, q, u),
        prefix_len(Rule::Unix, q, u) == prefix_len(Rule::Unix, x, u),
{
    let len = prefix_len(Rule::Unix, x, u);
    let a = u + len;
    assert(forall|k: int| 0 <= k < upto ==> x[k] == q[k]);
    lemma_prefix_is_local(Rule::Unix, x, q, u, upto);
    if a < upto {
        assert(x[a] == q[a]);
    }
    assert(match_at(Rule::Unix, q, u));
    assert forall|earlier: int| 0 <= earlier < u implies !match_at(Rule::Unix, q, earlier) by {
        if match_at(Rule::Unix, q, earlier) {
            let early_len = prefix_len(Rule::Unix, q, earlier);
            if earlier + early_len < upto {
                assert(forall|k: int| 0 <= k < upto ==> q[k] == x[k]);
                lemma_prefix_is_local(Rule::Unix, q, x, earlier, upto);
                assert(q[earlier + early_len] == x[earlier + early_len]);
                assert(match_at(Rule::Unix, x, earlier));
            } else {
                // Only a prefix of seven that starts one before a prefix of
                // six reaches this far, and the two do not agree on their
                // second character.
                assert(early_len == 7 && len == 6 && earlier + 1 == u);
                assert(x[u] == q[u]);
                assert(x[u] == '/');
                assert(same_letter(q[earlier + 1], 'u'));
            }
        }
    }
}

/// A name that is the placeholder, and that ends where the Unix rule has
/// a name end, is the whole name for the Windows rule too.
proof fn lemma_no_undo_at(q: Seq<char>, x: Seq<char>, kept: int, end: int)
    requires
        is_splice(x, q, kept, end),
        0 <= kept,
        end == segment_end(Rule::Windows, q, kept),
        kept + 6 <= q.len(),
        segment_end(Rule::Unix, q, kept) == kept + 6,
        forall|k: int| kept <= k < kept + 6 ==> #[trigger] q[k] == placeholder()[k - kept],
    ensures
        x == q,
{
    lemma_segment_end_bounds(Rule::Unix, q, kept);
    assert forall|k: int| kept <= k < kept + 6 implies in_segment(
        Rule::Windows,
        #[trigger] q[k],
    ) by {
        assert(q[k] == placeholder()[k - kept]);
    }
    lemma_segment_end_is(Rule::Windows, q, kept, kept + 6);
    lemma_splice_of_placeholder(x, q, kept);
}

/// A placeholder that starts before the end of a prefix of the Windows
/// rule ends before that prefix starts, and what the Unix rule makes of a
/// text that agrees up to the end of the prefix is that text.
proof fn lemma_no_undo_ahead(q: Seq<char>, x: Seq<char>, i: int, a: int, b: int)
    requires
        prefix_len(Rule::Windows, q, i) == 9,
        i + 9 <= x.len(),
        forall|k: int| 0 <= k < i + 9 ==> #[trigger] x[k] == q[k],
        0 <= a < i + 9,
        a + 6 <= q.len(),
        forall|k: int| a <= k < a + 6 ==> #[trigger] q[k] == placeholder()[k - a],
        segment_end(Rule::Unix, q, a) == a + 6,
        b == segment_end(Rule::Unix, x, a),
        is_splice(q, x, a, b),
    ensures
        x == q,
{
    assert(q[a] == placeholder()[0]);
    assert(q[a + 5] == placeholder()[5]);
    if a >= i {
        lemma_windows_prefix_has_no_bracket(q, i, a);
        assert(false);
    }
    if a + 5 >= i {
        lemma_windows_prefix_has_no_bracket(q, i, a + 5);
        assert(false);
    }
    lemma_segment_end_bounds(Rule::Unix, q, a);
    assert forall|k: int| a <= k < a + 6 implies #[trigger] x[k] == placeholder()[k - a] by {
        assert(x[k] == q[k]);
        assert(q[k] == placeholder()[k - a]);
    }
    assert forall|k: int| a <= k < a + 6 implies in_segment(Rule::Unix, #[trigger] x[k]) by {
        assert(x[k] == placeholder()[k - a]);
    }
    assert(x[a + 6] == q[a + 6]);
    lemma_segment_end_is(Rule::Unix, x, a, a + 6);
    lemma_splice_of_placeholder(q, x, a);
}

/// Where the Unix rule, rewriting a place at or before the one that the
/// Windows rule rewrote, gives back the text that the Windows rule started
/// from, and the Unix rule leaves that text alone, the Windows rule had
/// changed nothing.
proof fn lemma_no_undo_before(q: Seq<char>, x: Seq<char>, i: int, end: int, u: int, b: int)
    requires
        rewritten(Rule::Unix, q) == q,
        prefix_len(Rule::Windows, q, i) == 9,
        is_splice(x, q, i + 9, end),
        i + 9 < end,
        end == segment_end(Rule::Windows, q, i + 9),
        !is_separator(q[i + 9]),
        is_first_match(Rule::Unix, x, u),
        u + prefix_len(Rule::Unix, x, u) <= i + 9,
        b == segment_end(Rule::Unix, x, u + prefix_len(Rule::Unix, x, u)),
        is_splice(q, x, u + prefix_len(Rule::Unix, x, u), b),
    ensures
        x == q,
{
    let kept = i + 9;
    let a = u + prefix_len(Rule::Unix, x, u);
    lemma_splice_at(x, q, kept, end, 0);
    assert forall|k: int| 0 <= k < kept implies #[trigger] x[k] == q[k] by {
        lemma_splice_at(x, q, kept, end, k);
    }
    lemma_first_unix_match_transfers(x, q, kept, u);
    lemma_fixed_point_shape(Rule::Unix, q, u);
    if a == kept {
        lemma_no_undo_at(q, x, kept, end);
    } else {
        lemma_no_undo_ahead(q, x, i, a, b);
    }
}

/// Where the Unix rule leaves a text alone and the Windows rule does not,
/// the Unix rule does not bring back what the Windows rule took out.
proof fn lemma_unix_rule_does_not_undo(q: Seq<char>)
    requires
        rewritten(Rule::Unix, q) == q,
        rewritten(Rule::Windows, q) != q,
    ensures
        rewritten(Rule::Unix, rewritten(Rule::Windows, q)) != q,
{
    let x = rewritten(Rule::Windows, q);
    let y = rewritten(Rule::Unix, x);
    lemma_rewrite_is_splice(Rule::Windows, q);
    let i = first_match(Rule::Windows, q);
    let kept = i + 9;
    let e = segment_end(Rule::Windows, q, kept);
    if y == q && has_match(Rule::Unix, x) {
        lemma_rewrite_is_splice(Rule::Unix, x);
        let u = first_match(Rule::Unix, x);
        let a = u + prefix_len(Rule::Unix, x, u);
        let b = segment_end(Rule::Unix, x, a);
        assert(x[a - 1] == '/');
        if a >= kept + 6 {
            lemma_no_undo_behind(q, x, kept, e, a, b);
        } else {
            if a - 1 >= kept {
                lemma_splice_at(x, q, kept, e, a - 1);
                assert(x[a - 1] == placeholder()[a - 1 - kept]);
                assert(false);
            }
            assert(in_segment(Rule::Windows, q[kept]));
            lemma_no_undo_before(q, x, i, e, u, b);
        }
    }
}

/// The proviso of `lemma_sanitize_idempotent` leaves out no path on which
/// its conclusion holds: where sanitizing twice gives what sanitizing once
/// gives, the Windows rule finds nothing to rewrite in the sanitized path.
pub proof fn lemma_sanitize_idempotent_only_if(s: Seq<char>)
    requires
        sanitized(sanitized(s)) == sanitized(s),
    ensures
        rewritten(Rule::Windows, sanitized(s)) == sanitized(s),
{
    let q = sanitized(s);
    lemma_rewrite_idempotent(Rule::Unix, rewritten(Rule::Windows, s));
    if rewritten(Rule::Windows, q) != q {
        lemma_unix_rule_does_not_undo(q);
    }
}

/// A place where the Windows rule applies is one wherever the same ten
/// characters stand.
proof fn lemma_windows_match_moves(q: Seq<char>, at: int, s: Seq<char>, to: int)
    requires
        match_at(Rule::Windows, q, at),
        0 <= to,
        to + 10 <= s.len(),
        q[at] == s[to],
        q[at + 1] == s[to + 1],
        q[at + 2] == s[to + 2],
        q[at + 3] == s[to + 3],
        q[at + 4] == s[to + 4],
        q[at + 5] == s[to + 5],
        q[at + 6] == s[to + 6],
        q[at + 7] == s[to + 7],
        q[at + 8] == s[to + 8],
        q[at + 9] == s[to + 9],
    ensures
        match_at(Rule::Windows, s, to),
{
}

/// A place where the Windows rule applies in a splice, and that lies
/// before the placeholder or behind it, is a place where it applies in the
/// text that was spliced.
proof fn lemma_windows_match_outside_splice(q: Seq<char>, s: Seq<char>, a: int, b: int, i: int)
    requires
        is_splice(q, s, a, b),
        match_at(Rule::Windows, q, i),
        i + 9 < a || a + 6 <= i,
    ensures
        has_match(Rule::Windows, s),
{
    let to = if i + 9 < a {
        i
    } else {
        i - (a + 6) + b
    };
    lemma_splice_at(q, s, a, b, i);
    lemma_splice_at(q, s, a, b, i + 1);
    lemma_splice_at(q, s, a, b, i + 2);
    lemma_splice_at(q, s, a, b, i + 3);
    lemma_splice_at(q, s, a, b, i + 4);
    lemma_splice_at(q, s, a, b, i + 5);
    lemma_splice_at(q, s, a, b, i + 6);
    lemma_splice_at(q, s, a, b, i + 7);
    lemma_splice_at(q, s, a, b, i + 8);
    lemma_splice_at(q, s, a, b, i + 9);
    lemma_windows_match_moves(q, i, s, to);
}

/// Where the prefix of the Windows rule ends just before a placeholder that
/// a splice put behind a slash, the placeholder is the whole name.
proof fn lemma_windows_name_is_placeholder(q: Seq<char>, s: Seq<char>, a: int, b: int)
    requires
        is_splice(q, s, a, b),
        b < s.len() ==> s[b] == '/',
    ensures
        segment_end(Rule::Windows, q, a) == a + 6,
        forall|k: int| a <= k < a + 6 ==> #[trigger] q[k] == placeholder()[k - a],
{
    lemma_splice_at(q, s, a, b, a + 6);
    assert forall|k: int| a <= k < a + 6 implies #[trigger] q[k] == placeholder()[k - a] by {
        lemma_splice_at(q, s, a, b, k);
    }
    assert forall|k: int| a <= k < a + 6 implies in_segment(Rule::Windows, #[trigger] q[k]) by {
        assert(q[k] == placeholder()[k - a]);
    }
    lemma_segment_end_is(Rule::Windows, q, a, a + 6);
}

/// In a path in which the Windows rule does not apply, it finds nothing to
/// rewrite after the Unix rule either: where it applies then, the name
/// behind its prefix is the placeholder that the Unix rule put there.
proof fn lemma_unix_rule_lays_nothing_bare(s: Seq<char>)
    requires
        !has_match(Rule::Windows, s),
    ensures
        rewritten(Rule::Windows, rewritten(Rule::Unix, s)) == rewritten(Rule::Unix, s),
{
    let q = rewritten(Rule::Unix, s);
    if has_match(Rule::Unix, s) && has_match(Rule::Windows, q) {
        lemma_rewrite_is_splice(Rule::Unix, s);
        let u = first_match(Rule::Unix, s);
        let a = u + prefix_len(Rule::Unix, s, u);
        let b = segment_end(Rule::Unix, s, a);
        lemma_rewrite_is_splice(Rule::Windows, q);
        let i = first_match(Rule::Windows, q);
        lemma_splice_at(q, s, a, b, a);
        lemma_splice_at(q, s, a, b, a + 5);
        if i <= a < i + 9 {
            lemma_windows_prefix_has_no_bracket(q, i, a);
        } else if a < i <= a + 5 {
            lemma_windows_prefix_has_no_bracket(q, i, a + 5);
        } else if i + 9 == a {
            lemma_windows_name_is_placeholder(q, s, a, b);
            lemma_splice_of_placeholder(rewritten(Rule::Windows, q), q, a);
        } else {
            lemma_windows_match_outside_splice(q, s, a, b, i);
        }
    }
}

/// Sanitizing a sanitized path changes nothing where only one of the two
/// rules has applied: in every path in which the Windows rule does not
/// apply, and in every path in which the Unix rule does not apply once the
/// Windows rule has run.
pub proof fn lemma_sanitize_idempotent_where_one_rule_applies(s: Seq<char>)
    requires
        !has_match(Rule::Windows, s) || !has_match(Rule::Unix, rewritten(Rule::Windows, s)),
    ensures
        sanitized(sanitized(s)) == sanitized(s),
{
    if !has_match(Rule::Windows, s) {
        lemma_unix_rule_lays_nothing_bare(s);
    } else {
        lemma_rewrite_idempotent(Rule::Windows, s);
    }
    lemma_sanitize_idempotent(s);
}

} // verus!
