//! Finding and replacing a pattern in text, as sequences of characters.

use vstd::prelude::*;
use vstd::std_specs::iter::IteratorSpec;

verus! {

/// `pat` stands in `text` with its first character at index `at`.
pub open spec fn occurs_at(text: Seq<char>, pat: Seq<char>, at: int) -> bool {
    &&& 0 <= at
    &&& at + pat.len() <= text.len()
    &&& text.subrange(at, at + pat.len()) == pat
}

/// `pat` stands somewhere in `text`.
pub open spec fn occurs_in(pat: Seq<char>, text: Seq<char>) -> bool {
    exists|at: int| occurs_at(text, pat, at)
}

/// `text` with every occurrence of `from` replaced by `to`, reading from the
/// left and never looking again at what one occurrence has covered. An empty
/// `from` replaces nothing.
pub open spec fn replaced(text: Seq<char>, from: Seq<char>, to: Seq<char>) -> Seq<char>
    decreases text.len(),
{
    if from.len() == 0 || text.len() < from.len() {
        text
    } else if occurs_at(text, from, 0) {
        to + replaced(text.skip(from.len() as int), from, to)
    } else {
        text.take(1) + replaced(text.skip(1), from, to)
    }
}

/// `a`, laid over `b` with its first character at index `shift` of `b`, shows
/// the same character as `b` wherever both have one.
pub open spec fn agree_at(a: Seq<char>, b: Seq<char>, shift: int) -> bool {
    forall|i: int| 0 <= i < a.len() && 0 <= i + shift < b.len() ==> a[i] == b[i + shift]
}

/// However `a` and `b` are laid over each other so that they share at least
/// one position, they differ at one of the shared positions. Neither is then
/// empty, neither occurs in the other, and no end of one is a start of the
/// other.
pub open spec fn apart(a: Seq<char>, b: Seq<char>) -> bool {
    &&& !agree_at(a, b, 0)
    &&& forall|shift: int| 0 < shift < b.len() ==> !agree_at(a, b, shift)
    &&& forall|shift: int| 0 < shift < a.len() ==> !agree_at(b, a, shift)
}

/// No end of `a`, short of the whole, is also a start of `a`: two occurrences
/// of `a` never overlap.
pub open spec fn unbordered(a: Seq<char>) -> bool {
    forall|shift: int| 0 < shift < a.len() ==> !agree_at(a, a, shift)
}

/// The characters of `s`, one element each.
fn chars_of(s: &str) -> (chars: Vec<char>)
    ensures
        chars@ == s@,
{
    let mut chars: Vec<char> = Vec::new();
    let mut rest = s.chars();
    loop
        invariant_except_break
            chars@ + rest.remaining() == s@,
            rest.decrease() is Some,
        ensures
            chars@ == s@,
        decreases rest.decrease()->0,
    {
        match rest.next() {
            Some(c) => {
                chars.push(c);
            },
            None => {
                break ;
            },
        }
    }
    chars
}

/// Whether `pat` stands in `text` at index `at`.
fn matches_at(text: &Vec<char>, pat: &Vec<char>, at: usize) -> (hit: bool)
    requires
        at + pat@.len() <= text@.len(),
    ensures
        hit == occurs_at(text@, pat@, at as int),
{
    let n: usize = text.len();
    let m: usize = pat.len();
    let mut k: usize = 0;
    while k < m
        invariant
            k <= m == pat@.len(),
            at + m <= n == text@.len(),
            forall|j: int| 0 <= j < k ==> text@[at + j] == pat@[j],
        decreases pat@.len() - k,
    {
        if text[at + k] != pat[k] {
            assert(text@.subrange(at as int, at + pat@.len())[k as int] != pat@[k as int]);
            return false;
        }
        k += 1;
    }
    assert(text@.subrange(at as int, at + pat@.len()) =~= pat@);
    true
}

/// Whether `pat` stands somewhere in `text`. An empty `pat` stands in every
/// text.
pub fn contains(text: &str, pat: &str) -> (found: bool)
    ensures
        found == occurs_in(pat@, text@),
{
    let hay = chars_of(text);
    let needle = chars_of(pat);
    if hay.len() < needle.len() {
        return false;
    }
    if needle.len() == 0 {
        assert(occurs_at(hay@, needle@, 0)) by {
            assert(hay@.subrange(0, 0) =~= needle@);
        }
        return true;
    }
    let last: usize = hay.len() - needle.len();
    let mut at: usize = 0;
    while at <= last
        invariant
            hay@ == text@,
            needle@ == pat@,
            0 < needle@.len() <= hay@.len() <= usize::MAX,
            last == hay@.len() - needle@.len(),
            at <= last + 1,
            forall|j: int| 0 <= j < at ==> !occurs_at(hay@, needle@, j),
        decreases last + 1 - at,
    {
        if matches_at(&hay, &needle, at) {
            return true;
        }
        at += 1;
    }
    false
}

/// `text` with every occurrence of `from` replaced by `to`: the leftmost
/// occurrence first, then the leftmost in what follows it, and so on. An empty
/// `from` replaces nothing.
pub fn replace(text: &str, from: &str, to: &str) -> (out: String)
    ensures
        out@ == replaced(text@, from@, to@),
{
    let hay = chars_of(text);
    let needle = chars_of(from);
    let n: usize = hay.len();
    let m: usize = needle.len();
    let mut out = String::new();
    if m == 0 || n < m {
        out.append(text);
        return out;
    }
    let last: usize = n - m;
    // `out` holds the result for `text` up to `kept`; from `kept` up to `at`
    // no occurrence begins.
    let mut kept: usize = 0;
    let mut at: usize = 0;
    proof {
        assert(text@.skip(0) =~= text@);
        assert(out@ + text@.subrange(0, 0) + replaced(text@, from@, to@) =~= replaced(
            text@,
            from@,
            to@,
        ));
    }
    while at <= last
        invariant
            hay@ == text@,
            needle@ == from@,
            0 < m == from@.len(),
            m <= n == text@.len(),
            last == n - m,
            kept <= at <= n,
            replaced(text@, from@, to@) == out@ + text@.subrange(kept as int, at as int)
                + replaced(text@.skip(at as int), from@, to@),
        decreases n - at,
    {
        let ghost tail = text@.skip(at as int);
        if matches_at(&hay, &needle, at) {
            proof {
                assert(tail.subrange(0, m as int) =~= text@.subrange(at as int, at + m));
                assert(tail.skip(m as int) =~= text@.skip(at + m));
            }
            out.append(text.substring_char(kept, at));
            out.append(to);
            at += m;
            kept = at;
            assert(text@.subrange(kept as int, at as int) =~= Seq::<char>::empty());
        } else {
            proof {
                assert(tail.subrange(0, m as int) =~= text@.subrange(at as int, at + m));
                assert(tail.skip(1) =~= text@.skip(at + 1));
                assert(text@.subrange(kept as int, at as int) + tail.take(1)
                    =~= text@.subrange(kept as int, at + 1));
            }
            at += 1;
        }
    }
    proof {
        assert(text@.subrange(kept as int, at as int) + text@.skip(at as int)
            =~= text@.subrange(kept as int, n as int));
    }
    out.append(text.substring_char(kept, n));
    out
}

/// An occurrence in what follows the first `cut` characters is an occurrence
/// in the whole text, `cut` places further on.
proof fn lemma_occurs_later(text: Seq<char>, pat: Seq<char>, cut: int, at: int)
    requires
        0 <= cut <= text.len(),
        occurs_at(text.skip(cut), pat, at),
    ensures
        occurs_at(text, pat, at + cut),
{
    assert(text.subrange(at + cut, at + cut + pat.len()) =~= text.skip(cut).subrange(
        at,
        at + pat.len(),
    ));
}

/// A text that begins with one character and then `back`, and that begins
/// with `head`: the character is the first of `head`, and `back` begins with
/// the rest of `head`.
proof fn lemma_head_split(first: Seq<char>, back: Seq<char>, head: Seq<char>)
    requires
        first.len() == 1,
        head.len() > 0,
        occurs_at(first + back, head, 0),
    ensures
        head[0] == first[0],
        occurs_at(back, head.skip(1), 0),
{
    let whole = first + back;
    let seen = whole.subrange(0, head.len() as int);
    assert(seen[0] == whole[0]);
    assert(back.subrange(0, head.len() - 1) =~= head.skip(1)) by {
        assert forall|i: int| 0 <= i < head.len() - 1 implies back[i] == head.skip(1)[i] by {
            assert(seen[i + 1] == whole[i + 1]);
        }
    }
}

/// A text that begins with the first character of `head` and goes on with
/// the rest of `head` begins with `head`.
proof fn lemma_head_joined(text: Seq<char>, head: Seq<char>)
    requires
        head.len() > 0,
        text.len() > 0,
        text[0] == head[0],
        occurs_at(text.skip(1), head.skip(1), 0),
    ensures
        occurs_at(text, head, 0),
{
    let rest = text.skip(1);
    let seen = rest.subrange(0, head.len() - 1);
    assert(text.subrange(0, head.len() as int) =~= head) by {
        assert forall|i: int| 1 <= i < head.len() implies text[i] == head[i] by {
            assert(seen[i - 1] == rest[i - 1]);
            assert(head.skip(1)[i - 1] == head[i]);
        }
    }
}

/// Where `a` agrees with `b` at no shift but perhaps 0, it agrees at no shift
/// at all with `b` less its first character.
proof fn lemma_disagree_with_rest(a: Seq<char>, b: Seq<char>)
    requires
        forall|shift: int| 0 < shift < b.len() ==> !agree_at(a, b, shift),
    ensures
        forall|shift: int| 0 <= shift < b.len() - 1 ==> !agree_at(a, b.skip(1), shift),
{
    let rest = b.skip(1);
    assert forall|shift: int| 0 <= shift < b.len() - 1 implies !agree_at(a, rest, shift) by {
        if agree_at(a, rest, shift) {
            assert forall|i: int| 0 <= i < a.len() && 0 <= i + (shift + 1) < b.len() implies #[trigger] a[i]
                == b[i + (shift + 1)] by {
                assert(rest[i + shift] == b[i + shift + 1]);
            }
            assert(agree_at(a, b, shift + 1));
        }
    }
}

/// Replacing a pattern that does not occur changes nothing.
pub proof fn lemma_replaced_absent(text: Seq<char>, from: Seq<char>, to: Seq<char>)
    requires
        !occurs_in(from, text),
    ensures
        replaced(text, from, to) == text,
    decreases text.len(),
{
    if from.len() == 0 || text.len() < from.len() {
    } else {
        assert(!occurs_at(text, from, 0));
        let rest = text.skip(1);
        assert forall|at: int| !occurs_at(rest, from, at) by {
            if occurs_at(rest, from, at) {
                lemma_occurs_later(text, from, 1, at);
            }
        }
        lemma_replaced_absent(rest, from, to);
        assert(text.take(1) + rest =~= text);
    }
}

/// A start of the replaced text in which no copy of `to` can begin was a
/// start of the text already.
proof fn lemma_head_predates(text: Seq<char>, from: Seq<char>, to: Seq<char>, head: Seq<char>)
    requires
        from.len() > 0,
        occurs_at(replaced(text, from, to), head, 0),
        forall|shift: int| 0 <= shift < head.len() ==> !agree_at(to, head, shift),
    ensures
        occurs_at(text, head, 0),
    decreases text.len(),
{
    let out = replaced(text, from, to);
    if head.len() == 0 {
        assert(text.subrange(0, 0) =~= head);
    } else if text.len() < from.len() {
    } else if occurs_at(text, from, 0) {
        // The replaced text begins with `to`, so `to` agrees with `head`.
        let seen = out.subrange(0, head.len() as int);
        assert forall|i: int| 0 <= i < to.len() && 0 <= i + 0 < head.len() implies to[i] == head[i
            + 0] by {
            assert(seen[i] == out[i]);
        }
        assert(agree_at(to, head, 0));
    } else {
        let rest = text.skip(1);
        lemma_head_split(text.take(1), replaced(rest, from, to), head);
        lemma_disagree_with_rest(to, head);
        lemma_head_predates(rest, from, to, head.skip(1));
        lemma_head_joined(text, head);
    }
}

/// Where `from` and `to` are apart, `from` does not stand at index `at` of
/// the replaced text.
proof fn lemma_cleared_at(text: Seq<char>, from: Seq<char>, to: Seq<char>, at: int)
    requires
        apart(from, to),
    ensures
        !occurs_at(replaced(text, from, to), from, at),
    decreases text.len(),
{
    let out = replaced(text, from, to);
    assert(from.len() > 0) by {
        if from.len() == 0 {
            assert(agree_at(from, to, 0));
        }
    }
    if text.len() < from.len() {
    } else if occurs_at(out, from, at) {
        let seen = out.subrange(at, at + from.len());
        if occurs_at(text, from, 0) {
            let rest = text.skip(from.len() as int);
            let out_rest = replaced(rest, from, to);
            if at >= to.len() {
                // The occurrence lies behind the `to` that was put in.
                assert(out_rest.subrange(at - to.len(), at - to.len() + from.len()) =~= seen);
                lemma_cleared_at(rest, from, to, at - to.len());
            } else {
                // The occurrence begins inside the `to` that was put in.
                assert forall|i: int| 0 <= i < from.len() && 0 <= i + at < to.len() implies from[i]
                    == to[i + at] by {
                    assert(seen[i] == out[at + i]);
                }
                assert(agree_at(from, to, at));
            }
        } else {
            let rest = text.skip(1);
            let out_rest = replaced(rest, from, to);
            if at >= 1 {
                assert(out_rest.subrange(at - 1, at - 1 + from.len()) =~= seen);
                lemma_cleared_at(rest, from, to, at - 1);
            } else {
                // The occurrence begins at the character that was kept, so
                // the text began with `from` after all.
                lemma_head_split(text.take(1), out_rest, from);
                lemma_disagree_with_rest(to, from);
                lemma_head_predates(rest, from, to, from.skip(1));
                lemma_head_joined(text, from);
            }
        }
    }
}

/// Where `from` and `to` are apart, replacing leaves no `from` behind.
pub proof fn lemma_replaced_clears(text: Seq<char>, from: Seq<char>, to: Seq<char>)
    requires
        apart(from, to),
    ensures
        !occurs_in(from, replaced(text, from, to)),
{
    assert forall|at: int| !occurs_at(replaced(text, from, to), from, at) by {
        lemma_cleared_at(text, from, to, at);
    }
}

/// Where `to` is unbordered and stands nowhere in `text`, replacing `from` by
/// `to` and then `to` by `from` gives `text` back.
pub proof fn lemma_replaced_back(text: Seq<char>, from: Seq<char>, to: Seq<char>)
    requires
        from.len() > 0,
        to.len() > 0,
        unbordered(to),
        !occurs_in(to, text),
    ensures
        replaced(replaced(text, from, to), to, from) == text,
    decreases text.len(),
{
    let out = replaced(text, from, to);
    if text.len() < from.len() {
        lemma_replaced_absent(text, to, from);
    } else {
        let cut: int = if occurs_at(text, from, 0) {
            from.len() as int
        } else {
            1
        };
        let rest = text.skip(cut);
        let out_rest = replaced(rest, from, to);
        assert forall|at: int| !occurs_at(rest, to, at) by {
            if occurs_at(rest, to, at) {
                lemma_occurs_later(text, to, cut, at);
            }
        }
        lemma_replaced_back(rest, from, to);
        if occurs_at(text, from, 0) {
            // `to` was put in at the start and is taken out again.
            assert(out.subrange(0, to.len() as int) =~= to);
            assert(out.skip(to.len() as int) =~= out_rest);
            assert(from + rest =~= text);
        } else {
            // The first character was kept. No `to` begins at it afterwards,
            // or one would have begun at it before.
            assert(out.take(1) =~= text.take(1));
            assert(out.skip(1) =~= out_rest);
            assert(text.take(1) + rest =~= text);
            if out.len() >= to.len() && occurs_at(out, to, 0) {
                lemma_head_split(text.take(1), out_rest, to);
                lemma_disagree_with_rest(to, to);
                lemma_head_predates(rest, from, to, to.skip(1));
                lemma_head_joined(text, to);
            }
        }
    }
}

/// Being apart does not depend on the order of the two.
pub proof fn lemma_apart_symmetric(a: Seq<char>, b: Seq<char>)
    requires
        apart(a, b),
    ensures
        apart(b, a),
{
    if agree_at(b, a, 0) {
        assert forall|i: int| 0 <= i < a.len() && 0 <= i + 0 < b.len() implies a[i] == b[i + 0] by {
            assert(b[i] == a[i + 0]);
        }
        assert(agree_at(a, b, 0));
    }
}

} // verus!
