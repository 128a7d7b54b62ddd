use vstd::prelude::*;

use crate::text::{chars_of, same_chars};

verus! {

/// The character that separates the segments of a topic.
pub open spec fn spec_separator() -> char {
    ':'
}

/// Splits `s` at every occurrence of `sep`, as `str::split` does: `n`
/// separators give `n + 1` segments, empty ones included.
pub open spec fn split_on(s: Seq<char>, sep: char) -> Seq<Seq<char>>
    decreases s.len(),
{
    if s.len() == 0 {
        seq![Seq::<char>::empty()]
    } else {
        let init = split_on(s.drop_last(), sep);
        if s.last() == sep {
            init.push(Seq::<char>::empty())
        } else {
            init.update(init.len() - 1, init.last().push(s.last()))
        }
    }
}

/// Joins segments with `sep` between consecutive ones.
pub open spec fn join_with(parts: Seq<Seq<char>>, sep: char) -> Seq<char>
    decreases parts.len(),
{
    if parts.len() == 0 {
        Seq::<char>::empty()
    } else if parts.len() == 1 {
        parts[0]
    } else {
        join_with(parts.drop_last(), sep).push(sep) + parts.last()
    }
}

/// The segment that matches any rest of a topic.
pub open spec fn wildcard() -> Seq<char> {
    seq!['*']
}

/// Segment-wise matching of a pattern against a topic: equal segments are
/// consumed pairwise, a wildcard segment in the pattern accepts whatever
/// follows, and otherwise both must run out together.
pub open spec fn segments_match(pattern: Seq<Seq<char>>, topic: Seq<Seq<char>>) -> bool
    decreases pattern.len(),
{
    if pattern.len() == 0 {
        topic.len() == 0
    } else if pattern[0] == wildcard() {
        true
    } else if topic.len() == 0 {
        false
    } else {
        pattern[0] == topic[0] && segments_match(pattern.drop_first(), topic.drop_first())
    }
}

/// Whether the topic pattern `pattern` matches the topic `topic`.
pub open spec fn topic_matches(pattern: Seq<char>, topic: Seq<char>) -> bool {
    segments_match(split_on(pattern, spec_separator()), split_on(topic, spec_separator()))
}


/// Whether some segment of the pattern is the wildcard `*`.
pub open spec fn has_wildcard_segment(pattern: Seq<char>) -> bool {
    exists|k: int|
        0 <= k < split_on(pattern, spec_separator()).len()
            && #[trigger] split_on(pattern, spec_separator())[k] == wildcard()
}

/// Splitting always yields at least one segment.
pub proof fn lemma_split_nonempty(s: Seq<char>, sep: char)
    ensures
        split_on(s, sep).len() >= 1,
    decreases s.len(),
{
    if s.len() > 0 {
        lemma_split_nonempty(s.drop_last(), sep);
    }
}

/// Joining the segments of a split with the same separator gives back the text.
pub proof fn lemma_join_split(s: Seq<char>, sep: char)
    ensures
        join_with(split_on(s, sep), sep) == s,
    decreases s.len(),
{
    if s.len() == 0 {
        assert(join_with(split_on(s, sep), sep) =~= s);
    } else {
        let init = split_on(s.drop_last(), sep);
        lemma_split_nonempty(s.drop_last(), sep);
        lemma_join_split(s.drop_last(), sep);
        let parts = split_on(s, sep);
        if s.last() == sep {
            assert(parts.drop_last() =~= init);
            assert(join_with(parts, sep) =~= s);
        } else {
            if init.len() == 1 {
                assert(join_with(parts, sep) =~= s);
            } else {
                assert(parts.drop_last() =~= init.drop_last());
                assert(parts.last() == init.last().push(s.last()));
                assert(join_with(init, sep) == join_with(init.drop_last(), sep).push(sep) + init.last());
                assert(join_with(parts, sep) == join_with(init.drop_last(), sep).push(sep) + parts.last());
                assert(join_with(parts, sep) =~= s.drop_last().push(s.last()));
                assert(s.drop_last().push(s.last()) =~= s);
            }
        }
    }
}

/// Splitting `a`, a separator, then `b` gives the segments of `a` followed by those of `b`.
pub proof fn lemma_split_concat(a: Seq<char>, b: Seq<char>, sep: char)
    ensures
        split_on(a.push(sep) + b, sep) == split_on(a, sep) + split_on(b, sep),
    decreases b.len(),
{
    let s = a.push(sep) + b;
    if b.len() == 0 {
        assert(s =~= a.push(sep));
        assert(s.drop_last() =~= a);
        assert(split_on(a, sep).push(Seq::<char>::empty()) =~= split_on(a, sep) + split_on(b, sep));
    } else {
        lemma_split_concat(a, b.drop_last(), sep);
        lemma_split_nonempty(b.drop_last(), sep);
        assert(s.drop_last() =~= a.push(sep) + b.drop_last());
        assert(s.last() == b.last());
        let x = split_on(a, sep);
        let y = split_on(b.drop_last(), sep);
        if b.last() == sep {
            assert((x + y).push(Seq::<char>::empty()) =~= x + y.push(Seq::<char>::empty()));
        } else {
            assert((x + y).update((x + y).len() - 1, (x + y).last().push(b.last())) =~= x + y.update(
                y.len() - 1,
                y.last().push(b.last()),
            ));
        }
    }
}

/// Segment lists match themselves.
proof fn lemma_segments_reflexive(p: Seq<Seq<char>>)
    ensures
        segments_match(p, p),
    decreases p.len(),
{
    if p.len() > 0 && p[0] != wildcard() {
        lemma_segments_reflexive(p.drop_first());
    }
}

/// Without wildcard segments, matching segment lists are equal.
proof fn lemma_segments_exact(p: Seq<Seq<char>>, t: Seq<Seq<char>>)
    requires
        forall|k: int| 0 <= k < p.len() ==> p[k] != wildcard(),
        segments_match(p, t),
    ensures
        p == t,
    decreases p.len(),
{
    if p.len() == 0 {
        assert(p =~= t);
    } else {
        assert(p[0] != wildcard());
        assert forall|k: int| 0 <= k < p.drop_first().len() implies p.drop_first()[k] != wildcard() by {
            assert(p.drop_first()[k] == p[k + 1]);
        }
        lemma_segments_exact(p.drop_first(), t.drop_first());
        assert(p =~= seq![p[0]] + p.drop_first());
        assert(t =~= seq![t[0]] + t.drop_first());
    }
}

/// Segments followed by a wildcard match those segments followed by anything.
proof fn lemma_segments_prefix(a: Seq<Seq<char>>, b: Seq<Seq<char>>)
    ensures
        segments_match(a + seq![wildcard()], a + b),
    decreases a.len(),
{
    if a.len() == 0 {
        assert((a + seq![wildcard()])[0] == wildcard());
    } else if a[0] != wildcard() {
        lemma_segments_prefix(a.drop_first(), b);
        assert((a + seq![wildcard()]).drop_first() =~= a.drop_first() + seq![wildcard()]);
        assert((a + b).drop_first() =~= a.drop_first() + b);
    }
}

/// The pattern `*` is a single wildcard segment.
proof fn lemma_split_wildcard()
    ensures
        split_on(wildcard(), spec_separator()) == seq![wildcard()],
{
    let w = wildcard();
    let e = Seq::<char>::empty();
    assert(w.drop_last() =~= e);
    assert(split_on(e, spec_separator()) == seq![e]);
    assert(w.last() == '*');
    assert(e.push('*') =~= w);
    assert(split_on(w, spec_separator()) == seq![e].update(0, e.push('*')));
    assert(split_on(w, spec_separator()) =~= seq![wildcard()]);
}

/// Every topic matches itself when used as a pattern.
pub proof fn lemma_match_reflexive(t: Seq<char>)
    ensures
        topic_matches(t, t),
{
    lemma_segments_reflexive(split_on(t, spec_separator()));
}

/// The pattern `*` matches every topic.
pub proof fn lemma_wildcard_matches_all(t: Seq<char>)
    ensures
        topic_matches(wildcard(), t),
{
    lemma_split_wildcard();
}

/// A pattern with no wildcard segment matches exactly the topic it spells.
pub proof fn lemma_exact_pattern(p: Seq<char>, t: Seq<char>)
    requires
        !has_wildcard_segment(p),
    ensures
        topic_matches(p, t) <==> p == t,
{
    let ps = split_on(p, spec_separator());
    let ts = split_on(t, spec_separator());
    if topic_matches(p, t) {
        assert forall|k: int| 0 <= k < ps.len() implies ps[k] != wildcard() by {
            if ps[k] == wildcard() {
                assert(has_wildcard_segment(p));
            }
        }
        lemma_segments_exact(ps, ts);
        lemma_join_split(p, spec_separator());
        lemma_join_split(t, spec_separator());
    }
    if p == t {
        lemma_match_reflexive(p);
    }
}

/// A pattern `prefix:*` matches every topic `prefix:rest`.
pub proof fn lemma_prefix_wildcard(prefix: Seq<char>, rest: Seq<char>)
    ensures
        topic_matches(prefix.push(spec_separator()) + wildcard(), prefix.push(spec_separator()) + rest),
{
    let sep = spec_separator();
    lemma_split_concat(prefix, wildcard(), sep);
    lemma_split_concat(prefix, rest, sep);
    lemma_split_wildcard();
    lemma_segments_prefix(split_on(prefix, sep), split_on(rest, sep));
}

/// The segments of a pattern and a topic agree before position `w`.
pub open spec fn agree_before(ps: Seq<Seq<char>>, ts: Seq<Seq<char>>, w: int) -> bool {
    w <= ts.len() && forall|j: int| 0 <= j < w ==> #[trigger] ps[j] == ts[j]
}

/// Position `w` holds the first wildcard segment of `ps`.
pub open spec fn first_wildcard_at(ps: Seq<Seq<char>>, w: int) -> bool {
    &&& 0 <= w < ps.len()
    &&& ps[w] == wildcard()
    &&& forall|j: int| 0 <= j < w ==> #[trigger] ps[j] != wildcard()
}

/// Segment matching, spelled out: either the pattern has a first wildcard
/// segment and every segment before it equals the topic's segment at the
/// same position, or the pattern has no wildcard segment and the segments
/// are the same.
proof fn lemma_segments_characterized(ps: Seq<Seq<char>>, ts: Seq<Seq<char>>)
    ensures
        segments_match(ps, ts) <==> ((exists|w: int| first_wildcard_at(ps, w) && agree_before(ps, ts, w)) || ((
        forall|j: int| 0 <= j < ps.len() ==> #[trigger] ps[j] != wildcard()) && ps == ts)),
    decreases ps.len(),
{
    if ps.len() == 0 {
        if ts.len() == 0 {
            assert(ps =~= ts);
        }
    } else if ps[0] == wildcard() {
        assert(first_wildcard_at(ps, 0) && agree_before(ps, ts, 0));
    } else if ts.len() == 0 {
        assert forall|w: int| first_wildcard_at(ps, w) implies !agree_before(ps, ts, w) by {
            assert(w != 0);
        }
    } else {
        let ps1 = ps.drop_first();
        let ts1 = ts.drop_first();
        lemma_segments_characterized(ps1, ts1);
        let rhs = (exists|w: int| first_wildcard_at(ps, w) && agree_before(ps, ts, w)) || ((forall|j: int|
            0 <= j < ps.len() ==> #[trigger] ps[j] != wildcard()) && ps == ts);
        if segments_match(ps, ts) {
            assert(ps[0] == ts[0]);
            if exists|w: int| first_wildcard_at(ps1, w) && agree_before(ps1, ts1, w) {
                let w = choose|w: int| first_wildcard_at(ps1, w) && agree_before(ps1, ts1, w);
                assert forall|j: int| 0 <= j < w + 1 implies #[trigger] ps[j] != wildcard() by {
                    if j > 0 {
                        assert(ps[j] == ps1[j - 1]);
                    }
                }
                assert forall|j: int| 0 <= j < w + 1 implies #[trigger] ps[j] == ts[j] by {
                    if j > 0 {
                        assert(ps[j] == ps1[j - 1]);
                        assert(ts[j] == ts1[j - 1]);
                    }
                }
                assert(ps[w + 1] == ps1[w]);
                assert(first_wildcard_at(ps, w + 1) && agree_before(ps, ts, w + 1));
            } else {
                assert(ps =~= seq![ps[0]] + ps1);
                assert(ts =~= seq![ts[0]] + ts1);
                assert forall|j: int| 0 <= j < ps.len() implies #[trigger] ps[j] != wildcard() by {
                    if j > 0 {
                        assert(ps[j] == ps1[j - 1]);
                    }
                }
            }
            assert(rhs);
        }
        if rhs {
            if exists|w: int| first_wildcard_at(ps, w) && agree_before(ps, ts, w) {
                let w = choose|w: int| first_wildcard_at(ps, w) && agree_before(ps, ts, w);
                assert(w != 0);
                assert(ps[0] == ts[0]);
                assert forall|j: int| 0 <= j < w - 1 implies #[trigger] ps1[j] != wildcard() by {
                    assert(ps1[j] == ps[j + 1]);
                }
                assert forall|j: int| 0 <= j < w - 1 implies #[trigger] ps1[j] == ts1[j] by {
                    assert(ps1[j] == ps[j + 1]);
                    assert(ts1[j] == ts[j + 1]);
                }
                assert(ps1[w - 1] == ps[w]);
                assert(first_wildcard_at(ps1, w - 1) && agree_before(ps1, ts1, w - 1));
            } else {
                assert(ps[0] == ts[0]);
                assert(ps1 =~= ts1);
                assert forall|j: int| 0 <= j < ps1.len() implies #[trigger] ps1[j] != wildcard() by {
                    assert(ps1[j] == ps[j + 1]);
                }
            }
            assert(segments_match(ps, ts));
        }
    }
}

/// What matching means, over the segments of the pattern and the topic: a
/// pattern whose first wildcard segment is at position `w` matches exactly
/// the topics with at least `w` segments whose first `w` segments are
/// those of the pattern; a pattern with no wildcard segment matches exactly
/// the topics with the same segments.
pub proof fn lemma_match_by_segments(pattern: Seq<char>, topic: Seq<char>)
    ensures
        ({
            let ps = split_on(pattern, spec_separator());
            let ts = split_on(topic, spec_separator());
            topic_matches(pattern, topic) <==> ((exists|w: int| first_wildcard_at(ps, w) && agree_before(ps, ts, w))
                || ((forall|j: int| 0 <= j < ps.len() ==> #[trigger] ps[j] != wildcard()) && ps == ts))
        }),
{
    lemma_segments_characterized(split_on(pattern, spec_separator()), split_on(topic, spec_separator()));
}

/// A pattern matches a topic only if every segment of the pattern before
/// its first wildcard segment equals the topic's segment at that position.
pub proof fn lemma_match_agrees_before_wildcard(pattern: Seq<char>, topic: Seq<char>, j: int)
    requires
        topic_matches(pattern, topic),
        0 <= j < split_on(pattern, spec_separator()).len(),
        forall|k: int| 0 <= k <= j ==> #[trigger] split_on(pattern, spec_separator())[k] != wildcard(),
    ensures
        j < split_on(topic, spec_separator()).len(),
        split_on(pattern, spec_separator())[j] == split_on(topic, spec_separator())[j],
{
    let ps = split_on(pattern, spec_separator());
    let ts = split_on(topic, spec_separator());
    lemma_match_by_segments(pattern, topic);
    if exists|w: int| first_wildcard_at(ps, w) && agree_before(ps, ts, w) {
        let w = choose|w: int| first_wildcard_at(ps, w) && agree_before(ps, ts, w);
        if w <= j {
            assert(ps[w] != wildcard());
        }
        assert(ps[j] == ts[j]);
    }
}

/// A channel topic such as `room:lobby`, or a pattern such as `room:*`.
#[derive(Debug, Hash, Eq, PartialEq, Clone)]
pub struct Topic(pub String);

impl View for Topic {
    type V = Seq<char>;

    open spec fn view(&self) -> Seq<char> {
        self.0@
    }
}

/// Splits the characters of `s` at `sep`.
fn split_chars(s: &Vec<char>, sep: char) -> (res: Vec<Vec<char>>)
    ensures
        res@.len() == split_on(s@, sep).len(),
        forall|k: int| 0 <= k < res@.len() ==> #[trigger] res@[k]@ == split_on(s@, sep)[k],
{
    let mut done: Vec<Vec<char>> = Vec::new();
    let mut cur: Vec<char> = Vec::new();
    let mut i: usize = 0;
    proof {
        assert(s@.take(0) =~= Seq::<char>::empty());
    }
    while i < s.len()
        invariant
            i <= s@.len(),
            done@.len() + 1 == split_on(s@.take(i as int), sep).len(),
            forall|k: int| 0 <= k < done@.len() ==> #[trigger] done@[k]@ == split_on(s@.take(i as int), sep)[k],
            cur@ == split_on(s@.take(i as int), sep).last(),
        decreases s@.len() - i,
    {
        let c = s[i];
        let ghost prev = s@.take(i as int);
        proof {
            assert(s@.take(i + 1).drop_last() =~= prev);
            assert(s@.take(i + 1).last() == c);
        }
        if c == sep {
            let finished = cur;
            done.push(finished);
            cur = Vec::new();
            proof {
                assert(cur@ =~= Seq::<char>::empty());
            }
        } else {
            cur.push(c);
        }
        i = i + 1;
    }
    proof {
        assert(s@.take(s@.len() as int) =~= s@);
    }
    let ghost before = done@;
    done.push(cur);
    proof {
        assert forall|k: int| 0 <= k < done@.len() implies #[trigger] done@[k]@ == split_on(s@, sep)[k] by {
            if k < before.len() {
                assert(done@[k] == before[k]);
            }
        }
    }
    done
}

impl Topic {
    /// Makes the topic `s`.
    pub fn new(s: &str) -> (res: Topic)
        ensures
            res@ == s@,
    {
        Topic(s.to_owned())
    }

    /// The topic as text.
    pub fn as_str(&self) -> (res: &str)
        ensures
            res@ == self@,
    {
        self.0.as_str()
    }

    /// A copy of this topic.
    pub fn duplicate(&self) -> (res: Topic)
        ensures
            res@ == self@,
    {
        Topic(self.0.clone())
    }

    /// Whether the two topics are the same text.
    pub fn same_as(&self, other: &Topic) -> (res: bool)
        ensures
            res == (self@ == other@),
    {
        self.0 == other.0
    }

    /// Whether this topic, read as a pattern, matches `topic`: the segments
    /// between `:` are compared in order, a `*` segment matches whatever
    /// follows it, and otherwise both must end together.
    pub fn is_match(&self, topic: &Topic) -> (res: bool)
        ensures
            res == topic_matches(self@, topic@),
    {
        let pattern_chars = chars_of(self.as_str());
        let topic_chars = chars_of(topic.as_str());
        let p = split_chars(&pattern_chars, ':');
        let t = split_chars(&topic_chars, ':');
        let ghost ps = split_on(self@, spec_separator());
        let ghost ts = split_on(topic@, spec_separator());
        let mut i: usize = 0;
        proof {
            assert(ps.skip(0) =~= ps);
            assert(ts.skip(0) =~= ts);
        }
        loop
            invariant
                p@.len() == ps.len(),
                t@.len() == ts.len(),
                forall|k: int| 0 <= k < p@.len() ==> #[trigger] p@[k]@ == ps[k],
                forall|k: int| 0 <= k < t@.len() ==> #[trigger] t@[k]@ == ts[k],
                i <= p@.len(),
                i <= t@.len(),
                topic_matches(self@, topic@) == segments_match(ps.skip(i as int), ts.skip(i as int)),
            decreases p@.len() - i,
        {
            let ghost pr = ps.skip(i as int);
            let ghost tr = ts.skip(i as int);
            if i == p.len() {
                return i == t.len();
            }
            assert(pr[0] == ps[i as int]);
            if is_wildcard(&p[i]) {
                return true;
            }
            if i == t.len() {
                return false;
            }
            assert(tr[0] == ts[i as int]);
            if !same_chars(&p[i], &t[i]) {
                return false;
            }
            assert(pr.drop_first() =~= ps.skip(i + 1));
            assert(tr.drop_first() =~= ts.skip(i + 1));
            i = i + 1;
        }
    }
}

impl<'a> From<&'a str> for Topic {
    fn from(s: &'a str) -> (res: Topic)
        ensures
            res@ == s@,
    {
        Topic::new(s)
    }
}

impl<'a> vstd::std_specs::convert::FromSpecImpl<&'a str> for Topic {
    open spec fn obeys_from_spec() -> bool {
        false
    }

    open spec fn from_spec(s: &'a str) -> Topic {
        arbitrary()
    }
}

impl core::ops::Deref for Topic {
    type Target = str;

    fn deref(&self) -> (res: &str)
        ensures
            res@ == self@,
    {
        self.0.as_str()
    }
}

/// Whether the segment is the wildcard `*`.
fn is_wildcard(seg: &Vec<char>) -> (res: bool)
    ensures
        res == (seg@ == wildcard()),
{
    let r = seg.len() == 1 && seg[0] == '*';
    proof {
        if seg@.len() == 1 && seg@[0] == '*' {
            assert(seg@ =~= wildcard());
        }
    }
    r
}

} // verus!
