//! Topic filters: parsing subscription patterns and matching them against
//! concrete topics.
//!
//! A topic is a `/`-delimited UTF-8 byte string.  A filter is the same, except
//! that a segment may be the single-level wildcard `+` (matching exactly one
//! topic segment of any content) or, as the final segment only, the
//! multi-level wildcard `#` (matching zero or more trailing topic segments).

use vstd::prelude::*;

verus! {

/// Byte value of `/`, the segment separator.
pub const SLASH: u8 = 47;

/// Byte value of `#`, the multi-level wildcard.
pub const HASH: u8 = 35;

/// Byte value of `+`, the single-level wildcard.
pub const PLUS: u8 = 43;

/// One parsed segment of a subscription pattern.
#[derive(Debug, Clone, PartialEq, Eq)]
pub enum FilterSegment {
    /// Matches exactly the same topic segment.
    Literal(Vec<u8>),
    /// `+`: matches exactly one topic segment of any content.
    SingleWildcard,
    /// `#`: matches all remaining topic segments, including none.
    MultiWildcard,
}

/// The segments of `s` split on `/`.  Splitting the empty string gives one
/// empty segment, and every separator opens a new segment, so
/// `a//b` has segments `a`, `` and `b`.
pub open spec fn split_segments(s: Seq<u8>) -> Seq<Seq<u8>>
    decreases s.len(),
{
    if s.len() == 0 {
        seq![Seq::<u8>::empty()]
    } else if s[0] == SLASH {
        seq![Seq::<u8>::empty()] + split_segments(s.skip(1))
    } else {
        let rest = split_segments(s.skip(1));
        seq![seq![s[0]] + rest[0]] + rest.skip(1)
    }
}

pub proof fn lemma_split_segments_nonempty(s: Seq<u8>)
    ensures
        split_segments(s).len() >= 1,
    decreases s.len(),
{
    if s.len() != 0 {
        lemma_split_segments_nonempty(s.skip(1));
    }
}

/// The views of a sequence of byte vectors.
pub open spec fn views(v: Seq<Vec<u8>>) -> Seq<Seq<u8>> {
    Seq::new(v.len(), |i: int| v[i]@)
}

/// Splits a topic or pattern into its `/`-delimited segments.
pub fn split_topic(s: &[u8]) -> (r: Vec<Vec<u8>>)
    ensures
        views(r@) == split_segments(s@),
{
    let mut segs: Vec<Vec<u8>> = Vec::new();
    let mut cur: Vec<u8> = Vec::new();
    let mut i: usize = 0;
    proof {
        lemma_split_segments_nonempty(s@);
        assert(s@.skip(0) =~= s@);
        assert(Seq::<u8>::empty() + split_segments(s@)[0] =~= split_segments(s@)[0]);
        assert(prepend_first(Seq::<u8>::empty(), split_segments(s@)) =~= split_segments(s@));
        assert(views(segs@) =~= Seq::<Seq<u8>>::empty());
    }
    while i < s.len()
        invariant
            0 <= i <= s@.len(),
            split_segments(s@) =~= views(segs@) + prepend_first(cur@, split_segments(s@.skip(i as int))),
        decreases s@.len() - i,
    {
        proof {
            lemma_split_segments_nonempty(s@.skip(i as int + 1));
            assert(s@.skip(i as int).skip(1) =~= s@.skip(i as int + 1));
            assert(s@.skip(i as int)[0] == s@[i as int]);
        }
        let ghost old_segs = segs@;
        let ghost old_cur = cur@;
        if s[i] == SLASH {
            segs.push(cur);
            cur = Vec::new();
            proof {
                assert(views(segs@) =~= views(old_segs).push(old_cur));
                assert(split_segments(s@.skip(i as int)) =~= seq![Seq::<u8>::empty()]
                    + split_segments(s@.skip(i as int + 1)));
                assert(prepend_first(old_cur, split_segments(s@.skip(i as int)))
                    =~= seq![old_cur] + split_segments(s@.skip(i as int + 1)));
                assert(views(segs@) + prepend_first(cur@, split_segments(s@.skip(i as int + 1)))
                    =~= views(old_segs) + prepend_first(old_cur, split_segments(s@.skip(i as int))));
            }
        } else {
            cur.push(s[i]);
            proof {
                let rest = split_segments(s@.skip(i as int + 1));
                assert(split_segments(s@.skip(i as int))
                    =~= seq![seq![s@[i as int]] + rest[0]] + rest.skip(1));
                assert(old_cur + (seq![s@[i as int]] + rest[0]) =~= cur@ + rest[0]);
                assert(prepend_first(old_cur, split_segments(s@.skip(i as int)))
                    =~= prepend_first(cur@, rest));
            }
        }
        i += 1;
    }
    proof {
        assert(s@.skip(i as int) =~= Seq::<u8>::empty());
        assert(prepend_first(cur@, split_segments(s@.skip(i as int))) =~= seq![cur@]);
    }
    segs.push(cur);
    proof {
        assert(views(segs@) =~= split_segments(s@));
    }
    segs
}

/// `ss` with `c` glued onto the front of its first element; `ss` must not be
/// empty for this to be meaningful.
pub open spec fn prepend_first(c: Seq<u8>, ss: Seq<Seq<u8>>) -> Seq<Seq<u8>> {
    seq![c + ss[0]] + ss.skip(1)
}

/// Whether the filter segments `fs` match the topic segments `ts`, walking
/// both in lockstep: a literal needs an equal topic segment, the single-level
/// wildcard consumes exactly one topic segment of any content, the
/// multi-level wildcard accepts everything that remains (including nothing),
/// and an exhausted filter accepts only an exhausted topic.
pub open spec fn segments_match(fs: Seq<FilterSegment>, ts: Seq<Seq<u8>>) -> bool
    decreases fs.len(),
{
    if fs.len() == 0 {
        ts.len() == 0
    } else {
        match fs[0] {
            FilterSegment::MultiWildcard => true,
            FilterSegment::SingleWildcard => ts.len() > 0 && segments_match(
                fs.skip(1),
                ts.skip(1),
            ),
            FilterSegment::Literal(l) => ts.len() > 0 && l@ == ts[0] && segments_match(
                fs.skip(1),
                ts.skip(1),
            ),
        }
    }
}

/// A segment's text is acceptable in a pattern: the wildcard tokens stand
/// alone, and a literal segment contains no wildcard byte.
pub open spec fn valid_segment_text(t: Seq<u8>) -> bool {
    t == seq![HASH] || t == seq![PLUS] || (!t.contains(HASH) && !t.contains(PLUS))
}

/// A pattern is well formed when every segment is acceptable and the
/// multi-level wildcard, if present, is the final segment.
pub open spec fn valid_pattern(p: Seq<u8>) -> bool {
    let segs = split_segments(p);
    (forall|k: int| 0 <= k < segs.len() ==> valid_segment_text(#[trigger] segs[k]))
        && (forall|k: int|
        0 <= k < segs.len() && #[trigger] segs[k] == seq![HASH] ==> k == segs.len() - 1)
}

/// `seg` is the parsed form of the pattern segment `t`.
pub open spec fn segment_represents(seg: FilterSegment, t: Seq<u8>) -> bool {
    match seg {
        FilterSegment::MultiWildcard => t == seq![HASH],
        FilterSegment::SingleWildcard => t == seq![PLUS],
        FilterSegment::Literal(l) => l@ == t && t != seq![HASH] && t != seq![PLUS],
    }
}

/// `fs` is the parsed form of the pattern segments `ts`, one for one.
pub open spec fn segments_represent(fs: Seq<FilterSegment>, ts: Seq<Seq<u8>>) -> bool {
    fs.len() == ts.len() && forall|k: int|
        0 <= k < fs.len() ==> segment_represents(#[trigger] fs[k], ts[k])
}

/// The error a malformed subscription pattern is rejected with.
#[derive(Debug, Clone, PartialEq, Eq)]
pub enum FilterError {
    /// `#` stands anywhere but last, or a wildcard byte occurs inside a
    /// longer segment.
    InvalidFilter,
}

/// A parsed, immutable subscription pattern.
#[derive(Debug, Clone, PartialEq, Eq)]
pub struct TopicFilter {
    /// The literal pattern text the filter was parsed from, kept for
    /// subscription requests.
    pub pattern: Vec<u8>,
    /// The parsed segments.
    pub segments: Vec<FilterSegment>,
}

impl TopicFilter {
    /// A filter is well formed when its pattern is a valid one and its
    /// segments are the pattern's parsed form.
    pub open spec fn wf(self) -> bool {
        valid_pattern(self.pattern@) && segments_represent(
            self.segments@,
            split_segments(self.pattern@),
        )
    }

    /// Whether this filter accepts the topic.
    pub open spec fn spec_matches(self, topic: Seq<u8>) -> bool {
        segments_match(self.segments@, split_segments(topic))
    }

    /// Parses a subscription pattern.  Returns `InvalidFilter` exactly when
    /// the pattern is malformed: `#` somewhere other than the final segment,
    /// or a wildcard byte inside a longer segment.
    pub fn parse(pattern: &[u8]) -> (r: Result<TopicFilter, FilterError>)
        ensures
            r is Ok <==> valid_pattern(pattern@),
            r matches Ok(f) ==> f.pattern@ == pattern@ && f.wf(),
    {
        let texts = split_topic(pattern);
        let ghost segs = split_segments(pattern@);
        let mut parsed: Vec<FilterSegment> = Vec::new();
        let mut i: usize = 0;
        while i < texts.len()
            invariant
                0 <= i <= texts@.len(),
                segs == split_segments(pattern@),
                views(texts@) == segs,
                parsed@.len() == i,
                forall|k: int|
                    0 <= k < i ==> valid_segment_text(#[trigger] segs[k]) && segment_represents(
                        parsed@[k],
                        segs[k],
                    ),
                forall|k: int|
                    0 <= k < i && #[trigger] segs[k] == seq![HASH] ==> k == texts@.len() - 1,
            decreases texts@.len() - i,
        {
            let t = &texts[i];
            proof {
                assert(views(texts@)[i as int] == texts@[i as int]@);
                assert(segs[i as int] == t@);
            }
            if t.len() == 1 && t[0] == HASH {
                proof {
                    assert(t@ =~= seq![HASH]);
                }
                parsed.push(FilterSegment::MultiWildcard);
                proof {
                    assert(segment_represents(parsed@[i as int], segs[i as int]));
                }
            } else if t.len() == 1 && t[0] == PLUS {
                proof {
                    assert(t@ =~= seq![PLUS]);
                }
                parsed.push(FilterSegment::SingleWildcard);
                proof {
                    assert(segment_represents(parsed@[i as int], segs[i as int]));
                }
            } else {
                proof {
                    assert(t@ != seq![HASH]) by {
                        if t@ == seq![HASH] {
                            assert(t@.len() == 1 && t@[0] == HASH);
                        }
                    }
                    assert(t@ != seq![PLUS]) by {
                        if t@ == seq![PLUS] {
                            assert(t@.len() == 1 && t@[0] == PLUS);
                        }
                    }
                }
                if contains_wildcard_byte(t.as_slice()) {
                    proof {
                        assert(!valid_segment_text(segs[i as int]));
                        assert(segs.len() == texts@.len());
                        assert(!valid_pattern(pattern@)) by {
                            if valid_pattern(pattern@) {
                                assert(valid_segment_text(split_segments(pattern@)[i as int]));
                            }
                        }
                    }
                    return Err(FilterError::InvalidFilter);
                }
                parsed.push(FilterSegment::Literal(slice_to_vec(t.as_slice())));
                proof {
                    assert(segment_represents(parsed@[i as int], segs[i as int]));
                }
            }
            // `#` parsed anywhere but the final position rejects the pattern.
            if i + 1 < texts.len() {
                let last = &parsed[i];
                if matches!(last, FilterSegment::MultiWildcard) {
                    proof {
                        assert(segment_represents(parsed@[i as int], segs[i as int]));
                        assert(segs[i as int] == seq![HASH]);
                        assert(segs.len() == texts@.len());
                        assert(!valid_pattern(pattern@)) by {
                            if valid_pattern(pattern@) {
                                assert(split_segments(pattern@)[i as int] == seq![HASH]);
                                assert(i as int == split_segments(pattern@).len() - 1);
                            }
                        }
                    }
                    return Err(FilterError::InvalidFilter);
                }
            }
            proof {
                if segs[i as int] == seq![HASH] {
                    assert(segment_represents(parsed@[i as int], segs[i as int]));
                    assert(parsed@[i as int] == FilterSegment::MultiWildcard);
                    assert(i as int == texts@.len() - 1);
                }
            }
            i += 1;
        }
        let filter = TopicFilter { pattern: slice_to_vec(pattern), segments: parsed };
        proof {
            lemma_split_segments_nonempty(pattern@);
            assert(valid_pattern(pattern@));
            assert(filter.wf());
        }
        Ok(filter)
    }

    /// Whether this filter accepts the topic.
    pub fn matches(&self, topic: &[u8]) -> (r: bool)
        ensures
            r == self.spec_matches(topic@),
    {
        let ts = split_topic(topic);
        let r = matches_from(&self.segments, &ts, 0, 0);
        proof {
            assert(self.segments@.skip(0) =~= self.segments@);
            assert(views(ts@).skip(0) =~= views(ts@));
        }
        r
    }
}

/// Whether the segment text holds a wildcard byte anywhere.
fn contains_wildcard_byte(t: &[u8]) -> (r: bool)
    ensures
        r == (t@.contains(HASH) || t@.contains(PLUS)),
{
    let mut j: usize = 0;
    while j < t.len()
        invariant
            0 <= j <= t@.len(),
            forall|k: int| 0 <= k < j ==> t@[k] != HASH && t@[k] != PLUS,
        decreases t@.len() - j,
    {
        if t[j] == HASH || t[j] == PLUS {
            proof {
                if t@[j as int] == HASH {
                    assert(t@.contains(HASH));
                } else {
                    assert(t@.contains(PLUS));
                }
            }
            return true;
        }
        j += 1;
    }
    proof {
        assert(!t@.contains(HASH) && !t@.contains(PLUS));
    }
    false
}

/// Copies a byte slice into an owned vector.
pub fn slice_to_vec(s: &[u8]) -> (r: Vec<u8>)
    ensures
        r@ == s@,
{
    let mut v: Vec<u8> = Vec::new();
    v.extend_from_slice(s);
    proof {
        assert(v@ =~= s@);
    }
    v
}

/// Byte-for-byte equality of two slices.
pub fn bytes_eq(a: &[u8], b: &[u8]) -> (r: bool)
    ensures
        r == (a@ == b@),
{
    if a.len() != b.len() {
        proof {
            assert(a@ != b@);
        }
        return false;
    }
    let mut i: usize = 0;
    while i < a.len()
        invariant
            0 <= i <= a@.len(),
            a@.len() == b@.len(),
            forall|k: int| 0 <= k < i ==> a@[k] == b@[k],
        decreases a@.len() - i,
    {
        if a[i] != b[i] {
            return false;
        }
        i += 1;
    }
    proof {
        assert(a@ =~= b@);
    }
    true
}

/// The lockstep walk of `segments_match`, from position `i` in the filter and
/// `j` in the topic.
fn matches_from(fs: &Vec<FilterSegment>, ts: &Vec<Vec<u8>>, i: usize, j: usize) -> (r: bool)
    requires
        i <= fs@.len(),
        j <= ts@.len(),
    ensures
        r == segments_match(fs@.skip(i as int), views(ts@).skip(j as int)),
    decreases fs@.len() - i,
{
    proof {
        assert(views(ts@).len() == ts@.len());
    }
    if i == fs.len() {
        proof {
            assert(fs@.skip(i as int) =~= Seq::<FilterSegment>::empty());
        }
        j == ts.len()
    } else {
        proof {
            assert(fs@.skip(i as int)[0] == fs@[i as int]);
            assert(fs@.skip(i as int).skip(1) =~= fs@.skip(i as int + 1));
            if j < ts@.len() {
                assert(views(ts@).skip(j as int)[0] == ts@[j as int]@);
                assert(views(ts@).skip(j as int).skip(1) =~= views(ts@).skip(j as int + 1));
            }
        }
        match &fs[i] {
            FilterSegment::MultiWildcard => true,
            FilterSegment::SingleWildcard => j < ts.len() && matches_from(fs, ts, i + 1, j + 1),
            FilterSegment::Literal(l) => j < ts.len() && bytes_eq(l.as_slice(), ts[j].as_slice())
                && matches_from(fs, ts, i + 1, j + 1),
        }
    }
}

/// A pattern ending in the multi-level wildcard matches every topic that
/// shares its non-wildcard prefix, whatever stands beyond that prefix —
/// including nothing at all.
pub proof fn lemma_multi_wildcard_matches_prefix(f: TopicFilter, topic: Seq<u8>)
    requires
        f.segments@.len() > 0,
        f.segments@.last() == FilterSegment::MultiWildcard,
        split_segments(topic).len() >= f.segments@.len() - 1,
        forall|k: int|
            0 <= k < f.segments@.len() - 1 ==> segment_accepts(
                #[trigger] f.segments@[k],
                split_segments(topic)[k],
            ),
    ensures
        f.spec_matches(topic),
{
    lemma_match_up_to(f.segments@, split_segments(topic), 0);
    assert(f.segments@.skip(0) =~= f.segments@);
    assert(split_segments(topic).skip(0) =~= split_segments(topic));
}

/// One filter segment accepts one topic segment on its own: a literal asks
/// for equality, either wildcard accepts any content.
pub open spec fn segment_accepts(seg: FilterSegment, t: Seq<u8>) -> bool {
    match seg {
        FilterSegment::Literal(l) => l@ == t,
        FilterSegment::SingleWildcard => true,
        FilterSegment::MultiWildcard => true,
    }
}

proof fn lemma_match_up_to(fs: Seq<FilterSegment>, ts: Seq<Seq<u8>>, k: int)
    requires
        fs.len() > 0,
        fs.last() == FilterSegment::MultiWildcard,
        ts.len() >= fs.len() - 1,
        0 <= k <= fs.len() - 1,
        forall|m: int| 0 <= m < fs.len() - 1 ==> segment_accepts(#[trigger] fs[m], ts[m]),
    ensures
        segments_match(fs.skip(k), ts.skip(k)),
    decreases fs.len() - k,
{
    if k == fs.len() - 1 {
        assert(fs.skip(k)[0] == fs[k]);
        assert(fs[k] == FilterSegment::MultiWildcard);
    } else {
        lemma_match_up_to(fs, ts, k + 1);
        assert(fs.skip(k)[0] == fs[k]);
        assert(fs.skip(k).skip(1) =~= fs.skip(k + 1));
        assert(ts.skip(k).skip(1) =~= ts.skip(k + 1));
        assert(ts.skip(k)[0] == ts[k]);
        assert(segment_accepts(fs[k], ts[k]));
    }
}

/// The single-level wildcard consumes exactly one topic segment: with it at
/// the head of the filter, a match asks for at least one topic segment and
/// continues past exactly that one; an exhausted topic never matches.
pub proof fn lemma_single_wildcard_consumes_exactly_one(fs: Seq<FilterSegment>, ts: Seq<Seq<u8>>)
    requires
        fs.len() > 0,
        fs[0] == FilterSegment::SingleWildcard,
    ensures
        segments_match(fs, ts) <==> (ts.len() > 0 && segments_match(fs.skip(1), ts.skip(1))),
        ts.len() == 0 ==> !segments_match(fs, ts),
{
}

/// The topic segment the single-level wildcard consumes may hold any content:
/// replacing it changes nothing about the match.
pub proof fn lemma_single_wildcard_any_content(
    fs: Seq<FilterSegment>,
    ts: Seq<Seq<u8>>,
    c: Seq<u8>,
)
    requires
        fs.len() > 0,
        fs[0] == FilterSegment::SingleWildcard,
        ts.len() > 0,
    ensures
        segments_match(fs, ts) == segments_match(fs, seq![c] + ts.skip(1)),
{
    assert((seq![c] + ts.skip(1)).skip(1) =~= ts.skip(1));
}

/// A filter made of a single-level wildcard alone matches exactly the topics
/// of one segment — never zero, never two or more.
pub proof fn lemma_single_wildcard_exactly_one_segment(ts: Seq<Seq<u8>>)
    ensures
        segments_match(seq![FilterSegment::SingleWildcard], ts) <==> ts.len() == 1,
{
    let fs = seq![FilterSegment::SingleWildcard];
    if ts.len() > 0 {
        assert(fs.skip(1) =~= Seq::<FilterSegment>::empty());
        assert(segments_match(fs.skip(1), ts.skip(1)) <==> ts.skip(1).len() == 0);
    }
}

} // verus!
