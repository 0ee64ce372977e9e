//! Route patterns: what a pattern is, how it is read from text, and how a
//! request path is matched against it.
//!
//! A pattern is written like a path. Its pieces between `/` are its segments.
//! A segment that begins with `:` captures one piece of the path under the
//! name that follows the colon. A segment that begins with `*` captures the
//! whole rest of the path, separators included, under the name that follows
//! the star. Any other segment stands for itself.
//!
//! Two patterns are the same pattern when they have as many segments and,
//! segment by segment, the same kind and, for literals and parameters, the
//! same text. The name of a wildcard takes no part in the comparison.

use crate::text::{
    join, join_from, lemma_join_parts, lemma_join_split, lemma_split_pieces_hold_no_separator,
    same_text, split, split_text, texts,
};
use vstd::prelude::*;
use vstd::std_specs::cmp::PartialEqSpecImpl;
use vstd::string::StrSliceExecFns;
use vstd::string::StringExecFns;

verus! {

/// The character between the segments of a pattern and the pieces of a path.
pub const SEPARATOR: char = '/';

/// The character that opens a segment capturing one piece.
pub const PARAM_MARK: char = ':';

/// The character that opens a segment capturing the rest of the path.
pub const WILDCARD_MARK: char = '*';

/// One segment of a pattern.
#[derive(Clone, Debug)]
pub enum Segment {
    /// Matches the piece that equals this text.
    Literal(String),
    /// Matches any one piece and captures it under this name.
    Param(String),
    /// Matches all that is left of the path and captures it under this name.
    Wildcard(String),
}

/// A segment as a mathematical value.
pub enum SegmentView {
    Literal(Seq<char>),
    Param(Seq<char>),
    Wildcard(Seq<char>),
}

impl View for Segment {
    type V = SegmentView;

    open spec fn view(&self) -> SegmentView {
        match self {
            Segment::Literal(text) => SegmentView::Literal(text@),
            Segment::Param(name) => SegmentView::Param(name@),
            Segment::Wildcard(name) => SegmentView::Wildcard(name@),
        }
    }
}

/// A name bound to the text it captured.
pub type Binding = (Seq<char>, Seq<char>);

/// The segment that a piece of pattern text denotes.
pub open spec fn segment_of(piece: Seq<char>) -> SegmentView {
    if piece.len() > 0 && piece[0] == PARAM_MARK {
        SegmentView::Param(piece.skip(1))
    } else if piece.len() > 0 && piece[0] == WILDCARD_MARK {
        SegmentView::Wildcard(piece.skip(1))
    } else {
        SegmentView::Literal(piece)
    }
}

/// The segments that a pattern text denotes: one for each piece between
/// separators, in order.
pub open spec fn parse_pattern(pattern: Seq<char>) -> Seq<SegmentView> {
    let pieces = split(pattern, SEPARATOR);
    Seq::new(pieces.len(), |i: int| segment_of(pieces[i]))
}

/// Matching of the segments from index `i` on against the pieces from index
/// `i` on. Segments and pieces are paired position by position. A literal
/// needs an equal piece, a parameter takes any piece and binds it, and a
/// wildcard binds all pieces that are left, joined as they stood in the path,
/// and ends the match; it needs at least one piece to be left. Without a
/// wildcard the segments and the pieces must run out together. The result
/// lists the bindings in the order of their segments.
pub open spec fn match_from(segments: Seq<SegmentView>, pieces: Seq<Seq<char>>, i: int) -> Option<
    Seq<Binding>,
>
    decreases segments.len() - i,
{
    if i >= segments.len() {
        if i == pieces.len() {
            Some(Seq::empty())
        } else {
            None
        }
    } else if i >= pieces.len() {
        None
    } else {
        match segments[i] {
            SegmentView::Literal(text) => if pieces[i] == text {
                match_from(segments, pieces, i + 1)
            } else {
                None
            },
            SegmentView::Param(name) => match match_from(segments, pieces, i + 1) {
                Some(rest) => Some(seq![(name, pieces[i])] + rest),
                None => None,
            },
            SegmentView::Wildcard(name) => Some(seq![(name, join(pieces.skip(i), SEPARATOR))]),
        }
    }
}

/// The bindings that matching `path` against `segments` yields, or `None`
/// where the path does not match.
pub open spec fn match_path(segments: Seq<SegmentView>, path: Seq<char>) -> Option<Seq<Binding>> {
    match_from(segments, split(path, SEPARATOR), 0)
}

/// `front` followed by the bindings of `rest`, where there are any.
pub open spec fn prepend(front: Seq<Binding>, rest: Option<Seq<Binding>>) -> Option<Seq<Binding>> {
    match rest {
        Some(list) => Some(front + list),
        None => None,
    }
}

/// The index of the first wildcard among the segments from index `i` on, or
/// the number of segments where there is none.
pub open spec fn wildcard_from(segments: Seq<SegmentView>, i: int) -> int
    decreases segments.len() - i,
{
    if i >= segments.len() {
        segments.len() as int
    } else if segments[i] is Wildcard {
        i
    } else {
        wildcard_from(segments, i + 1)
    }
}

/// Whether the pieces of a path fit the segments of a pattern. Up to the
/// first wildcard every literal has an equal piece at its place. With a
/// wildcard there is at least one piece at its place or behind it; without
/// one there are as many pieces as segments.
pub open spec fn fits(segments: Seq<SegmentView>, pieces: Seq<Seq<char>>) -> bool {
    let w = wildcard_from(segments, 0);
    &&& if w < segments.len() {
        pieces.len() > w
    } else {
        pieces.len() == segments.len()
    }
    &&& forall|i: int|
        0 <= i < w ==> ((#[trigger] segments[i]) matches SegmentView::Literal(text) ==> pieces[i]
            == text)
}

/// What of a segment takes part in the comparison of patterns: its kind,
/// and its text where it is a literal or a parameter. The name of a wildcard
/// takes no part.
pub open spec fn key(segment: SegmentView) -> SegmentView {
    match segment {
        SegmentView::Wildcard(_) => SegmentView::Wildcard(Seq::empty()),
        other => other,
    }
}

/// What of a pattern takes part in the comparison of patterns: the key of
/// each segment, in order.
pub open spec fn pattern_key(segments: Seq<SegmentView>) -> Seq<SegmentView> {
    Seq::new(segments.len(), |i: int| key(segments[i]))
}

/// Whether two patterns are the same pattern: they have as many segments, and
/// segment by segment the same kind and, for literals and parameters, the
/// same text.
pub open spec fn same_pattern(a: Seq<SegmentView>, b: Seq<SegmentView>) -> bool {
    pattern_key(a) == pattern_key(b)
}

/// The name that a segment captures under, if it captures.
pub open spec fn captured_name(segment: SegmentView) -> Option<Seq<char>> {
    match segment {
        SegmentView::Literal(_) => None,
        SegmentView::Param(name) => Some(name),
        SegmentView::Wildcard(name) => Some(name),
    }
}

/// What makes a pattern well formed: a wildcard stands only as the last
/// segment, and no two segments capture under the same name.
pub open spec fn well_formed(segments: Seq<SegmentView>) -> bool {
    &&& forall|i: int| 0 <= i < segments.len() - 1 ==> !((#[trigger] segments[i]) is Wildcard)
    &&& forall|i: int, j: int|
        0 <= i < j < segments.len() && captured_name(segments[i]) is Some ==> captured_name(
            #[trigger] segments[i],
        ) != captured_name(#[trigger] segments[j])
}

/// The mapping that a list of bindings stands for. Where a name is bound more
/// than once, its first binding counts.
pub open spec fn bindings_map(bindings: Seq<Binding>) -> Map<Seq<char>, Seq<char>>
    decreases bindings.len(),
{
    if bindings.len() == 0 {
        Map::empty()
    } else {
        bindings_map(bindings.drop_first()).insert(bindings[0].0, bindings[0].1)
    }
}

/// A name that no binding before index `i` binds, and that the binding at `i`
/// does bind, maps to the text of that binding.
pub proof fn lemma_first_binding_counts(bindings: Seq<Binding>, name: Seq<char>, i: int)
    requires
        0 <= i < bindings.len(),
        bindings[i].0 == name,
        forall|j: int| 0 <= j < i ==> bindings[j].0 != name,
    ensures
        bindings_map(bindings).contains_key(name),
        bindings_map(bindings)[name] == bindings[i].1,
    decreases i,
{
    if i > 0 {
        let rest = bindings.drop_first();
        assert forall|j: int| 0 <= j < i - 1 implies rest[j].0 != name by {
            assert(rest[j] == bindings[j + 1]);
        }
        lemma_first_binding_counts(rest, name, i - 1);
    }
}

/// A name that no binding binds is not in the mapping.
pub proof fn lemma_unbound_name_is_absent(bindings: Seq<Binding>, name: Seq<char>)
    requires
        forall|j: int| 0 <= j < bindings.len() ==> bindings[j].0 != name,
    ensures
        !bindings_map(bindings).contains_key(name),
    decreases bindings.len(),
{
    if bindings.len() > 0 {
        let rest = bindings.drop_first();
        assert forall|j: int| 0 <= j < rest.len() implies rest[j].0 != name by {
            assert(rest[j] == bindings[j + 1]);
        }
        lemma_unbound_name_is_absent(rest, name);
    }
}

impl Segment {
    /// The name that the segment captures under, if it captures.
    pub fn name(&self) -> (name: Option<&str>)
        ensures
            match name {
                Some(text) => captured_name(self@) == Some(text@),
                None => captured_name(self@) is None,
            },
    {
        match self {
            Segment::Literal(_) => None,
            Segment::Param(name) => Some(name.as_str()),
            Segment::Wildcard(name) => Some(name.as_str()),
        }
    }

    /// Reads one segment from a piece of pattern text.
    pub fn read(piece: &str) -> (segment: Segment)
        ensures
            segment@ == segment_of(piece@),
    {
        let n = piece.unicode_len();
        if n > 0 && piece.get_char(0) == PARAM_MARK {
            Segment::Param(String::from_str(piece.substring_char(1, n)))
        } else if n > 0 && piece.get_char(0) == WILDCARD_MARK {
            Segment::Wildcard(String::from_str(piece.substring_char(1, n)))
        } else {
            Segment::Literal(String::from_str(piece))
        }
    }
}

impl PartialEq for Segment {
    /// Two segments are equal when they are of the same kind and, where they
    /// are literals or parameters, hold the same text. Two wildcards are
    /// equal whatever their names.
    fn eq(&self, other: &Segment) -> (r: bool) {
        match (self, other) {
            (Segment::Literal(a), Segment::Literal(b)) => *a == *b,
            (Segment::Param(a), Segment::Param(b)) => *a == *b,
            (Segment::Wildcard(_), Segment::Wildcard(_)) => true,
            _ => false,
        }
    }
}

impl PartialEqSpecImpl for Segment {
    open spec fn obeys_eq_spec() -> bool {
        true
    }

    open spec fn eq_spec(&self, other: &Segment) -> bool {
        key(self@) == key(other@)
    }
}

/// A route pattern: its segments in order.
#[derive(Clone, Debug)]
pub struct ParsedPath {
    segments: Vec<Segment>,
}

impl View for ParsedPath {
    type V = Seq<SegmentView>;

    closed spec fn view(&self) -> Seq<SegmentView> {
        Seq::new(self.segments@.len(), |i: int| self.segments@[i]@)
    }
}

/// What a successful match captured.
#[derive(Clone, Debug)]
pub struct PathMatch {
    captures: Vec<(String, String)>,
}

impl View for PathMatch {
    type V = Map<Seq<char>, Seq<char>>;

    /// The mapping from each captured name to the text it captured.
    open spec fn view(&self) -> Map<Seq<char>, Seq<char>> {
        bindings_map(self.bindings())
    }
}

impl PathMatch {
    /// The bindings in the order of the segments that made them.
    pub closed spec fn bindings(&self) -> Seq<Binding> {
        Seq::new(self.captures@.len(), |i: int| (self.captures@[i].0@, self.captures@[i].1@))
    }

    /// The text captured under `name`, if the match bound that name.
    pub fn get(&self, name: &str) -> (value: Option<&str>)
        ensures
            match value {
                Some(text) => self@.contains_key(name@) && self@[name@] == text@,
                None => !self@.contains_key(name@),
            },
    {
        let mut i: usize = 0;
        while i < self.captures.len()
            invariant
                i <= self.captures.len(),
                forall|j: int| 0 <= j < i ==> self.bindings()[j].0 != name@,
            decreases self.captures.len() - i,
        {
            if same_text(self.captures[i].0.as_str(), name) {
                proof {
                    lemma_first_binding_counts(self.bindings(), name@, i as int);
                }
                return Some(self.captures[i].1.as_str());
            }
            i += 1;
        }
        proof {
            lemma_unbound_name_is_absent(self.bindings(), name@);
        }
        None
    }

    /// The number of bindings.
    pub fn len(&self) -> (n: usize)
        ensures
            n == self.bindings().len(),
    {
        self.captures.len()
    }
}

impl ParsedPath {
    /// Reads a pattern from text.
    pub fn parse(pattern: &str) -> (path: ParsedPath)
        ensures
            path@ == parse_pattern(pattern@),
    {
        let pieces = split_text(pattern, SEPARATOR);
        let mut segments: Vec<Segment> = Vec::new();
        let mut i: usize = 0;
        while i < pieces.len()
            invariant
                i <= pieces.len(),
                texts(pieces@) == split(pattern@, SEPARATOR),
                segments@.len() == i,
                forall|j: int| 0 <= j < i ==> segments@[j]@ == segment_of(#[trigger] pieces@[j]@),
            decreases pieces.len() - i,
        {
            segments.push(Segment::read(pieces[i].as_str()));
            i += 1;
        }
        let path = ParsedPath { segments };
        assert(path@ =~= parse_pattern(pattern@)) by {
            assert forall|j: int| 0 <= j < pieces@.len() implies path@[j] == parse_pattern(
                pattern@,
            )[j] by {
                assert(texts(pieces@)[j] == pieces@[j]@);
            }
        }
        path
    }

    /// The number of segments.
    pub fn len(&self) -> (n: usize)
        ensures
            n == self@.len(),
    {
        self.segments.len()
    }

    /// Whether the pattern is well formed: a wildcard, if there is one, is
    /// the last segment, and no name is captured under twice.
    pub fn is_well_formed(&self) -> (r: bool)
        ensures
            r == well_formed(self@),
    {
        let n = self.segments.len();
        let mut j: usize = 0;
        while j < n
            invariant
                n == self.segments.len(),
                j <= n,
                forall|i: int| 0 <= i < j && i < n - 1 ==> !((#[trigger] self@[i]) is Wildcard),
                forall|a: int, b: int|
                    0 <= a < b < j && captured_name(self@[a]) is Some ==> captured_name(
                        #[trigger] self@[a],
                    ) != captured_name(#[trigger] self@[b]),
            decreases n - j,
        {
            assert(self@[j as int] == self.segments@[j as int]@);
            if j + 1 < n {
                if let Segment::Wildcard(_) = &self.segments[j] {
                    assert(self@[j as int] is Wildcard);
                    return false;
                }
            }
            if let Some(name) = self.segments[j].name() {
                let mut i: usize = 0;
                while i < j
                    invariant
                        n == self.segments.len(),
                        i <= j < n,
                        captured_name(self@[j as int]) == Some(name@),
                        forall|a: int|
                            0 <= a < i ==> captured_name(#[trigger] self@[a]) != captured_name(
                                self@[j as int],
                            ),
                    decreases j - i,
                {
                    assert(self@[i as int] == self.segments@[i as int]@);
                    if let Some(earlier) = self.segments[i].name() {
                        if same_text(earlier, name) {
                            assert(captured_name(self@[i as int]) == captured_name(self@[j as int]));
                            return false;
                        }
                    }
                    i += 1;
                }
            } else {
                assert(captured_name(self@[j as int]) is None);
            }
            j += 1;
        }
        true
    }

    /// The segments in order.
    pub fn segments(&self) -> (segments: &Vec<Segment>)
        ensures
            segments@.len() == self@.len(),
            forall|i: int| 0 <= i < segments@.len() ==> (#[trigger] segments@[i])@ == self@[i],
    {
        &self.segments
    }

    /// Matches a request path against the pattern.
    pub fn path_match(&self, path: &str) -> (found: Option<PathMatch>)
        ensures
            match found {
                Some(m) => match_path(self@, path@) == Some(m.bindings()),
                None => match_path(self@, path@) is None,
            },
    {
        let pieces = split_text(path, SEPARATOR);
        let mut captures: Vec<(String, String)> = Vec::new();
        let ghost all = texts(pieces@);
        let ghost mut bound: Seq<Binding> = Seq::empty();
        let mut i: usize = 0;
        while i < self.segments.len()
            invariant
                i <= self.segments.len(),
                i <= pieces.len(),
                all == texts(pieces@),
                all == split(path@, SEPARATOR),
                bound == Seq::new(captures@.len(), |k: int| (captures@[k].0@, captures@[k].1@)),
                match_from(self@, all, 0) == prepend(bound, match_from(self@, all, i as int)),
            decreases self.segments.len() - i,
        {
            if i >= pieces.len() {
                return None;
            }
            assert(all[i as int] == pieces@[i as int]@);
            assert(self@[i as int] == self.segments@[i as int]@);
            match &self.segments[i] {
                Segment::Literal(text) => {
                    if *text != pieces[i] {
                        return None;
                    }
                },
                Segment::Param(name) => {
                    captures.push((name.clone(), pieces[i].clone()));
                    proof {
                        let one = seq![(name@, all[i as int])];
                        let later = match_from(self@, all, i + 1);
                        if later is Some {
                            assert(bound + (one + later->0) == (bound + one) + later->0);
                        }
                        bound = bound + one;
                    }
                },
                Segment::Wildcard(name) => {
                    let rest = join_from(&pieces, i, SEPARATOR);
                    captures.push((name.clone(), rest));
                    let found = PathMatch { captures };
                    assert(found.bindings() =~= bound + seq![(name@, join(all.skip(i as int), SEPARATOR))]);
                    return Some(found);
                },
            }
            i += 1;
        }
        if i == pieces.len() {
            let found = PathMatch { captures };
            assert(found.bindings() =~= bound + Seq::<Binding>::empty());
            Some(found)
        } else {
            None
        }
    }
}

impl PartialEq for ParsedPath {
    /// Two patterns are equal when they are the same pattern: as many
    /// segments, and segment by segment the same kind and, for literals and
    /// parameters, the same text.
    fn eq(&self, other: &ParsedPath) -> (r: bool) {
        if self.segments.len() != other.segments.len() {
            assert(pattern_key(self@).len() != pattern_key(other@).len());
            return false;
        }
        let mut i: usize = 0;
        while i < self.segments.len()
            invariant
                i <= self.segments.len(),
                self.segments.len() == other.segments.len(),
                forall|j: int| 0 <= j < i ==> key(self@[j]) == key(other@[j]),
            decreases self.segments.len() - i,
        {
            assert(self@[i as int] == self.segments@[i as int]@);
            assert(other@[i as int] == other.segments@[i as int]@);
            if self.segments[i] != other.segments[i] {
                assert(pattern_key(self@)[i as int] != pattern_key(other@)[i as int]);
                return false;
            }
            i += 1;
        }
        assert(pattern_key(self@) =~= pattern_key(other@));
        true
    }
}

impl PartialEqSpecImpl for ParsedPath {
    open spec fn obeys_eq_spec() -> bool {
        true
    }

    open spec fn eq_spec(&self, other: &ParsedPath) -> bool {
        same_pattern(self@, other@)
    }
}

/// The first wildcard from `i` on stands at or behind `i`, no wildcard stands
/// between `i` and it, and it is the first from every index up to it.
proof fn lemma_wildcard_from(segments: Seq<SegmentView>, i: int)
    requires
        0 <= i <= segments.len(),
    ensures
        i <= wildcard_from(segments, i) <= segments.len(),
        wildcard_from(segments, i) < segments.len() ==> segments[wildcard_from(segments, i)]
            is Wildcard,
        forall|k: int| i <= k < wildcard_from(segments, i) ==> !((#[trigger] segments[k]) is Wildcard),
        forall|k: int|
            i <= k <= wildcard_from(segments, i) ==> #[trigger] wildcard_from(segments, k)
                == wildcard_from(segments, i),
    decreases segments.len() - i,
{
    if i < segments.len() && !(segments[i] is Wildcard) {
        lemma_wildcard_from(segments, i + 1);
    }
}

/// From index `i` on, the matching succeeds just when the pieces fit.
proof fn lemma_match_from_fits(segments: Seq<SegmentView>, pieces: Seq<Seq<char>>, i: int)
    requires
        0 <= i <= segments.len(),
        i <= pieces.len(),
    ensures
        match_from(segments, pieces, i) is Some <==> {
            let w = wildcard_from(segments, i);
            &&& if w < segments.len() {
                pieces.len() > w
            } else {
                pieces.len() == segments.len()
            }
            &&& forall|k: int|
                i <= k < w ==> ((#[trigger] segments[k]) matches SegmentView::Literal(text)
                    ==> pieces[k] == text)
        },
    decreases segments.len() - i,
{
    lemma_wildcard_from(segments, i);
    if i < segments.len() && i < pieces.len() && !(segments[i] is Wildcard) {
        lemma_match_from_fits(segments, pieces, i + 1);
        lemma_wildcard_from(segments, i + 1);
        let w = wildcard_from(segments, i);
        assert(wildcard_from(segments, i + 1) == w);
    }
}

/// A path matches a pattern just when its pieces fit the pattern's segments.
pub proof fn lemma_match_fits(segments: Seq<SegmentView>, path: Seq<char>)
    ensures
        match_path(segments, path) is Some <==> fits(segments, split(path, SEPARATOR)),
{
    lemma_match_from_fits(segments, split(path, SEPARATOR), 0);
}

/// In a match from index `i` on, the name of a capturing segment at index
/// `j`, not before `i`, maps to what belongs to that segment: the piece at
/// its place for a parameter, the joined rest for a wildcard.
proof fn lemma_capture_from(
    segments: Seq<SegmentView>,
    pieces: Seq<Seq<char>>,
    i: int,
    j: int,
)
    requires
        well_formed(segments),
        0 <= i <= j < segments.len(),
        match_from(segments, pieces, i) is Some,
        captured_name(segments[j]) is Some,
    ensures
        j < pieces.len(),
        bindings_map(match_from(segments, pieces, i)->0).contains_key(captured_name(segments[j])->0),
        bindings_map(match_from(segments, pieces, i)->0)[captured_name(segments[j])->0] == (
        if segments[j] is Param {
            pieces[j]
        } else {
            join(pieces.skip(j), SEPARATOR)
        }),
    decreases j - i,
{
    let found = match_from(segments, pieces, i)->0;
    let name = captured_name(segments[j])->0;
    if i == j {
        lemma_first_binding_counts(found, name, 0);
    } else {
        lemma_capture_from(segments, pieces, i + 1, j);
        let rest = match_from(segments, pieces, i + 1)->0;
        match segments[i] {
            SegmentView::Literal(_) => {},
            SegmentView::Param(other) => {
                assert(captured_name(segments[i]) != captured_name(segments[j]));
                assert(found.drop_first() == rest);
            },
            SegmentView::Wildcard(_) => {},
        }
    }
}

/// What a match against a well-formed pattern captures. The name of each
/// parameter maps to the piece of the path at the parameter's place, and that
/// piece holds no separator. The name of the wildcard maps to the rest of the
/// path: all that stands behind the separator that ends the pieces before it,
/// or the whole path where the wildcard is the first segment.
pub proof fn lemma_captures(segments: Seq<SegmentView>, path: Seq<char>, j: int)
    requires
        well_formed(segments),
        match_path(segments, path) is Some,
        0 <= j < segments.len(),
        captured_name(segments[j]) is Some,
    ensures
        j < split(path, SEPARATOR).len(),
        bindings_map(match_path(segments, path)->0).contains_key(captured_name(segments[j])->0),
        segments[j] is Param ==> {
            let value = bindings_map(match_path(segments, path)->0)[captured_name(segments[j])->0];
            &&& value == split(path, SEPARATOR)[j]
            &&& !value.contains(SEPARATOR)
        },
        segments[j] is Wildcard ==> {
            let value = bindings_map(match_path(segments, path)->0)[captured_name(segments[j])->0];
            &&& value == join(split(path, SEPARATOR).skip(j), SEPARATOR)
            &&& j == 0 ==> value == path
            &&& j > 0 ==> path == join(split(path, SEPARATOR).take(j), SEPARATOR).push(SEPARATOR)
                + value
        },
{
    let pieces = split(path, SEPARATOR);
    lemma_capture_from(segments, pieces, 0, j);
    lemma_join_split(path, SEPARATOR);
    lemma_split_pieces_hold_no_separator(path, SEPARATOR);
    if j == 0 {
        assert(pieces.skip(0) == pieces);
    } else {
        lemma_join_parts(pieces, j, SEPARATOR);
    }
}

} // verus!
