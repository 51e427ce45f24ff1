//! Path templates and their compiler.
//!
//! A path pattern such as `/items/{id}` or `/files/{path+}` is compiled once
//! into a sequence of segments. The compiler rejects patterns that could not
//! be matched unambiguously: a greedy label anywhere but at the end, a label
//! name used twice, an empty segment, a brace out of place.

use vstd::prelude::*;
use vstd::string::*;

use crate::method::Method;
use crate::text::{
    bytes_eq, contains_byte, copy_range, lemma_split_pieces_slash_free, pieces_view, slash_free,
    split_range, split_slash, SLASH,
};

verus! {

/// The byte `{`.
pub const OPEN_BRACE: u8 = 0x7b;

/// The byte `}`.
pub const CLOSE_BRACE: u8 = 0x7d;

/// The byte `+`.
pub const PLUS: u8 = 0x2b;

/// Identifies the operation that a route leads to. The router never looks
/// inside it.
#[derive(Clone, Copy, Debug, PartialEq, Eq, Structural)]
pub struct OperationId(pub u64);

/// One atom of a path template.
#[derive(Clone, Debug, PartialEq, Eq)]
pub enum Segment {
    /// Matches the path segment that equals the text.
    Literal(Vec<u8>),
    /// Matches any one non-empty path segment and binds it to the name.
    Label(Vec<u8>),
    /// Matches one or more trailing path segments and binds them to the name.
    Greedy(Vec<u8>),
}

/// Mathematical model of [`Segment`].
pub ghost enum SegmentSpec {
    Literal(Seq<u8>),
    Label(Seq<u8>),
    Greedy(Seq<u8>),
}

impl View for Segment {
    type V = SegmentSpec;

    open spec fn view(&self) -> SegmentSpec {
        match self {
            Segment::Literal(text) => SegmentSpec::Literal(text@),
            Segment::Label(name) => SegmentSpec::Label(name@),
            Segment::Greedy(name) => SegmentSpec::Greedy(name@),
        }
    }
}

impl SegmentSpec {
    /// The literal text, or the label's name.
    pub open spec fn text(self) -> Seq<u8> {
        match self {
            SegmentSpec::Literal(text) => text,
            SegmentSpec::Label(name) => name,
            SegmentSpec::Greedy(name) => name,
        }
    }

    /// Whether the segment binds a value to a name.
    pub open spec fn binds(self) -> bool {
        !(self is Literal)
    }

    /// A literal is non-empty and holds no `/`; a name is non-empty.
    pub open spec fn wf(self) -> bool {
        &&& self.text().len() > 0
        &&& self is Literal ==> slash_free(self.text())
    }
}

/// The models of a vector of segments.
pub open spec fn segments_view(v: Seq<Segment>) -> Seq<SegmentSpec> {
    Seq::new(v.len(), |i: int| v[i]@)
}

/// Whether some segment binds `name`.
pub open spec fn binds_name(segments: Seq<SegmentSpec>, name: Seq<u8>) -> bool {
    exists|i: int| 0 <= i < segments.len() && (#[trigger] segments[i]).binds() && segments[i].text() == name
}

/// The invariant of a compiled template: every segment is well formed, only
/// the last segment may be greedy, and no name is bound twice.
pub open spec fn wf_segments(segments: Seq<SegmentSpec>) -> bool {
    &&& forall|i: int| 0 <= i < segments.len() ==> (#[trigger] segments[i]).wf()
    &&& forall|i: int| 0 <= i < segments.len() - 1 ==> !((#[trigger] segments[i]) is Greedy)
    &&& forall|i: int, j: int|
        0 <= i < j < segments.len() && (#[trigger] segments[i]).binds() && (#[trigger] segments[j]).binds()
            ==> segments[i].text() != segments[j].text()
}

/// Why a path pattern was refused.
#[derive(Clone, Copy, Debug, PartialEq, Eq, Structural)]
pub enum TemplateDefect {
    /// The pattern does not begin with `/`.
    MissingLeadingSlash,
    /// Two `/` in a row, or a `/` at the end of a pattern other than `/`.
    EmptySegment,
    /// A `{` or `}` inside a literal or inside a label's name.
    StrayBrace,
    /// `{}` or `{+}`.
    EmptyLabelName,
    /// A segment follows a greedy label.
    GreedyNotLast,
    /// A label name occurs twice.
    DuplicateLabel,
}

/// Why a route table could not be built.
#[derive(Clone, Debug, PartialEq, Eq)]
pub enum BuildError {
    /// A path pattern was refused by the compiler.
    InvalidTemplate(TemplateDefect),
    /// Two templates of the same method can match the same path without
    /// either taking precedence. The templates are named by their positions
    /// in the list that was handed in and by their patterns.
    Ambiguous { first: usize, second: usize, first_pattern: String, second_pattern: String },
}

/// Mathematical model of [`BuildError`].
pub ghost enum BuildErrorSpec {
    InvalidTemplate(TemplateDefect),
    Ambiguous { first: int, second: int, first_pattern: Seq<char>, second_pattern: Seq<char> },
}

impl View for BuildError {
    type V = BuildErrorSpec;

    open spec fn view(&self) -> BuildErrorSpec {
        match self {
            BuildError::InvalidTemplate(defect) => BuildErrorSpec::InvalidTemplate(*defect),
            BuildError::Ambiguous { first, second, first_pattern, second_pattern } => {
                BuildErrorSpec::Ambiguous {
                    first: *first as int,
                    second: *second as int,
                    first_pattern: first_pattern@,
                    second_pattern: second_pattern@,
                }
            },
        }
    }
}

impl TemplateDefect {
    /// What is wrong with the pattern, in words.
    pub open spec fn description(self) -> Seq<char> {
        match self {
            TemplateDefect::MissingLeadingSlash => "the pattern does not begin with '/'"@,
            TemplateDefect::EmptySegment => "the pattern has an empty segment"@,
            TemplateDefect::StrayBrace => "a brace stands inside a literal or a label name"@,
            TemplateDefect::EmptyLabelName => "a label has no name"@,
            TemplateDefect::GreedyNotLast => "a segment follows a greedy label"@,
            TemplateDefect::DuplicateLabel => "a label name is used twice"@,
        }
    }

    /// What is wrong with the pattern, in words.
    pub fn describe(&self) -> (text: &'static str)
        ensures
            text@ == self.description(),
    {
        match self {
            TemplateDefect::MissingLeadingSlash => "the pattern does not begin with '/'",
            TemplateDefect::EmptySegment => "the pattern has an empty segment",
            TemplateDefect::StrayBrace => "a brace stands inside a literal or a label name",
            TemplateDefect::EmptyLabelName => "a label has no name",
            TemplateDefect::GreedyNotLast => "a segment follows a greedy label",
            TemplateDefect::DuplicateLabel => "a label name is used twice",
        }
    }
}

impl BuildErrorSpec {
    /// The error in words. An ambiguity is reported with the patterns of
    /// both templates.
    pub open spec fn description(self) -> Seq<char> {
        match self {
            BuildErrorSpec::InvalidTemplate(defect) => "invalid path template: "@
                + defect.description(),
            BuildErrorSpec::Ambiguous { first_pattern, second_pattern, .. } => "ambiguous routes: "@
                + first_pattern + " and "@ + second_pattern + " can match the same path"@,
        }
    }
}

impl BuildError {
    /// The error in words.
    pub fn describe(&self) -> (text: String)
        ensures
            text@ == self@.description(),
    {
        match self {
            BuildError::InvalidTemplate(defect) => {
                let mut text = String::from_str("invalid path template: ");
                text.append(defect.describe());
                text
            },
            BuildError::Ambiguous { first_pattern, second_pattern, .. } => {
                let mut text = String::from_str("ambiguous routes: ");
                text.append(first_pattern.as_str());
                text.append(" and ");
                text.append(second_pattern.as_str());
                text.append(" can match the same path");
                text
            },
        }
    }
}

/// Whether `s` holds a brace.
pub open spec fn has_brace(s: Seq<u8>) -> bool {
    s.contains(OPEN_BRACE) || s.contains(CLOSE_BRACE)
}

/// Whether a pattern piece is written as a label: `{...}`.
pub open spec fn label_form(piece: Seq<u8>) -> bool {
    piece.len() >= 2 && piece.first() == OPEN_BRACE && piece.last() == CLOSE_BRACE
}

/// The segment that one piece of a pattern denotes, or its defect.
pub open spec fn parse_piece(piece: Seq<u8>) -> Result<SegmentSpec, TemplateDefect> {
    if piece.len() == 0 {
        Err(TemplateDefect::EmptySegment)
    } else if label_form(piece) {
        let inner = piece.subrange(1, piece.len() - 1);
        let greedy = inner.len() > 0 && inner.last() == PLUS;
        let name = if greedy {
            inner.drop_last()
        } else {
            inner
        };
        if name.len() == 0 {
            Err(TemplateDefect::EmptyLabelName)
        } else if has_brace(name) {
            Err(TemplateDefect::StrayBrace)
        } else if greedy {
            Ok(SegmentSpec::Greedy(name))
        } else {
            Ok(SegmentSpec::Label(name))
        }
    } else if has_brace(piece) {
        Err(TemplateDefect::StrayBrace)
    } else {
        Ok(SegmentSpec::Literal(piece))
    }
}

/// The segments denoted by the first `k` pieces, or the first defect met
/// when the pieces are read from left to right. At each piece a preceding
/// greedy label is reported first, then the piece's own defect, then a
/// repeated name.
pub open spec fn parse_pieces(pieces: Seq<Seq<u8>>, k: nat) -> Result<Seq<SegmentSpec>, TemplateDefect>
    decreases k,
{
    if k == 0 {
        Ok(Seq::<SegmentSpec>::empty())
    } else {
        match parse_pieces(pieces, (k - 1) as nat) {
            Err(defect) => Err(defect),
            Ok(segments) => if segments.len() > 0 && segments.last() is Greedy {
                Err(TemplateDefect::GreedyNotLast)
            } else {
                match parse_piece(pieces[k - 1]) {
                    Err(defect) => Err(defect),
                    Ok(segment) => if segment.binds() && binds_name(segments, segment.text()) {
                        Err(TemplateDefect::DuplicateLabel)
                    } else {
                        Ok(segments.push(segment))
                    },
                }
            },
        }
    }
}

/// The pieces of a pattern: what stands between the `/` after the leading
/// one. The pattern `/` has no pieces. `None` where the leading `/` is
/// missing.
pub open spec fn pattern_pieces(pattern: Seq<u8>) -> Option<Seq<Seq<u8>>> {
    if pattern.len() == 0 || pattern[0] != SLASH {
        None
    } else if pattern.len() == 1 {
        Some(Seq::<Seq<u8>>::empty())
    } else {
        Some(split_slash(pattern.skip(1)))
    }
}

/// The segments that a pattern compiles to, or the defect it is refused for.
pub open spec fn compile_spec(pattern: Seq<u8>) -> Result<Seq<SegmentSpec>, TemplateDefect> {
    match pattern_pieces(pattern) {
        None => Err(TemplateDefect::MissingLeadingSlash),
        Some(pieces) => parse_pieces(pieces, pieces.len()),
    }
}

/// A successful parse yields one segment per piece, each the parse of its
/// piece.
pub proof fn lemma_parse_pieces_pointwise(pieces: Seq<Seq<u8>>, k: nat)
    requires
        k <= pieces.len(),
        parse_pieces(pieces, k) is Ok,
    ensures
        parse_pieces(pieces, k)->Ok_0.len() == k,
        forall|j: int| 0 <= j < k ==> parse_piece(#[trigger] pieces[j]) == Ok::<SegmentSpec, TemplateDefect>(
            parse_pieces(pieces, k)->Ok_0[j],
        ),
        forall|j: nat| j <= k ==> #[trigger] parse_pieces(pieces, j) is Ok,
    decreases k,
{
    if k > 0 {
        lemma_parse_pieces_pointwise(pieces, (k - 1) as nat);
        assert forall|j: nat| j <= k implies #[trigger] parse_pieces(pieces, j) is Ok by {
            if j < k {
                assert(j <= (k - 1) as nat);
            }
        }
    }
}

/// What compiles is well formed, provided the pieces hold no `/`.
pub proof fn lemma_parse_pieces_wf(pieces: Seq<Seq<u8>>, k: nat)
    requires
        k <= pieces.len(),
        forall|i: int| 0 <= i < pieces.len() ==> slash_free(#[trigger] pieces[i]),
        parse_pieces(pieces, k) is Ok,
    ensures
        wf_segments(parse_pieces(pieces, k)->Ok_0),
    decreases k,
{
    if k > 0 {
        lemma_parse_pieces_wf(pieces, (k - 1) as nat);
        let before = parse_pieces(pieces, (k - 1) as nat)->Ok_0;
        let segment = parse_piece(pieces[k - 1])->Ok_0;
        let all = before.push(segment);
        assert(parse_pieces(pieces, k)->Ok_0 == all);
        assert(slash_free(pieces[k - 1]));
        assert(segment.wf());
        assert forall|i: int| 0 <= i < all.len() implies (#[trigger] all[i]).wf() by {
            if i < before.len() {
                assert(all[i] == before[i]);
            }
        }
        assert forall|i: int| 0 <= i < all.len() - 1 implies !((#[trigger] all[i]) is Greedy) by {
            assert(all[i] == before[i]);
            if i == before.len() - 1 {
                assert(before.last() == before[i]);
            }
        }
        assert forall|i: int, j: int|
            0 <= i < j < all.len() && (#[trigger] all[i]).binds() && (#[trigger] all[j]).binds()
            implies all[i].text() != all[j].text() by {
            assert(all[i] == before[i]);
            if j < before.len() {
                assert(all[j] == before[j]);
            } else {
                assert(all[j] == segment);
                if all[i].text() == segment.text() {
                    assert(before[i].binds() && before[i].text() == segment.text());
                    assert(binds_name(before, segment.text()));
                }
            }
        }
    }
}

/// A pattern in which a segment follows a greedy label does not compile.
pub proof fn lemma_greedy_must_be_last(pattern: Seq<u8>, i: int)
    requires
        pattern_pieces(pattern) is Some,
        0 <= i < pattern_pieces(pattern)->0.len() - 1,
        parse_piece(pattern_pieces(pattern)->0[i]) is Ok,
        parse_piece(pattern_pieces(pattern)->0[i])->Ok_0 is Greedy,
    ensures
        compile_spec(pattern) is Err,
{
    let pieces = pattern_pieces(pattern)->0;
    if parse_pieces(pieces, pieces.len()) is Ok {
        lemma_parse_pieces_pointwise(pieces, pieces.len());
        let upto: nat = (i + 1) as nat;
        let next: nat = (i + 2) as nat;
        assert(parse_pieces(pieces, upto) is Ok);
        assert(parse_pieces(pieces, next) is Ok);
        lemma_parse_pieces_pointwise(pieces, upto);
        let segments = parse_pieces(pieces, upto)->Ok_0;
        assert(parse_piece(pieces[i]) == Ok::<SegmentSpec, TemplateDefect>(segments[i]));
        assert(segments.last() is Greedy);
        assert(parse_pieces(pieces, next) is Err);
    }
}

/// A compiled pattern is well formed.
pub proof fn lemma_compiled_wf(pattern: Seq<u8>)
    requires
        compile_spec(pattern) is Ok,
    ensures
        wf_segments(compile_spec(pattern)->Ok_0),
{
    let pieces = pattern_pieces(pattern)->0;
    if pattern.len() > 1 {
        lemma_split_pieces_slash_free(pattern.skip(1));
    }
    lemma_parse_pieces_wf(pieces, pieces.len());
}

/// A compiled route: a method, the segments of its path pattern, and the
/// operation it leads to. Once compiled it never changes.
#[derive(Debug, PartialEq, Eq)]
pub struct RouteTemplate {
    method: Method,
    pattern: String,
    segments: Vec<Segment>,
    operation: OperationId,
}

/// Mathematical model of [`RouteTemplate`].
pub ghost struct TemplateSpec {
    pub method: Method,
    pub pattern: Seq<char>,
    pub segments: Seq<SegmentSpec>,
    pub operation: OperationId,
}

impl View for RouteTemplate {
    type V = TemplateSpec;

    closed spec fn view(&self) -> TemplateSpec {
        TemplateSpec {
            method: self.method,
            pattern: self.pattern@,
            segments: segments_view(self.segments@),
            operation: self.operation,
        }
    }
}

impl TemplateSpec {
    /// The invariant of a compiled template.
    pub open spec fn wf(self) -> bool {
        wf_segments(self.segments)
    }
}

impl RouteTemplate {
    /// Every template that exists was compiled, and so is well formed.
    #[verifier::type_invariant]
    spec fn compiled(self) -> bool {
        wf_segments(segments_view(self.segments@))
    }
}

/// Reads one piece of a pattern.
pub fn parse_segment(piece: &[u8]) -> (parsed: Result<Segment, TemplateDefect>)
    ensures
        match parse_piece(piece@) {
            Ok(segment) => parsed is Ok && parsed->Ok_0@ == segment,
            Err(defect) => parsed == Err::<Segment, TemplateDefect>(defect),
        },
{
    let n: usize = piece.len();
    if n == 0 {
        return Err(TemplateDefect::EmptySegment);
    }
    if n >= 2 && piece[0] == OPEN_BRACE && piece[n - 1] == CLOSE_BRACE {
        let greedy = n >= 3 && piece[n - 2] == PLUS;
        let ghost inner = piece@.subrange(1, n - 1);
        assert(inner.len() == n - 2);
        assert(n >= 3 ==> inner.last() == piece@[n - 2]);
        let end: usize = if greedy {
            n - 2
        } else {
            n - 1
        };
        let name = copy_range(piece, 1, end);
        assert(greedy ==> name@ =~= inner.drop_last());
        assert(!greedy ==> name@ =~= inner);
        if name.len() == 0 {
            return Err(TemplateDefect::EmptyLabelName);
        }
        if contains_byte(name.as_slice(), OPEN_BRACE) || contains_byte(name.as_slice(), CLOSE_BRACE) {
            return Err(TemplateDefect::StrayBrace);
        }
        if greedy {
            Ok(Segment::Greedy(name))
        } else {
            Ok(Segment::Label(name))
        }
    } else if contains_byte(piece, OPEN_BRACE) || contains_byte(piece, CLOSE_BRACE) {
        Err(TemplateDefect::StrayBrace)
    } else {
        let text = copy_range(piece, 0, n);
        assert(text@ =~= piece@);
        Ok(Segment::Literal(text))
    }
}

/// Whether one of `segments` binds `name`.
pub fn name_is_bound(segments: &Vec<Segment>, name: &[u8]) -> (bound: bool)
    ensures
        bound == binds_name(segments_view(segments@), name@),
{
    let ghost model = segments_view(segments@);
    let mut i: usize = 0;
    while i < segments.len()
        invariant
            i <= segments.len(),
            model == segments_view(segments@),
            forall|j: int| 0 <= j < i ==> !((#[trigger] model[j]).binds() && model[j].text() == name@),
        decreases segments.len() - i,
    {
        let hit = match &segments[i] {
            Segment::Literal(_) => false,
            Segment::Label(bound_name) => bytes_eq(bound_name.as_slice(), name),
            Segment::Greedy(bound_name) => bytes_eq(bound_name.as_slice(), name),
        };
        assert(model[i as int] == segments@[i as int]@);
        if hit {
            return true;
        }
        i += 1;
    }
    false
}

impl RouteTemplate {
    /// Compiles `pattern` for `method`.
    ///
    /// The pattern begins with `/`; between the `/` stand literals, labels
    /// `{name}` and, at the end only, a greedy label `{name+}`. The result is
    /// the template that [`compile_spec`] gives for the pattern's bytes, or
    /// the defect that it gives.
    pub fn compile(method: Method, pattern: &str, operation: OperationId) -> (compiled: Result<
        RouteTemplate,
        BuildError,
    >)
        ensures
            match compile_spec(pattern.spec_bytes()) {
                Ok(segments) => compiled is Ok && compiled->Ok_0@ == (TemplateSpec {
                    method,
                    pattern: pattern@,
                    segments,
                    operation,
                }) && compiled->Ok_0@.wf(),
                Err(defect) => compiled is Err && compiled->Err_0@ == BuildErrorSpec::InvalidTemplate(
                    defect,
                ),
            },
    {
        let bytes = pattern.as_bytes();
        if bytes.len() == 0 || bytes[0] != SLASH {
            return Err(BuildError::InvalidTemplate(TemplateDefect::MissingLeadingSlash));
        }
        let mut segments: Vec<Segment> = Vec::new();
        if bytes.len() > 1 {
            let pieces = split_range(bytes, 1, bytes.len());
            let ghost model = pieces_view(pieces@);
            assert(bytes@.subrange(1, bytes.len() as int) =~= bytes@.skip(1));
            assert(pattern_pieces(bytes@) == Some(model));
            assert(compile_spec(pattern.spec_bytes()) == parse_pieces(model, model.len()));
            assert(segments_view(segments@) =~= Seq::<SegmentSpec>::empty());
            let mut k: usize = 0;
            while k < pieces.len()
                invariant
                    k <= pieces.len(),
                    model == pieces_view(pieces@),
                    compile_spec(pattern.spec_bytes()) == parse_pieces(model, model.len()),
                    parse_pieces(model, k as nat) == Ok::<Seq<SegmentSpec>, TemplateDefect>(
                        segments_view(segments@),
                    ),
                decreases pieces.len() - k,
            {
                let ghost before = segments_view(segments@);
                let count: usize = segments.len();
                let after_greedy = count > 0 && match &segments[count - 1] {
                    Segment::Greedy(_) => true,
                    _ => false,
                };
                assert(count > 0 ==> before.last() == segments@[count - 1]@);
                assert(model[k as int] == pieces@[k as int]@);
                assert(((k + 1) as nat - 1) as nat == k as nat);
                if after_greedy {
                    proof {
                        lemma_parse_error_persists(model, (k + 1) as nat, model.len());
                    }
                    return Err(BuildError::InvalidTemplate(TemplateDefect::GreedyNotLast));
                }
                match parse_segment(pieces[k].as_slice()) {
                    Err(defect) => {
                        proof {
                            lemma_parse_error_persists(model, (k + 1) as nat, model.len());
                        }
                        return Err(BuildError::InvalidTemplate(defect));
                    },
                    Ok(segment) => {
                        let repeated = match &segment {
                            Segment::Literal(_) => false,
                            Segment::Label(name) => name_is_bound(&segments, name.as_slice()),
                            Segment::Greedy(name) => name_is_bound(&segments, name.as_slice()),
                        };
                        if repeated {
                            proof {
                                lemma_parse_error_persists(model, (k + 1) as nat, model.len());
                            }
                            return Err(BuildError::InvalidTemplate(TemplateDefect::DuplicateLabel));
                        }
                        let ghost added = segment@;
                        segments.push(segment);
                        assert(segments_view(segments@) =~= before.push(added));
                    },
                }
                k += 1;
            }
        } else {
            assert(segments_view(segments@) =~= Seq::<SegmentSpec>::empty());
        }
        proof {
            lemma_compiled_wf(bytes@);
        }
        Ok(RouteTemplate { method, pattern: pattern.to_owned(), segments, operation })
    }

    /// The method this route answers to.
    pub fn method(&self) -> (method: Method)
        ensures
            method == self@.method,
    {
        self.method
    }

    /// The pattern this route was compiled from.
    pub fn pattern(&self) -> (pattern: &str)
        ensures
            pattern@ == self@.pattern,
    {
        self.pattern.as_str()
    }

    /// The operation this route leads to.
    pub fn operation(&self) -> (operation: OperationId)
        ensures
            operation == self@.operation,
    {
        self.operation
    }

    /// The compiled segments.
    pub fn segments(&self) -> (segments: &Vec<Segment>)
        ensures
            segments_view(segments@) == self@.segments,
            self@.wf(),
    {
        proof {
            use_type_invariant(self);
        }
        &self.segments
    }
}

/// Once a defect is met, reading further pieces reports the same defect.
pub proof fn lemma_parse_error_persists(pieces: Seq<Seq<u8>>, k: nat, n: nat)
    requires
        k <= n,
        parse_pieces(pieces, k) is Err,
    ensures
        parse_pieces(pieces, n) == parse_pieces(pieces, k),
    decreases n - k,
{
    if k < n {
        lemma_parse_error_persists(pieces, k, (n - 1) as nat);
    }
}

} // verus!
