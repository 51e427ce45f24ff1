//! Matching a request path against compiled templates.
//!
//! A request path is cut into segments; a template matches when every
//! segment fits. Where two templates match the same path, the one with a
//! literal at the first position where only one of them has a literal takes
//! precedence. Two templates that can match the same path without either
//! taking precedence are ambiguous.

use vstd::prelude::*;

use crate::template::{segments_view, wf_segments, Segment, SegmentSpec};
use crate::text::{bytes_eq, join_slash, pieces_view, split_range, split_slash, SLASH};

verus! {

/// The segments of a request path. The path begins with `/`; one `/` at its
/// end is dropped; what remains is split on `/`. The path `/` has no
/// segments. `None` where the leading `/` is missing.
pub open spec fn request_segments(path: Seq<u8>) -> Option<Seq<Seq<u8>>> {
    if path.len() == 0 || path[0] != SLASH {
        None
    } else {
        let end = if path.len() > 1 && path.last() == SLASH {
            path.len() - 1
        } else {
            path.len() as int
        };
        if end == 1 {
            Some(Seq::<Seq<u8>>::empty())
        } else {
            Some(split_slash(path.subrange(1, end)))
        }
    }
}

/// Cuts a request path into its segments.
pub fn split_path(path: &[u8]) -> (segments: Option<Vec<Vec<u8>>>)
    ensures
        match request_segments(path@) {
            Some(pieces) => segments is Some && pieces_view(segments->0@) == pieces,
            None => segments is None,
        },
{
    let n: usize = path.len();
    if n == 0 || path[0] != SLASH {
        return None;
    }
    let end: usize = if n > 1 && path[n - 1] == SLASH {
        n - 1
    } else {
        n
    };
    if end == 1 {
        let empty: Vec<Vec<u8>> = Vec::new();
        assert(pieces_view(empty@) =~= Seq::<Seq<u8>>::empty());
        Some(empty)
    } else {
        Some(split_range(path, 1, end))
    }
}

/// Whether the last segment is a greedy label.
pub open spec fn is_greedy(t: Seq<SegmentSpec>) -> bool {
    t.len() > 0 && t.last() is Greedy
}

/// The segment that path position `i` is held against: the template's
/// segment at `i`, or its last segment for the positions a greedy label
/// takes beyond the template's length.
pub open spec fn segment_for(t: Seq<SegmentSpec>, i: int) -> SegmentSpec {
    if i < t.len() {
        t[i]
    } else {
        t.last()
    }
}

/// Whether a path segment fits a template segment: a literal takes its own
/// text, a label of either kind takes anything but the empty segment.
pub open spec fn piece_fits(segment: SegmentSpec, piece: Seq<u8>) -> bool {
    match segment {
        SegmentSpec::Literal(text) => piece == text,
        _ => piece.len() > 0,
    }
}

/// Whether the template matches the path segments: as many segments as the
/// template has, or at least as many where it ends in a greedy label, and
/// each one fitting.
pub open spec fn template_matches(t: Seq<SegmentSpec>, pieces: Seq<Seq<u8>>) -> bool {
    &&& if is_greedy(t) {
        pieces.len() >= t.len()
    } else {
        pieces.len() == t.len()
    }
    &&& forall|i: int| 0 <= i < pieces.len() ==> piece_fits(segment_for(t, i), #[trigger] pieces[i])
}

/// Whether the template matches the path segments.
pub fn matches_path(segments: &Vec<Segment>, pieces: &Vec<Vec<u8>>) -> (matched: bool)
    ensures
        matched == template_matches(segments_view(segments@), pieces_view(pieces@)),
{
    let ghost t = segments_view(segments@);
    let ghost pv = pieces_view(pieces@);
    let n: usize = segments.len();
    let p: usize = pieces.len();
    let greedy = n > 0 && match &segments[n - 1] {
        Segment::Greedy(_) => true,
        _ => false,
    };
    assert(n > 0 ==> t.last() == segments@[n - 1]@);
    assert(greedy == is_greedy(t));
    if greedy {
        if p < n {
            return false;
        }
    } else if p != n {
        return false;
    }
    let mut i: usize = 0;
    while i < p
        invariant
            i <= p,
            p == pieces.len(),
            n == segments.len(),
            t == segments_view(segments@),
            pv == pieces_view(pieces@),
            n > 0 || p == 0,
            forall|j: int| 0 <= j < i ==> piece_fits(segment_for(t, j), #[trigger] pv[j]),
        decreases p - i,
    {
        let at: usize = if i < n {
            i
        } else {
            n - 1
        };
        assert(segment_for(t, i as int) == segments@[at as int]@);
        assert(pv[i as int] == pieces@[i as int]@);
        let fits = match &segments[at] {
            Segment::Literal(text) => bytes_eq(text.as_slice(), pieces[i].as_slice()),
            _ => pieces[i].len() > 0,
        };
        if !fits {
            assert(!piece_fits(segment_for(t, i as int), pv[i as int]));
            return false;
        }
        i += 1;
    }
    true
}

/// The value bound at template position `i`: the path segment there, or,
/// for a greedy label, all the path segments from there on, joined by `/`.
pub open spec fn bound_value(t: Seq<SegmentSpec>, pieces: Seq<Seq<u8>>, i: int) -> Seq<u8> {
    if t[i] is Greedy {
        join_slash(pieces.skip(i))
    } else {
        pieces[i]
    }
}

/// The names and values bound by the first `k` segments of the template, in
/// template order.
pub open spec fn bindings_upto(t: Seq<SegmentSpec>, pieces: Seq<Seq<u8>>, k: nat) -> Seq<
    (Seq<u8>, Seq<u8>),
>
    decreases k,
{
    if k == 0 {
        Seq::<(Seq<u8>, Seq<u8>)>::empty()
    } else {
        let before = bindings_upto(t, pieces, (k - 1) as nat);
        if t[k - 1].binds() {
            before.push((t[k - 1].text(), bound_value(t, pieces, k - 1)))
        } else {
            before
        }
    }
}

/// The names and values that the template binds on the path segments.
pub open spec fn bindings(t: Seq<SegmentSpec>, pieces: Seq<Seq<u8>>) -> Seq<(Seq<u8>, Seq<u8>)> {
    bindings_upto(t, pieces, t.len())
}

/// A label's name with the value extracted for it from a path.
#[derive(Clone, Debug, PartialEq, Eq)]
pub struct LabelBinding {
    pub name: Vec<u8>,
    pub value: Vec<u8>,
}

impl View for LabelBinding {
    type V = (Seq<u8>, Seq<u8>);

    open spec fn view(&self) -> (Seq<u8>, Seq<u8>) {
        (self.name@, self.value@)
    }
}

/// The models of a vector of bindings.
pub open spec fn bindings_view(v: Seq<LabelBinding>) -> Seq<(Seq<u8>, Seq<u8>)> {
    Seq::new(v.len(), |i: int| v[i]@)
}

/// Appends `s` to `out`.
pub fn append_bytes(out: &mut Vec<u8>, s: &[u8])
    ensures
        final(out)@ == old(out)@ + s@,
{
    let mut i: usize = 0;
    assert(out@ =~= old(out)@ + s@.take(0));
    while i < s.len()
        invariant
            i <= s.len(),
            out@ == old(out)@ + s@.take(i as int),
        decreases s.len() - i,
    {
        out.push(s[i]);
        assert(out@ =~= old(out)@ + s@.take(i + 1));
        i += 1;
    }
    assert(s@.take(s.len() as int) =~= s@);
}

/// A copy of `s`.
pub fn copy_bytes(s: &[u8]) -> (copy: Vec<u8>)
    ensures
        copy@ == s@,
{
    let mut copy: Vec<u8> = Vec::new();
    append_bytes(&mut copy, s);
    assert(copy@ =~= s@);
    copy
}

/// The path segments from `from` on, joined by `/`.
pub fn join_from(pieces: &Vec<Vec<u8>>, from: usize) -> (joined: Vec<u8>)
    requires
        from <= pieces.len(),
    ensures
        joined@ == join_slash(pieces_view(pieces@).skip(from as int)),
{
    let ghost pv = pieces_view(pieces@);
    let mut joined: Vec<u8> = Vec::new();
    let mut j: usize = from;
    assert(pv.subrange(from as int, from as int) =~= Seq::<Seq<u8>>::empty());
    while j < pieces.len()
        invariant
            from <= j <= pieces.len(),
            pv == pieces_view(pieces@),
            joined@ == join_slash(pv.subrange(from as int, j as int)),
        decreases pieces.len() - j,
    {
        let ghost done = pv.subrange(from as int, j as int);
        let ghost next = pv.subrange(from as int, j + 1);
        assert(next.drop_last() =~= done);
        assert(next.last() == pieces@[j as int]@);
        if j > from {
            joined.push(SLASH);
        }
        append_bytes(&mut joined, pieces[j].as_slice());
        if j == from {
            assert(next.len() == 1);
            assert(joined@ =~= next[0]);
        } else {
            assert(joined@ =~= join_slash(done) + seq![SLASH] + next.last());
        }
        j += 1;
    }
    assert(pv.subrange(from as int, pieces.len() as int) =~= pv.skip(from as int));
    joined
}

/// Extracts the label values of a template that matches the path segments.
pub fn extract_labels(segments: &Vec<Segment>, pieces: &Vec<Vec<u8>>) -> (labels: Vec<
    LabelBinding,
>)
    requires
        template_matches(segments_view(segments@), pieces_view(pieces@)),
    ensures
        bindings_view(labels@) == bindings(segments_view(segments@), pieces_view(pieces@)),
{
    let ghost t = segments_view(segments@);
    let ghost pv = pieces_view(pieces@);
    let mut labels: Vec<LabelBinding> = Vec::new();
    let mut k: usize = 0;
    assert(bindings_view(labels@) =~= bindings_upto(t, pv, 0));
    while k < segments.len()
        invariant
            k <= segments.len(),
            segments.len() <= pieces.len(),
            t == segments_view(segments@),
            pv == pieces_view(pieces@),
            bindings_view(labels@) == bindings_upto(t, pv, k as nat),
        decreases segments.len() - k,
    {
        let ghost before = bindings_view(labels@);
        assert(t[k as int] == segments@[k as int]@);
        assert(pv[k as int] == pieces@[k as int]@);
        match &segments[k] {
            Segment::Literal(_) => {},
            Segment::Label(name) => {
                let binding = LabelBinding {
                    name: copy_bytes(name.as_slice()),
                    value: copy_bytes(pieces[k].as_slice()),
                };
                labels.push(binding);
                assert(bindings_view(labels@) =~= before.push(
                    (t[k as int].text(), bound_value(t, pv, k as int)),
                ));
            },
            Segment::Greedy(name) => {
                let binding = LabelBinding {
                    name: copy_bytes(name.as_slice()),
                    value: join_from(pieces, k),
                };
                labels.push(binding);
                assert(bindings_view(labels@) =~= before.push(
                    (t[k as int].text(), bound_value(t, pv, k as int)),
                ));
            },
        }
        assert(((k + 1) as nat - 1) as nat == k as nat);
        k += 1;
    }
    labels
}

/// Whether both segments are literals or neither is.
pub open spec fn same_kind(x: SegmentSpec, y: SegmentSpec) -> bool {
    (x is Literal) == (y is Literal)
}

/// Whether `a` takes precedence over `b` by position `k`: both have a
/// segment there, `a`'s is a literal and `b`'s is not, and before `k` the
/// two agree on where their literals stand.
pub open spec fn outranks_at(a: Seq<SegmentSpec>, b: Seq<SegmentSpec>, k: int) -> bool {
    &&& 0 <= k < a.len()
    &&& k < b.len()
    &&& a[k] is Literal
    &&& !(b[k] is Literal)
    &&& forall|j: int| 0 <= j < k ==> #[trigger] same_kind(a[j], b[j])
}

/// Whether `a` takes precedence over `b`: at the first position where only
/// one of the two has a literal, it is `a`.
pub open spec fn outranks(a: Seq<SegmentSpec>, b: Seq<SegmentSpec>) -> bool {
    exists|k: int| outranks_at(a, b, k)
}

/// Precedence never holds both ways.
pub proof fn lemma_outranks_asymmetric(a: Seq<SegmentSpec>, b: Seq<SegmentSpec>)
    ensures
        !(outranks(a, b) && outranks(b, a)),
{
    if outranks(a, b) && outranks(b, a) {
        let k1 = choose|k: int| outranks_at(a, b, k);
        let k2 = choose|k: int| outranks_at(b, a, k);
        if k1 < k2 {
            assert(same_kind(b[k1], a[k1]));
        } else if k2 < k1 {
            assert(same_kind(a[k2], b[k2]));
        }
    }
}

/// Precedence is transitive.
pub proof fn lemma_outranks_transitive(
    a: Seq<SegmentSpec>,
    b: Seq<SegmentSpec>,
    c: Seq<SegmentSpec>,
)
    requires
        outranks(a, b),
        outranks(b, c),
    ensures
        outranks(a, c),
{
    let k1 = choose|k: int| outranks_at(a, b, k);
    let k2 = choose|k: int| outranks_at(b, c, k);
    if k1 < k2 {
        assert(same_kind(b[k1], c[k1]));
        assert forall|j: int| 0 <= j < k1 implies #[trigger] same_kind(a[j], c[j]) by {
            assert(same_kind(a[j], b[j]));
            assert(same_kind(b[j], c[j]));
        }
        assert(outranks_at(a, c, k1));
    } else if k2 < k1 {
        assert(same_kind(a[k2], b[k2]));
        assert forall|j: int| 0 <= j < k2 implies #[trigger] same_kind(a[j], c[j]) by {
            assert(same_kind(a[j], b[j]));
            assert(same_kind(b[j], c[j]));
        }
        assert(outranks_at(a, c, k2));
    } else {
        assert(false);
    }
}

/// Whether the segment is a literal.
pub fn is_literal(segment: &Segment) -> (literal: bool)
    ensures
        literal == (segment@ is Literal),
{
    match segment {
        Segment::Literal(_) => true,
        _ => false,
    }
}

/// Whether template `a` takes precedence over template `b`.
pub fn takes_precedence(a: &Vec<Segment>, b: &Vec<Segment>) -> (wins: bool)
    ensures
        wins == outranks(segments_view(a@), segments_view(b@)),
{
    let ghost sa = segments_view(a@);
    let ghost sb = segments_view(b@);
    let mut k: usize = 0;
    while k < a.len() && k < b.len()
        invariant
            k <= a.len(),
            k <= b.len(),
            sa == segments_view(a@),
            sb == segments_view(b@),
            forall|j: int| 0 <= j < k ==> #[trigger] same_kind(sa[j], sb[j]),
        decreases a.len() - k,
    {
        let a_literal = is_literal(&a[k]);
        let b_literal = is_literal(&b[k]);
        assert(sa[k as int] == a@[k as int]@);
        assert(sb[k as int] == b@[k as int]@);
        if a_literal && !b_literal {
            assert(outranks_at(sa, sb, k as int));
            return true;
        }
        if !a_literal && b_literal {
            assert forall|w: int| !outranks_at(sa, sb, w) by {
                if outranks_at(sa, sb, w) {
                    if w < k {
                        assert(same_kind(sa[w], sb[w]));
                    } else if w > k {
                        assert(same_kind(sa[k as int], sb[k as int]));
                    }
                }
            }
            return false;
        }
        assert(same_kind(sa[k as int], sb[k as int]));
        k += 1;
    }
    assert forall|w: int| !outranks_at(sa, sb, w) by {
        if outranks_at(sa, sb, w) {
            assert(same_kind(sa[w], sb[w]));
        }
    }
    false
}

/// Whether some path is matched by both templates.
pub open spec fn overlap(a: Seq<SegmentSpec>, b: Seq<SegmentSpec>) -> bool {
    exists|pieces: Seq<Seq<u8>>| #[trigger] template_matches(a, pieces) && template_matches(b, pieces)
}

/// Whether two segments can take the same path segment: two literals only
/// where their texts are equal.
pub open spec fn compatible(x: SegmentSpec, y: SegmentSpec) -> bool {
    x is Literal && y is Literal ==> x.text() == y.text()
}

/// Whether some number of path segments suits both templates.
pub open spec fn lengths_meet(a: Seq<SegmentSpec>, b: Seq<SegmentSpec>) -> bool {
    if is_greedy(a) {
        is_greedy(b) || b.len() >= a.len()
    } else if is_greedy(b) {
        a.len() >= b.len()
    } else {
        a.len() == b.len()
    }
}

/// The test by which overlap is decided: the lengths can meet, and wherever
/// both templates have a segment the two are compatible.
pub open spec fn shapes_overlap(a: Seq<SegmentSpec>, b: Seq<SegmentSpec>) -> bool {
    &&& lengths_meet(a, b)
    &&& forall|i: int| 0 <= i < a.len() && i < b.len() ==> #[trigger] compatible(a[i], b[i])
}

/// A path segment that fits both templates at position `i`, where the two
/// are compatible there.
pub open spec fn common_piece(a: Seq<SegmentSpec>, b: Seq<SegmentSpec>, i: int) -> Seq<u8> {
    if i < a.len() && a[i] is Literal {
        a[i].text()
    } else if i < b.len() && b[i] is Literal {
        b[i].text()
    } else {
        seq![0x78u8]
    }
}

/// A path that both templates match, where their shapes overlap.
pub open spec fn common_path(a: Seq<SegmentSpec>, b: Seq<SegmentSpec>) -> Seq<Seq<u8>> {
    Seq::new(
        if a.len() >= b.len() {
            a.len()
        } else {
            b.len()
        },
        |i: int| common_piece(a, b, i),
    )
}

/// The path built for two templates whose shapes overlap is matched by the
/// first of them.
proof fn lemma_common_path_matches(a: Seq<SegmentSpec>, b: Seq<SegmentSpec>)
    requires
        wf_segments(a),
        wf_segments(b),
        lengths_meet(a, b),
        forall|i: int| 0 <= i < a.len() && i < b.len() ==> #[trigger] compatible(a[i], b[i]),
    ensures
        template_matches(a, common_path(a, b)),
        template_matches(b, common_path(a, b)),
{
    let path = common_path(a, b);
    assert forall|i: int| 0 <= i < path.len() implies piece_fits(
        segment_for(a, i),
        #[trigger] path[i],
    ) by {
        if i < a.len() {
            assert(a[i].wf());
        } else {
            assert(a.last() == a[a.len() - 1]);
            assert(a[a.len() - 1].wf());
        }
        if i < b.len() {
            assert(b[i].wf());
        }
        if i >= a.len() && a.len() > 0 {
            if !is_greedy(a) {
                assert(false);
            }
        }
    }
    assert forall|i: int| 0 <= i < path.len() implies piece_fits(
        segment_for(b, i),
        #[trigger] path[i],
    ) by {
        if i < b.len() {
            assert(b[i].wf());
        } else {
            assert(b.last() == b[b.len() - 1]);
            assert(b[b.len() - 1].wf());
        }
        if i < a.len() {
            assert(a[i].wf());
            if i < b.len() {
                assert(compatible(a[i], b[i]));
            }
        }
    }
}

/// For well-formed templates, some path is matched by both exactly when
/// their shapes overlap.
pub proof fn lemma_overlap_decided(a: Seq<SegmentSpec>, b: Seq<SegmentSpec>)
    requires
        wf_segments(a),
        wf_segments(b),
    ensures
        overlap(a, b) == shapes_overlap(a, b),
{
    if shapes_overlap(a, b) {
        lemma_common_path_matches(a, b);
        assert(template_matches(a, common_path(a, b)));
    }
    if overlap(a, b) {
        let pieces = choose|pieces: Seq<Seq<u8>>| #[trigger]
            template_matches(a, pieces) && template_matches(b, pieces);
        assert forall|i: int| 0 <= i < a.len() && i < b.len() implies #[trigger] compatible(
            a[i],
            b[i],
        ) by {
            assert(piece_fits(segment_for(a, i), pieces[i]));
            assert(piece_fits(segment_for(b, i), pieces[i]));
        }
    }
}

/// Whether the shapes of two templates overlap.
pub fn shapes_meet(a: &Vec<Segment>, b: &Vec<Segment>) -> (meet: bool)
    ensures
        meet == shapes_overlap(segments_view(a@), segments_view(b@)),
{
    let ghost sa = segments_view(a@);
    let ghost sb = segments_view(b@);
    let na: usize = a.len();
    let nb: usize = b.len();
    let a_greedy = na > 0 && match &a[na - 1] {
        Segment::Greedy(_) => true,
        _ => false,
    };
    let b_greedy = nb > 0 && match &b[nb - 1] {
        Segment::Greedy(_) => true,
        _ => false,
    };
    assert(na > 0 ==> sa.last() == a@[na - 1]@);
    assert(nb > 0 ==> sb.last() == b@[nb - 1]@);
    let lengths = if a_greedy {
        b_greedy || nb >= na
    } else if b_greedy {
        na >= nb
    } else {
        na == nb
    };
    if !lengths {
        return false;
    }
    let mut i: usize = 0;
    while i < na && i < nb
        invariant
            i <= na,
            i <= nb,
            na == a.len(),
            nb == b.len(),
            sa == segments_view(a@),
            sb == segments_view(b@),
            forall|j: int| 0 <= j < i ==> #[trigger] compatible(sa[j], sb[j]),
        decreases na - i,
    {
        assert(sa[i as int] == a@[i as int]@);
        assert(sb[i as int] == b@[i as int]@);
        let clash = match (&a[i], &b[i]) {
            (Segment::Literal(x), Segment::Literal(y)) => !bytes_eq(x.as_slice(), y.as_slice()),
            _ => false,
        };
        if clash {
            assert(!compatible(sa[i as int], sb[i as int]));
            return false;
        }
        i += 1;
    }
    true
}

/// Whether two templates are ambiguous: some path is matched by both and
/// neither takes precedence.
pub open spec fn ambiguous(a: Seq<SegmentSpec>, b: Seq<SegmentSpec>) -> bool {
    overlap(a, b) && !outranks(a, b) && !outranks(b, a)
}

/// Whether two well-formed templates are ambiguous.
pub fn are_ambiguous(a: &Vec<Segment>, b: &Vec<Segment>) -> (clash: bool)
    requires
        wf_segments(segments_view(a@)),
        wf_segments(segments_view(b@)),
    ensures
        clash == ambiguous(segments_view(a@), segments_view(b@)),
{
    proof {
        lemma_overlap_decided(segments_view(a@), segments_view(b@));
    }
    shapes_meet(a, b) && !takes_precedence(a, b) && !takes_precedence(b, a)
}

} // verus!
