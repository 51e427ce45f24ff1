//! Substituting values into a template and routing the path that results.
//!
//! A template is turned into a concrete path by writing a value in place of
//! each label. Routing that path leads back to the template's operation and
//! recovers the values, unless a template that takes precedence claims the
//! path as well.

use vstd::prelude::*;

use crate::matching::{
    bindings, bindings_upto, bound_value, is_greedy, outranks, overlap, piece_fits,
    request_segments, segment_for, template_matches,
};
use crate::table::{
    candidate, conflicts, is_route_outcome, is_winner, lemma_route_deterministic, table_wf,
    MatchOutcomeSpec,
};
use crate::template::{wf_segments, SegmentSpec, TemplateSpec};
use crate::text::{
    join_slash, lemma_join_split, lemma_split_around_slash, lemma_split_join,
    lemma_split_nonempty, proper_pieces, slash_free, split_slash, SLASH,
};

verus! {

/// Whether `values` can be substituted into the template: one value per
/// segment (that of a literal is not looked at); the value of a label is
/// non-empty and holds no `/`; the value of a greedy label is one or more
/// non-empty segments separated by `/`.
pub open spec fn substitutable(t: Seq<SegmentSpec>, values: Seq<Seq<u8>>) -> bool {
    &&& values.len() == t.len()
    &&& forall|i: int|
        0 <= i < t.len() && (#[trigger] t[i]) is Label ==> values[i].len() > 0 && slash_free(
            values[i],
        )
    &&& forall|i: int|
        0 <= i < t.len() && (#[trigger] t[i]) is Greedy ==> proper_pieces(split_slash(values[i]))
}

/// What is written for template position `i`: the literal's text, or the
/// value substituted for the label.
pub open spec fn filled_piece(t: Seq<SegmentSpec>, values: Seq<Seq<u8>>, i: int) -> Seq<u8> {
    if t[i] is Literal {
        t[i].text()
    } else {
        values[i]
    }
}

/// What is written for each position of the template.
pub open spec fn filled(t: Seq<SegmentSpec>, values: Seq<Seq<u8>>) -> Seq<Seq<u8>> {
    Seq::new(t.len(), |i: int| filled_piece(t, values, i))
}

/// The concrete path: a `/`, then what is written for each position, with a
/// `/` between neighbours.
pub open spec fn concrete_path(t: Seq<SegmentSpec>, values: Seq<Seq<u8>>) -> Seq<u8> {
    seq![SLASH] + join_slash(filled(t, values))
}

/// The names bound by the first `k` segments, each with the value that was
/// substituted for it.
pub open spec fn substituted_upto(t: Seq<SegmentSpec>, values: Seq<Seq<u8>>, k: nat) -> Seq<
    (Seq<u8>, Seq<u8>),
>
    decreases k,
{
    if k == 0 {
        Seq::<(Seq<u8>, Seq<u8>)>::empty()
    } else {
        let before = substituted_upto(t, values, (k - 1) as nat);
        if t[k - 1].binds() {
            before.push((t[k - 1].text(), values[k - 1]))
        } else {
            before
        }
    }
}

/// The template's names, each with the value that was substituted for it.
pub open spec fn substituted(t: Seq<SegmentSpec>, values: Seq<Seq<u8>>) -> Seq<(Seq<u8>, Seq<u8>)> {
    substituted_upto(t, values, t.len())
}

/// The segments of the concrete path: what was written for each position,
/// the value of a greedy label cut into its segments.
pub open spec fn concrete_segments(t: Seq<SegmentSpec>, values: Seq<Seq<u8>>) -> Seq<Seq<u8>> {
    if is_greedy(t) {
        filled(t, values).drop_last() + split_slash(values.last())
    } else {
        filled(t, values)
    }
}

/// A byte string that splits into proper pieces is non-empty and does not
/// end in `/`.
proof fn lemma_proper_value(v: Seq<u8>)
    requires
        proper_pieces(split_slash(v)),
    ensures
        v.len() > 0,
        v.last() != SLASH,
{
    let pieces = split_slash(v);
    if v.len() == 0 {
        assert(pieces[0].len() == 0);
    } else if v.last() == SLASH {
        let before = split_slash(v.drop_last());
        assert(pieces == before.push(Seq::<u8>::empty()));
        assert(pieces[before.len() as int].len() == 0);
    }
}

/// The join of a non-empty list ends as its last piece ends.
proof fn lemma_join_last(pieces: Seq<Seq<u8>>)
    requires
        pieces.len() > 0,
        pieces.last().len() > 0,
    ensures
        join_slash(pieces).len() > 0,
        join_slash(pieces).last() == pieces.last().last(),
{
    if pieces.len() > 1 {
        let joined = join_slash(pieces.drop_last()) + seq![SLASH] + pieces.last();
        assert(joined.last() == pieces.last().last());
    }
}

/// Every piece written for a substitutable filling is non-empty; all but the
/// value of a greedy label hold no `/`.
proof fn lemma_filled_pieces(t: Seq<SegmentSpec>, values: Seq<Seq<u8>>)
    requires
        wf_segments(t),
        substitutable(t, values),
    ensures
        forall|i: int| 0 <= i < t.len() ==> (#[trigger] filled(t, values)[i]).len() > 0,
        forall|i: int|
            0 <= i < t.len() && !(t[i] is Greedy) ==> slash_free(#[trigger] filled(t, values)[i]),
{
    assert forall|i: int| 0 <= i < t.len() implies (#[trigger] filled(t, values)[i]).len() > 0 by {
        assert(t[i].wf());
        if t[i] is Greedy {
            lemma_proper_value(values[i]);
        }
    }
    assert forall|i: int| 0 <= i < t.len() && !(t[i] is Greedy) implies slash_free(
        #[trigger] filled(t, values)[i],
    ) by {
        assert(t[i].wf());
    }
}

/// The concrete path is cut into the segments that were written.
pub proof fn lemma_concrete_path_segments(t: Seq<SegmentSpec>, values: Seq<Seq<u8>>)
    requires
        wf_segments(t),
        substitutable(t, values),
    ensures
        request_segments(concrete_path(t, values)) == Some(concrete_segments(t, values)),
{
    let written = filled(t, values);
    let joined = join_slash(written);
    let path = concrete_path(t, values);
    lemma_filled_pieces(t, values);
    if t.len() == 0 {
        assert(joined =~= Seq::<u8>::empty());
        assert(path =~= seq![SLASH]);
        assert(concrete_segments(t, values) =~= Seq::<Seq<u8>>::empty());
    } else {
        let last = written.last();
        assert(last == written[t.len() - 1]);
        assert(last.len() > 0);
        lemma_join_last(written);
        if t.last() is Greedy {
            lemma_proper_value(values.last());
            assert(last == values.last());
        } else {
            assert(slash_free(last));
        }
        assert(joined.last() != SLASH);
        assert(path.last() == joined.last());
        assert(path.subrange(1, path.len() as int) =~= joined);
        if is_greedy(t) {
            let front = written.drop_last();
            let value = values.last();
            assert forall|i: int| 0 <= i < front.len() implies slash_free(#[trigger] front[i]) by {
                assert(front[i] == written[i]);
                assert(!(t[i] is Greedy));
            }
            if front.len() == 0 {
                assert(written.len() == 1);
                assert(joined == written[0]);
                assert(front + split_slash(value) =~= split_slash(value));
            } else {
                lemma_split_join(front);
                lemma_split_around_slash(join_slash(front), value);
            }
        } else {
            assert forall|i: int| 0 <= i < written.len() implies slash_free(
                #[trigger] written[i],
            ) by {
                if i < t.len() - 1 {
                    assert(!(t[i] is Greedy));
                } else {
                    assert(t[i] == t.last());
                }
            }
            lemma_split_join(written);
        }
    }
}

/// The template matches the segments of its concrete path.
pub proof fn lemma_concrete_path_matches(t: Seq<SegmentSpec>, values: Seq<Seq<u8>>)
    requires
        wf_segments(t),
        substitutable(t, values),
    ensures
        template_matches(t, concrete_segments(t, values)),
{
    let written = filled(t, values);
    let pieces = concrete_segments(t, values);
    lemma_filled_pieces(t, values);
    if is_greedy(t) {
        let tail = split_slash(values.last());
        lemma_split_nonempty(values.last());
        assert(t.last() == t[t.len() - 1]);
        assert forall|i: int| 0 <= i < pieces.len() implies piece_fits(
            segment_for(t, i),
            #[trigger] pieces[i],
        ) by {
            if i < t.len() - 1 {
                assert(pieces[i] == written[i]);
                assert(!(t[i] is Greedy));
            } else {
                assert(pieces[i] == tail[i - (t.len() - 1)]);
                assert(segment_for(t, i) is Greedy);
            }
        }
    } else {
        assert forall|i: int| 0 <= i < pieces.len() implies piece_fits(
            segment_for(t, i),
            #[trigger] pieces[i],
        ) by {
            assert(pieces[i] == written[i]);
            if i == t.len() - 1 {
                assert(t[i] == t.last());
            }
        }
    }
}

/// On the segments of its concrete path the template binds, up to position
/// `k`, the values that were substituted.
proof fn lemma_concrete_bindings_upto(t: Seq<SegmentSpec>, values: Seq<Seq<u8>>, k: nat)
    requires
        wf_segments(t),
        substitutable(t, values),
        k <= t.len(),
    ensures
        bindings_upto(t, concrete_segments(t, values), k) == substituted_upto(t, values, k),
    decreases k,
{
    if k > 0 {
        lemma_concrete_bindings_upto(t, values, (k - 1) as nat);
        let pieces = concrete_segments(t, values);
        let written = filled(t, values);
        let at = k - 1;
        if t[at] is Greedy {
            assert(at == t.len() - 1);
            assert(t.last() == t[at]);
            let tail = split_slash(values.last());
            assert(pieces.skip(at) =~= tail);
            lemma_join_split(values.last());
            assert(bound_value(t, pieces, at) == values[at]);
        } else if t[at] is Label {
            if is_greedy(t) {
                assert(t.last() == t[t.len() - 1]);
                assert(at < t.len() - 1);
                assert(pieces[at] == written[at]);
            }
            assert(bound_value(t, pieces, at) == values[at]);
        }
    }
}

/// On the segments of its concrete path the template binds the values that
/// were substituted.
pub proof fn lemma_concrete_bindings(t: Seq<SegmentSpec>, values: Seq<Seq<u8>>)
    requires
        wf_segments(t),
        substitutable(t, values),
    ensures
        bindings(t, concrete_segments(t, values)) == substituted(t, values),
{
    lemma_concrete_bindings_upto(t, values, t.len());
}

/// Round trip. Substitute values into the labels of a template of the table
/// and route the resulting path for the template's method: the outcome is
/// the template's operation with exactly the substituted values, provided
/// that no template that takes precedence over this one is a candidate for
/// the path as well.
pub proof fn lemma_round_trip(
    routes: Seq<TemplateSpec>,
    i: int,
    values: Seq<Seq<u8>>,
    outcome: MatchOutcomeSpec,
)
    requires
        table_wf(routes),
        0 <= i < routes.len(),
        substitutable(routes[i].segments, values),
        forall|j: int| #[trigger]
            candidate(routes, routes[i].method, concrete_segments(routes[i].segments, values), j)
                ==> !outranks(routes[j].segments, routes[i].segments),
        is_route_outcome(
            routes,
            routes[i].method,
            concrete_path(routes[i].segments, values),
            outcome,
        ),
    ensures
        outcome == (MatchOutcomeSpec::Matched {
            operation: routes[i].operation,
            labels: substituted(routes[i].segments, values),
        }),
{
    let t = routes[i].segments;
    let method = routes[i].method;
    let pieces = concrete_segments(t, values);
    let path = concrete_path(t, values);
    assert(routes[i].wf());
    lemma_concrete_path_segments(t, values);
    lemma_concrete_path_matches(t, values);
    lemma_concrete_bindings(t, values);
    assert(candidate(routes, method, pieces, i));
    assert forall|j: int| j != i && #[trigger] candidate(routes, method, pieces, j) implies outranks(
        t,
        routes[j].segments,
    ) by {
        let other = routes[j].segments;
        assert(template_matches(t, pieces) && template_matches(other, pieces));
        assert(overlap(t, other));
        assert(template_matches(other, pieces) && template_matches(t, pieces));
        assert(overlap(other, t));
        if i < j {
            assert(!conflicts(routes[i], routes[j]));
        } else {
            assert(!conflicts(routes[j], routes[i]));
        }
    }
    assert(is_winner(routes, method, pieces, i));
    let expected = MatchOutcomeSpec::Matched {
        operation: routes[i].operation,
        labels: substituted(t, values),
    };
    assert(is_route_outcome(routes, method, path, expected));
    lemma_route_deterministic(routes, method, path, outcome, expected);
}

} // verus!
