//! Properties of rendering that hold for every template and resolver.
use vstd::prelude::*;
use crate::segment::{
    Resolution, Segment, SegmentView, formatted, piece, render, renders_as, segments_view,
};
use crate::template::{FormatError, PlaceholderView, placeholders_of};

verus! {

/// Rendering a list of placeholders is rendering a first part of it, followed
/// by rendering the rest.
pub proof fn lemma_render_split(
    ps: Seq<PlaceholderView>,
    default_style: Option<Seq<char>>,
    res: Resolution,
    k: int,
)
    requires
        0 <= k <= ps.len(),
    ensures
        render(ps, default_style, res) == render(ps.take(k), default_style, res) + render(
            ps.skip(k),
            default_style,
            res,
        ),
{
    let f = |p: PlaceholderView| piece(p, default_style, res);
    assert(ps.map_values(f) =~= ps.take(k).map_values(f) + ps.skip(k).map_values(f));
    vstd::seq_lib::lemma_flatten_concat(ps.take(k).map_values(f), ps.skip(k).map_values(f));
}

/// Rendering a single placeholder gives its piece.
pub proof fn lemma_render_one(
    p: PlaceholderView,
    default_style: Option<Seq<char>>,
    res: Resolution,
)
    ensures
        render(seq![p], default_style, res) == piece(p, default_style, res),
{
    let f = |q: PlaceholderView| piece(q, default_style, res);
    let m = seq![p].map_values(f);
    assert(m.len() == 1);
    m.lemma_flatten_one_element();
}

/// A template with a single placeholder, which the resolver answers with a
/// segment, renders to exactly one segment: that segment's name and value.
pub proof fn law_single_placeholder(
    t: Seq<char>,
    default_style: Option<Seq<char>>,
    res: Resolution,
)
    requires
        placeholders_of(t) is Some,
        placeholders_of(t)->0.len() == 1,
        res(placeholders_of(t)->0[0].name, placeholders_of(t)->0[0].modifiers) is Some,
    ensures
        ({
            let s = res(placeholders_of(t)->0[0].name, placeholders_of(t)->0[0].modifiers)->0;
            &&& formatted(t, default_style, res) is Ok
            &&& formatted(t, default_style, res)->Ok_0.len() == 1
            &&& formatted(t, default_style, res)->Ok_0[0].value == s.value
            &&& formatted(t, default_style, res)->Ok_0[0].name == s.name
        }),
{
    let ps = placeholders_of(t)->0;
    assert(ps =~= seq![ps[0]]);
    lemma_render_one(ps[0], default_style, res);
}

/// When the resolver answers no placeholder, a well-formed template renders to
/// no segments at all.
pub proof fn law_nothing_resolved(t: Seq<char>, default_style: Option<Seq<char>>, res: Resolution)
    requires
        placeholders_of(t) is Some,
        forall|i: int|
            0 <= i < placeholders_of(t)->0.len() ==> #[trigger] res(
                placeholders_of(t)->0[i].name,
                placeholders_of(t)->0[i].modifiers,
            ) is None,
    ensures
        formatted(t, default_style, res) == Ok::<Seq<SegmentView>, FormatError>(Seq::empty()),
{
    let ps = placeholders_of(t)->0;
    let f = |p: PlaceholderView| piece(p, default_style, res);
    assert forall|k: int| 0 <= k <= ps.len() implies #[trigger] ps.take(k).map_values(
        f,
    ).flatten() =~= Seq::<SegmentView>::empty() by {
        lemma_nothing_resolved_prefix(ps, default_style, res, k);
    }
    assert(ps.take(ps.len() as int) =~= ps);
}

proof fn lemma_nothing_resolved_prefix(
    ps: Seq<PlaceholderView>,
    default_style: Option<Seq<char>>,
    res: Resolution,
    k: int,
)
    requires
        0 <= k <= ps.len(),
        forall|i: int| 0 <= i < ps.len() ==> #[trigger] res(ps[i].name, ps[i].modifiers) is None,
    ensures
        ps.take(k).map_values(|p: PlaceholderView| piece(p, default_style, res)).flatten()
            =~= Seq::<SegmentView>::empty(),
    decreases k,
{
    let f = |p: PlaceholderView| piece(p, default_style, res);
    if k == 0 {
        assert(ps.take(0).map_values(f) =~= Seq::<Seq<SegmentView>>::empty());
    } else {
        lemma_nothing_resolved_prefix(ps, default_style, res, k - 1);
        assert(ps.take(k).map_values(f) =~= ps.take(k - 1).map_values(f).push(f(ps[k - 1])));
        ps.take(k - 1).map_values(f).lemma_flatten_push(f(ps[k - 1]));
        assert(f(ps[k - 1]) =~= Seq::<SegmentView>::empty());
    }
}

/// Order is kept: for a well-formed template and any position `k` among its
/// placeholders, the output is what the placeholders before `k` give, followed
/// by what those from `k` on give. A placeholder without a segment adds
/// nothing and moves nothing.
pub proof fn law_order_kept(
    t: Seq<char>,
    default_style: Option<Seq<char>>,
    res: Resolution,
    k: int,
)
    requires
        placeholders_of(t) is Some,
        0 <= k <= placeholders_of(t)->0.len(),
    ensures
        formatted(t, default_style, res) == Ok::<Seq<SegmentView>, FormatError>(
            render(placeholders_of(t)->0.take(k), default_style, res) + render(
                placeholders_of(t)->0.skip(k),
                default_style,
                res,
            ),
        ),
        forall|i: int|
            0 <= i < placeholders_of(t)->0.len() ==> (#[trigger] res(
                placeholders_of(t)->0[i].name,
                placeholders_of(t)->0[i].modifiers,
            ) is None <==> piece(placeholders_of(t)->0[i], default_style, res).len() == 0),
{
    lemma_render_split(placeholders_of(t)->0, default_style, res, k);
}

/// A segment that the resolver gives a style of its own is shown with that
/// style, whatever the default style and the placeholder's modifiers. It
/// stands in the output after the segments of the placeholders before it.
pub proof fn law_own_style_wins(
    t: Seq<char>,
    default_style: Option<Seq<char>>,
    res: Resolution,
    i: int,
)
    requires
        placeholders_of(t) is Some,
        0 <= i < placeholders_of(t)->0.len(),
        res(placeholders_of(t)->0[i].name, placeholders_of(t)->0[i].modifiers) is Some,
        res(placeholders_of(t)->0[i].name, placeholders_of(t)->0[i].modifiers)->0.style is Some,
    ensures
        ({
            let ps = placeholders_of(t)->0;
            let s = res(ps[i].name, ps[i].modifiers)->0;
            let at = render(ps.take(i), default_style, res).len() as int;
            &&& formatted(t, default_style, res) is Ok
            &&& at < formatted(t, default_style, res)->Ok_0.len()
            &&& formatted(t, default_style, res)->Ok_0[at] == s
        }),
{
    let ps = placeholders_of(t)->0;
    let rest = ps.skip(i);
    lemma_render_split(ps, default_style, res, i);
    lemma_render_split(rest, default_style, res, 1);
    assert(rest.take(1) =~= seq![ps[i]]);
    lemma_render_one(ps[i], default_style, res);
    let s = res(ps[i].name, ps[i].modifiers)->0;
    assert(piece(ps[i], default_style, res)[0] =~= s);
}

/// Rendering is a function of its inputs: two results that each are what
/// rendering the same template with the same default style and the same
/// resolver gives are equal.
pub proof fn law_same_inputs_same_output(
    t: Seq<char>,
    default_style: Option<Seq<char>>,
    res: Resolution,
    first: Result<Vec<Segment>, FormatError>,
    second: Result<Vec<Segment>, FormatError>,
)
    requires
        renders_as(t, default_style, res, first),
        renders_as(t, default_style, res, second),
    ensures
        first is Ok <==> second is Ok,
        first is Ok ==> segments_view(first->Ok_0@) == segments_view(second->Ok_0@),
        first is Err ==> first->Err_0 == second->Err_0,
{
}

} // verus!
