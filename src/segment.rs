//! Segments, resolvers, and the rendering of a template into segments.
use vstd::prelude::*;
use crate::template::{
    FormatError, ModifierView, PlaceholderView, Query, parse_template,
    placeholders_of, placeholders_view,
};

verus! {

broadcast use vstd::seq_lib::group_seq_properties;

/// An opaque presentation descriptor, such as `"bold red"`.
#[derive(Clone, Debug, PartialEq, Eq)]
pub struct Style {
    pub descriptor: String,
}

impl View for Style {
    type V = Seq<char>;

    open spec fn view(&self) -> Seq<char> {
        self.descriptor@
    }
}

pub open spec fn opt_style_view(o: Option<Style>) -> Option<Seq<char>> {
    match o {
        Some(s) => Some(s@),
        None => None,
    }
}

/// One named, styled unit of rendered output.
#[derive(Clone, Debug, PartialEq, Eq)]
pub struct Segment {
    pub name: String,
    pub value: String,
    pub style: Option<Style>,
}

pub struct SegmentView {
    pub name: Seq<char>,
    pub value: Seq<char>,
    pub style: Option<Seq<char>>,
}

impl View for Segment {
    type V = SegmentView;

    open spec fn view(&self) -> SegmentView {
        SegmentView { name: self.name@, value: self.value@, style: opt_style_view(self.style) }
    }
}

pub open spec fn segments_view(v: Seq<Segment>) -> Seq<SegmentView> {
    v.map_values(|s: Segment| s@)
}

pub open spec fn opt_segment_view(o: Option<Segment>) -> Option<SegmentView> {
    match o {
        Some(s) => Some(s@),
        None => None,
    }
}

/// What a placeholder resolves to, given its name and modifiers.
pub type Resolution = spec_fn(Seq<char>, Seq<ModifierView>) -> Option<SegmentView>;

/// Maps a placeholder to the segment it shows, or to nothing.
///
/// The answer depends on the name and the modifiers alone, as `resolves` states.
pub trait Resolver {
    spec fn resolves(&self, name: Seq<char>, query: Seq<ModifierView>) -> Option<SegmentView>;

    fn resolve(&self, name: &str, query: &Query) -> (r: Option<Segment>)
        ensures
            opt_segment_view(r) == self.resolves(name@, query@),
    ;
}

/// The modifier key that carries a style.
pub open spec fn style_key() -> Seq<char> {
    seq!['s', 't', 'y', 'l', 'e']
}

/// The style that modifiers ask for: the value of the first `style=...`.
pub open spec fn query_style(q: Seq<ModifierView>) -> Option<Seq<char>>
    decreases q.len(),
{
    if q.len() == 0 {
        None
    } else if q[0].key == style_key() && q[0].value is Some {
        q[0].value
    } else {
        query_style(q.drop_first())
    }
}

/// The style a resolved segment is shown with: its own, else the one its
/// placeholder's modifiers name, else the default.
pub open spec fn effective_style(
    own: Option<Seq<char>>,
    q: Seq<ModifierView>,
    default_style: Option<Seq<char>>,
) -> Option<Seq<char>> {
    if own is Some {
        own
    } else if query_style(q) is Some {
        query_style(q)
    } else {
        default_style
    }
}

/// What one placeholder contributes to the output: its styled segment, or nothing.
pub open spec fn piece(
    p: PlaceholderView,
    default_style: Option<Seq<char>>,
    res: Resolution,
) -> Seq<SegmentView> {
    match res(p.name, p.modifiers) {
        Some(s) => seq![
            SegmentView {
                style: effective_style(s.style, p.modifiers, default_style),
                ..s
            },
        ],
        None => Seq::empty(),
    }
}

/// The segments of a list of placeholders: each one's piece, in order.
pub open spec fn render(
    ps: Seq<PlaceholderView>,
    default_style: Option<Seq<char>>,
    res: Resolution,
) -> Seq<SegmentView> {
    ps.map_values(|p: PlaceholderView| piece(p, default_style, res)).flatten()
}

/// The result of rendering template `t`.
pub open spec fn formatted(
    t: Seq<char>,
    default_style: Option<Seq<char>>,
    res: Resolution,
) -> Result<Seq<SegmentView>, FormatError> {
    match placeholders_of(t) {
        Some(ps) => Ok(render(ps, default_style, res)),
        None => Err(FormatError::MalformedTemplate),
    }
}

/// How a resolver answers, as a `Resolution`.
pub open spec fn resolution_of<R: Resolver>(r: &R) -> Resolution {
    |n: Seq<char>, q: Seq<ModifierView>| r.resolves(n, q)
}

/// Whether `out` is what rendering template `t` gives.
pub open spec fn renders_as(
    t: Seq<char>,
    default_style: Option<Seq<char>>,
    res: Resolution,
    out: Result<Vec<Segment>, FormatError>,
) -> bool {
    match out {
        Ok(v) => formatted(t, default_style, res) == Ok::<Seq<SegmentView>, FormatError>(
            segments_view(v@),
        ),
        Err(e) => formatted(t, default_style, res) == Err::<Seq<SegmentView>, FormatError>(e),
    }
}

fn copy_style(s: &Option<Style>) -> (r: Option<Style>)
    ensures
        opt_style_view(r) == opt_style_view(*s),
{
    match s {
        Some(st) => Some(Style { descriptor: st.descriptor.clone() }),
        None => None,
    }
}

/// The style named by the first `style=...` modifier of `query`, if any.
pub fn style_from_query(query: &Query) -> (r: Option<Style>)
    ensures
        opt_style_view(r) == query_style(query@),
{
    let n = query.modifiers.len();
    let mut i: usize = 0;
    let key = String::from_str("style");
    proof {
        reveal_strlit("style");
    }
    assert(key@ =~= style_key());
    while i < n
        invariant
            n == query.modifiers@.len(),
            i <= n,
            key@ == style_key(),
            query_style(query@) == query_style(query@.skip(i as int)),
        decreases n - i,
    {
        let m = &query.modifiers[i];
        assert(query@.skip(i as int)[0] == m@);
        assert(query@.skip(i as int).drop_first() =~= query@.skip(i + 1));
        if m.key == key {
            if let Some(v) = &m.value {
                return Some(Style { descriptor: v.clone() });
            }
        }
        i = i + 1;
    }
    None
}

fn copy_segment(s: &Segment) -> (r: Segment)
    ensures
        r@ == s@,
{
    Segment { name: s.name.clone(), value: s.value.clone(), style: copy_style(&s.style) }
}

/// The first of `entries` with the given name.
pub open spec fn table_lookup(entries: Seq<SegmentView>, name: Seq<char>) -> Option<SegmentView>
    decreases entries.len(),
{
    if entries.len() == 0 {
        None
    } else if entries[0].name == name {
        Some(entries[0])
    } else {
        table_lookup(entries.drop_first(), name)
    }
}

/// A resolver that answers each name with a fixed segment: the first entry of
/// that name. Modifiers play no part in the lookup.
#[derive(Clone, Debug, PartialEq, Eq)]
pub struct SegmentTable {
    pub entries: Vec<Segment>,
}

impl Resolver for SegmentTable {
    open spec fn resolves(&self, name: Seq<char>, query: Seq<ModifierView>) -> Option<SegmentView> {
        table_lookup(segments_view(self.entries@), name)
    }

    fn resolve(&self, name: &str, query: &Query) -> (r: Option<Segment>) {
        let wanted = String::from_str(name);
        let n = self.entries.len();
        let mut i: usize = 0;
        while i < n
            invariant
                n == self.entries@.len(),
                i <= n,
                wanted@ == name@,
                table_lookup(segments_view(self.entries@), name@) == table_lookup(
                    segments_view(self.entries@).skip(i as int),
                    name@,
                ),
            decreases n - i,
        {
            let e = &self.entries[i];
            let ghost rest = segments_view(self.entries@).skip(i as int);
            assert(rest[0] == e@);
            assert(rest.drop_first() =~= segments_view(self.entries@).skip(i + 1));
            if e.name == wanted {
                return Some(copy_segment(e));
            }
            i = i + 1;
        }
        None
    }
}

/// Renders `template` into segments, asking `resolver` for each placeholder in
/// template order.
///
/// Text outside placeholders is not part of the output. A placeholder the
/// resolver has no segment for is left out; the others keep their order. A
/// resolved segment keeps its own style; without one it takes the style its
/// placeholder's modifiers name, and without that `default_style`.
pub fn format_segments<R: Resolver>(
    template: &str,
    default_style: Option<Style>,
    resolver: &R,
) -> (r: Result<Vec<Segment>, FormatError>)
    ensures
        renders_as(template@, opt_style_view(default_style), resolution_of(resolver), r),
{
    let ghost ds = opt_style_view(default_style);
    let ghost res = resolution_of(resolver);
    let placeholders = match parse_template(template) {
        Ok(ps) => ps,
        Err(e) => {
            return Err(e);
        },
    };
    let ghost pv = placeholders_view(placeholders@);
    let ghost pieces = pv.map_values(|p: PlaceholderView| piece(p, ds, res));
    let mut out: Vec<Segment> = Vec::new();
    let mut i: usize = 0;
    assert(pieces.take(0) =~= Seq::<Seq<SegmentView>>::empty());
    assert(segments_view(out@) =~= Seq::<SegmentView>::empty());
    while i < placeholders.len()
        invariant
            i <= placeholders@.len(),
            pv == placeholders_view(placeholders@),
            pieces == pv.map_values(|p: PlaceholderView| piece(p, ds, res)),
            ds == opt_style_view(default_style),
            res == resolution_of(resolver),
            segments_view(out@) == pieces.take(i as int).flatten(),
        decreases placeholders@.len() - i,
    {
        let p = &placeholders[i];
        assert(pv[i as int] == p@);
        assert(pieces.take(i + 1) =~= pieces.take(i as int).push(pieces[i as int]));
        proof {
            pieces.take(i as int).lemma_flatten_push(pieces[i as int]);
        }
        let ghost before = out@;
        match resolver.resolve(p.name.as_str(), &p.query) {
            Some(seg) => {
                let style = if seg.style.is_some() {
                    seg.style
                } else {
                    let asked = style_from_query(&p.query);
                    if asked.is_some() {
                        asked
                    } else {
                        copy_style(&default_style)
                    }
                };
                let shown = Segment { name: seg.name, value: seg.value, style };
                out.push(shown);
                assert(segments_view(out@) =~= segments_view(before).push(shown@));
                assert(pieces[i as int] =~= seq![shown@]);
            },
            None => {
                assert(pieces[i as int] =~= Seq::<SegmentView>::empty());
                assert(pieces.take(i as int).flatten() + Seq::<SegmentView>::empty()
                    =~= pieces.take(i as int).flatten());
            },
        }
        i = i + 1;
    }
    assert(pieces.take(i as int) =~= pieces);
    Ok(out)
}

} // verus!
