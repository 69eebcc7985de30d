//! Template syntax: literal text with `${name:modifier:...}` placeholders.
use vstd::prelude::*;

verus! {

/// One presentation annotation of a placeholder: `key` or `key=value`.
#[derive(Clone, Debug, PartialEq, Eq)]
pub struct Modifier {
    pub key: String,
    pub value: Option<String>,
}

pub struct ModifierView {
    pub key: Seq<char>,
    pub value: Option<Seq<char>>,
}

pub open spec fn opt_string_view(o: Option<String>) -> Option<Seq<char>> {
    match o {
        Some(s) => Some(s@),
        None => None,
    }
}

impl View for Modifier {
    type V = ModifierView;

    open spec fn view(&self) -> ModifierView {
        ModifierView { key: self.key@, value: opt_string_view(self.value) }
    }
}

/// The modifiers written after a placeholder's name, in template order.
#[derive(Clone, Debug, PartialEq, Eq)]
pub struct Query {
    pub modifiers: Vec<Modifier>,
}

impl View for Query {
    type V = Seq<ModifierView>;

    open spec fn view(&self) -> Seq<ModifierView> {
        modifiers_view(self.modifiers@)
    }
}

pub open spec fn modifiers_view(ms: Seq<Modifier>) -> Seq<ModifierView> {
    ms.map_values(|m: Modifier| m@)
}

/// A parsed `${...}` span: the name to resolve and its query.
#[derive(Clone, Debug, PartialEq, Eq)]
pub struct Placeholder {
    pub name: String,
    pub query: Query,
}

pub struct PlaceholderView {
    pub name: Seq<char>,
    pub modifiers: Seq<ModifierView>,
}

impl View for Placeholder {
    type V = PlaceholderView;

    open spec fn view(&self) -> PlaceholderView {
        PlaceholderView { name: self.name@, modifiers: self.query@ }
    }
}

pub open spec fn placeholders_view(ps: Seq<Placeholder>) -> Seq<PlaceholderView> {
    ps.map_values(|p: Placeholder| p@)
}

/// Why a template could not be read.
#[derive(Clone, Copy, Debug, PartialEq, Eq, Structural)]
pub enum FormatError {
    /// An unterminated `${`, an empty name, an empty modifier or key, or a
    /// `{` inside a placeholder.
    MalformedTemplate,
}

/// A modifier's text: `key` alone is a flag, `key=value` carries a value (the
/// text after the first `=`). The key may not be empty.
pub open spec fn parse_modifier(m: Seq<char>) -> Option<ModifierView> {
    match find_char(m, '=', 0) {
        None => if m.len() > 0 {
            Some(ModifierView { key: m, value: None })
        } else {
            None
        },
        Some(k) => if k > 0 {
            Some(ModifierView { key: m.take(k), value: Some(m.skip(k + 1)) })
        } else {
            None
        },
    }
}

/// The text between `${` and `}`: a non-empty name, then modifiers, each
/// introduced by `:`. No `{` may occur in it.
pub open spec fn parse_body(b: Seq<char>) -> Option<PlaceholderView> {
    let parts = split_on(b, ':');
    let mods = parts.skip(1);
    if b.contains('{') || parts[0].len() == 0 || exists|k: int|
        0 <= k < mods.len() && #[trigger] parse_modifier(mods[k]) is None {
        None
    } else {
        Some(
            PlaceholderView {
                name: parts[0],
                modifiers: parsed_modifiers(mods),
            },
        )
    }
}

/// The modifiers read from their texts, where each text is well formed.
pub open spec fn parsed_modifiers(texts: Seq<Seq<char>>) -> Seq<ModifierView> {
    texts.map_values(|m: Seq<char>| parse_modifier(m)->0)
}

/// Whether a placeholder opens at position `i`: a `$` directly followed by `{`.
pub open spec fn opens_at(t: Seq<char>, i: int) -> bool {
    0 <= i && i + 1 < t.len() && t[i] == '$' && t[i + 1] == '{'
}

/// The placeholders of `t` from position `i` on, in order; `None` when the
/// rest of the template is malformed. Text outside placeholders is skipped.
pub open spec fn parse_from(t: Seq<char>, i: int) -> Option<Seq<PlaceholderView>>
    decreases t.len() - i,
{
    if i < 0 || i >= t.len() {
        Some(Seq::empty())
    } else if opens_at(t, i) {
        match find_char(t, '}', i + 2) {
            None => None,
            Some(j) => {
                proof {
                    lemma_find_char(t, '}', i + 2);
                }
                match (parse_body(t.subrange(i + 2, j)), parse_from(t, j + 1)) {
                    (Some(p), Some(rest)) => Some(seq![p] + rest),
                    _ => None,
                }
            },
        }
    } else {
        parse_from(t, i + 1)
    }
}

/// The placeholders of a whole template, or `None` when it is malformed.
pub open spec fn placeholders_of(t: Seq<char>) -> Option<Seq<PlaceholderView>> {
    parse_from(t, 0)
}

/// Index of the first `c` in `s` at or after position `from`, if any.
pub open spec fn find_char(s: Seq<char>, c: char, from: int) -> Option<int>
    decreases s.len() - from,
{
    if from < 0 || from >= s.len() {
        None
    } else if s[from] == c {
        Some(from)
    } else {
        find_char(s, c, from + 1)
    }
}

/// What `find_char` finds: the first occurrence at or after `from`.
pub proof fn lemma_find_char(s: Seq<char>, c: char, from: int)
    requires
        0 <= from,
    ensures
        match find_char(s, c, from) {
            Some(j) => from <= j < s.len() && s[j] == c && forall|k: int|
                from <= k < j ==> s[k] != c,
            None => forall|k: int| from <= k < s.len() ==> s[k] != c,
        },
    decreases s.len() - from,
{
    if from < s.len() && s[from] != c {
        lemma_find_char(s, c, from + 1);
    }
}

/// The pieces of `s` between occurrences of `sep`; there is always at least one.
pub open spec fn split_on(s: Seq<char>, sep: char) -> Seq<Seq<char>>
    decreases s.len(),
{
    if s.len() == 0 {
        seq![Seq::empty()]
    } else {
        let init = split_on(s.drop_last(), sep);
        if s.last() == sep {
            init.push(Seq::empty())
        } else {
            init.update(init.len() - 1, init.last().push(s.last()))
        }
    }
}

pub proof fn lemma_split_on_nonempty(s: Seq<char>, sep: char)
    ensures
        split_on(s, sep).len() >= 1,
    decreases s.len(),
{
    if s.len() > 0 {
        lemma_split_on_nonempty(s.drop_last(), sep);
    }
}

pub open spec fn strings_view(v: Seq<String>) -> Seq<Seq<char>> {
    v.map_values(|p: String| p@)
}

/// Position of the first `c` in `s` at or after `from`.
fn find_char_from(s: &str, c: char, from: usize) -> (r: Option<usize>)
    ensures
        match r {
            Some(j) => find_char(s@, c, from as int) == Some(j as int),
            None => find_char(s@, c, from as int) is None,
        },
{
    let n = s.unicode_len();
    let mut k: usize = from;
    while k < n
        invariant
            n == s@.len(),
            from <= k,
            find_char(s@, c, from as int) == find_char(s@, c, k as int),
        decreases n - k,
    {
        if s.get_char(k) == c {
            return Some(k);
        }
        k = k + 1;
    }
    None
}

/// Splits `s` at every `sep`.
fn split_at_char(s: &str, sep: char) -> (r: Vec<String>)
    ensures
        strings_view(r@) == split_on(s@, sep),
{
    let n = s.unicode_len();
    let mut parts: Vec<String> = Vec::new();
    let mut start: usize = 0;
    let mut i: usize = 0;
    assert(s@.take(0) =~= Seq::<char>::empty());
    assert(strings_view(parts@) =~= Seq::<Seq<char>>::empty());
    assert(s@.subrange(0, 0) =~= Seq::<char>::empty());
    while i < n
        invariant
            n == s@.len(),
            start <= i <= n,
            split_on(s@.take(i as int), sep) == strings_view(parts@).push(
                s@.subrange(start as int, i as int),
            ),
        decreases n - i,
    {
        let ghost prefix = s@.take(i as int);
        assert(s@.take(i + 1).drop_last() =~= prefix);
        if s.get_char(i) == sep {
            let ghost before = parts@;
            let piece = String::from_str(s.substring_char(start, i));
            parts.push(piece);
            start = i + 1;
            assert(strings_view(parts@) =~= strings_view(before).push(piece@));
            assert(s@.subrange(start as int, i + 1) =~= Seq::<char>::empty());
        } else {
            assert(s@.subrange(start as int, i + 1) =~= s@.subrange(start as int, i as int).push(
                s@[i as int],
            ));
        }
        i = i + 1;
    }
    let ghost before = parts@;
    let last = String::from_str(s.substring_char(start, n));
    parts.push(last);
    assert(s@.take(n as int) =~= s@);
    assert(strings_view(parts@) =~= strings_view(before).push(last@));
    parts
}

pub open spec fn opt_modifier_view(o: Option<Modifier>) -> Option<ModifierView> {
    match o {
        Some(m) => Some(m@),
        None => None,
    }
}

pub open spec fn opt_placeholder_view(o: Option<Placeholder>) -> Option<PlaceholderView> {
    match o {
        Some(p) => Some(p@),
        None => None,
    }
}

fn parse_modifier_text(m: &str) -> (r: Option<Modifier>)
    ensures
        opt_modifier_view(r) == parse_modifier(m@),
{
    let n = m.unicode_len();
    proof {
        lemma_find_char(m@, '=', 0);
    }
    match find_char_from(m, '=', 0) {
        None => if n > 0 {
            Some(Modifier { key: String::from_str(m), value: None })
        } else {
            None
        },
        Some(k) => if k > 0 {
            let key = String::from_str(m.substring_char(0, k));
            let value = String::from_str(m.substring_char(k + 1, n));
            assert(key@ =~= m@.take(k as int));
            assert(value@ =~= m@.skip(k + 1));
            Some(Modifier { key, value: Some(value) })
        } else {
            None
        },
    }
}

fn parse_body_text(b: &str) -> (r: Option<Placeholder>)
    ensures
        opt_placeholder_view(r) == parse_body(b@),
{
    proof {
        lemma_find_char(b@, '{', 0);
        lemma_split_on_nonempty(b@, ':');
    }
    if find_char_from(b, '{', 0).is_some() {
        return None;
    }
    let parts = split_at_char(b, ':');
    let ghost pv = split_on(b@, ':');
    assert(strings_view(parts@)[0] == parts@[0]@);
    if parts[0].as_str().unicode_len() == 0 {
        return None;
    }
    assert(!b@.contains('{'));
    let mut mods: Vec<Modifier> = Vec::new();
    let mut k: usize = 1;
    while k < parts.len()
        invariant
            1 <= k <= parts@.len(),
            strings_view(parts@) == pv,
            pv == split_on(b@, ':'),
            !b@.contains('{'),
            pv[0].len() > 0,
            modifiers_view(mods@) == parsed_modifiers(pv.subrange(1, k as int)),
            forall|j: int| 1 <= j < k ==> #[trigger] parse_modifier(pv[j]) is Some,
        decreases parts@.len() - k,
    {
        assert(strings_view(parts@)[k as int] == parts@[k as int]@);
        let ghost prev = mods@;
        match parse_modifier_text(parts[k].as_str()) {
            None => {
                assert(pv.skip(1)[k - 1] == pv[k as int]);
                assert(parse_modifier(pv.skip(1)[k - 1]) is None);
                return None;
            },
            Some(m) => {
                mods.push(m);
                assert(mods@ =~= prev.push(m));
                assert(pv.subrange(1, k + 1) =~= pv.subrange(1, k as int).push(pv[k as int]));
                assert(parse_modifier(pv[k as int]) == Some(m@));
                assert(modifiers_view(mods@) =~= modifiers_view(prev).push(m@));
                assert(parsed_modifiers(pv.subrange(1, k + 1)) =~= parsed_modifiers(
                    pv.subrange(1, k as int),
                ).push(m@));
            },
        }
        k = k + 1;
    }
    assert(pv.subrange(1, k as int) =~= pv.skip(1));
    assert forall|j: int| 0 <= j < pv.skip(1).len() implies #[trigger] parse_modifier(
        pv.skip(1)[j],
    ) is Some by {
        assert(pv.skip(1)[j] == pv[j + 1]);
    }
    let name = parts[0].clone();
    let r = Placeholder { name, query: Query { modifiers: mods } };
    assert(r@.modifiers =~= parsed_modifiers(pv.skip(1)));
    Some(r)
}

/// Reads the placeholders of `template` in order, or reports it malformed.
pub fn parse_template(template: &str) -> (r: Result<Vec<Placeholder>, FormatError>)
    ensures
        match r {
            Ok(ps) => placeholders_of(template@) == Some(placeholders_view(ps@)),
            Err(e) => e == FormatError::MalformedTemplate && placeholders_of(template@) is None,
        },
{
    let n = template.unicode_len();
    let mut out: Vec<Placeholder> = Vec::new();
    let mut i: usize = 0;
    assert(placeholders_view(out@) =~= Seq::<PlaceholderView>::empty());
    assert(match parse_from(template@, 0) {
        Some(rest) => Some(Seq::<PlaceholderView>::empty() + rest),
        None => None,
    } == parse_from(template@, 0)) by {
        if let Some(rest) = parse_from(template@, 0) {
            assert(Seq::<PlaceholderView>::empty() + rest =~= rest);
        }
    }
    while i < n
        invariant
            n == template@.len(),
            i <= n,
            placeholders_of(template@) == match parse_from(template@, i as int) {
                Some(rest) => Some(placeholders_view(out@) + rest),
                None => None,
            },
        decreases n - i,
    {
        if template.get_char(i) == '$' && i + 1 < n && template.get_char(i + 1) == '{' {
            proof {
                lemma_find_char(template@, '}', i + 2);
            }
            match find_char_from(template, '}', i + 2) {
                None => {
                    return Err(FormatError::MalformedTemplate);
                },
                Some(j) => {
                    let body = template.substring_char(i + 2, j);
                    match parse_body_text(body) {
                        None => {
                            return Err(FormatError::MalformedTemplate);
                        },
                        Some(p) => {
                            let ghost before = out@;
                            out.push(p);
                            assert(placeholders_view(out@) =~= placeholders_view(before).push(p@));
                            proof {
                                if let Some(rest) = parse_from(template@, j + 1) {
                                    assert(placeholders_view(before) + (seq![p@] + rest)
                                        =~= placeholders_view(out@) + rest);
                                }
                            }
                            i = j + 1;
                        },
                    }
                },
            }
        } else {
            i = i + 1;
        }
    }
    assert(placeholders_view(out@) + Seq::<PlaceholderView>::empty() =~= placeholders_view(out@));
    Ok(out)
}

} // verus!
