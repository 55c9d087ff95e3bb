//! Resolution of a parsed template against variable, meta and style maps,
//! yielding styled text segments.
//!
//! A variable may be present, legitimately absent, or broken. Absence
//! silently suppresses the nearest enclosing bracketed group (or just the
//! token itself at top level); a broken variable aborts the whole render.
//! A surviving group's style is attached to every segment it produced that
//! does not already carry a more specific one.

use vstd::prelude::*;

use crate::template::GNode;
use crate::template::TemplateNode;
use crate::template::gview_nodes;

verus! {

/// One piece of rendered output: text with an optional style name.
#[derive(Debug, PartialEq, Eq)]
pub struct Segment {
    pub text: String,
    pub style: Option<String>,
}

/// The mathematical shape of a segment.
pub ghost struct GSeg {
    pub text: Seq<char>,
    pub style: Option<Seq<char>>,
}

impl Segment {
    /// The segment's mathematical shape.
    pub open spec fn gview(self) -> GSeg {
        GSeg {
            text: self.text@,
            style: match self.style {
                Some(s) => Some(s@),
                None => None,
            },
        }
    }
}

/// The shapes of a list of segments.
pub open spec fn gview_segs(ss: Seq<Segment>) -> Seq<GSeg>
    decreases ss,
{
    if ss.len() == 0 {
        Seq::empty()
    } else {
        gview_segs(ss.drop_last()).push(ss.last().gview())
    }
}

/// What a value lookup reported for one variable.
#[derive(Debug, PartialEq, Eq)]
pub enum ValueOutcome {
    /// The variable has this text.
    Present(String),
    /// The variable legitimately has nothing to show.
    Absent,
    /// The provider failed hard, with this message.
    Failure(String),
}

/// The mathematical shape of a value outcome.
pub ghost enum GVal {
    Present(Seq<char>),
    Absent,
    Failure(Seq<char>),
}

impl ValueOutcome {
    /// The outcome's mathematical shape.
    pub open spec fn gview(self) -> GVal {
        match self {
            ValueOutcome::Present(t) => GVal::Present(t@),
            ValueOutcome::Absent => GVal::Absent,
            ValueOutcome::Failure(e) => GVal::Failure(e@),
        }
    }
}

/// The three lookup maps a render runs against: plain meta substitutions,
/// computed values, and style names. Each is consulted by first match.
pub struct ResolveEnv {
    pub meta: Vec<(String, String)>,
    pub values: Vec<(String, ValueOutcome)>,
    pub styles: Vec<(String, String)>,
}

/// First-match lookup in a list of string pairs.
pub open spec fn lookup(m: Seq<(String, String)>, k: Seq<char>) -> Option<Seq<char>>
    decreases m.len(),
{
    if m.len() == 0 {
        None
    } else if m.first().0@ == k {
        Some(m.first().1@)
    } else {
        lookup(m.drop_first(), k)
    }
}

/// First-match lookup in the value map.
pub open spec fn lookup_value(m: Seq<(String, ValueOutcome)>, k: Seq<char>) -> Option<GVal>
    decreases m.len(),
{
    if m.len() == 0 {
        None
    } else if m.first().0@ == k {
        Some(m.first().1.gview())
    } else {
        lookup_value(m.drop_first(), k)
    }
}

/// What a `$name` reference resolves to: the value map first; a name the
/// value map does not know falls back to plain meta substitution; a name
/// neither map knows counts as absent.
pub open spec fn resolve_var(env: ResolveEnv, name: Seq<char>) -> GVal {
    match lookup_value(env.values@, name) {
        Some(v) => v,
        None => match lookup(env.meta@, name) {
            Some(t) => GVal::Present(t),
            None => GVal::Absent,
        },
    }
}

/// The style a group reference names, if any: an unstyled group has none,
/// and a style name the style map does not know resolves to none.
pub open spec fn style_of(env: ResolveEnv, styleref: Option<Seq<char>>) -> Option<Seq<char>> {
    match styleref {
        None => None,
        Some(name) => lookup(env.styles@, name),
    }
}

/// Attaches `st` to every segment that does not already carry a style of
/// its own.
pub open spec fn apply_style(segs: Seq<GSeg>, st: Option<Seq<char>>) -> Seq<GSeg> {
    segs.map_values(
        |g: GSeg|
            GSeg {
                text: g.text,
                style: if g.style is Some {
                    g.style
                } else {
                    st
                },
            },
    )
}

/// The outcome of resolving a node sequence: its segments together with
/// whether some variable in the sequence (outside any nested bracketed
/// group) was absent, or the message of a hard failure.
pub ghost enum RRes {
    Segs { segs: Seq<GSeg>, dropped: bool },
    Fail { msg: Seq<char> },
}

/// Resolves one node.
pub open spec fn resolve_node(n: GNode, env: ResolveEnv) -> RRes
    decreases n,
{
    match n {
        GNode::Lit(t) => RRes::Segs { segs: seq![GSeg { text: t, style: None }], dropped: false },
        GNode::Meta(name) => RRes::Segs {
            segs: seq![
                GSeg {
                    text: match lookup(env.meta@, name) {
                        Some(t) => t,
                        None => Seq::empty(),
                    },
                    style: None,
                },
            ],
            dropped: false,
        },
        GNode::Var(name) => match resolve_var(env, name) {
            GVal::Present(t) => RRes::Segs {
                segs: seq![GSeg { text: t, style: None }],
                dropped: false,
            },
            GVal::Absent => RRes::Segs { segs: Seq::empty(), dropped: true },
            GVal::Failure(e) => RRes::Fail { msg: e },
        },
        GNode::Group(children, styleref) => match resolve_nodes(children, env) {
            RRes::Fail { msg } => RRes::Fail { msg },
            RRes::Segs { segs, dropped } => {
                if dropped {
                    RRes::Segs { segs: Seq::empty(), dropped: false }
                } else {
                    RRes::Segs { segs: apply_style(segs, style_of(env, styleref)), dropped: false }
                }
            },
        },
    }
}

/// Resolves a node sequence in order, concatenating the segments. The
/// leftmost hard failure wins; absence anywhere in the sequence marks it
/// dropped.
pub open spec fn resolve_nodes(ns: Seq<GNode>, env: ResolveEnv) -> RRes
    decreases ns,
{
    if ns.len() == 0 {
        RRes::Segs { segs: Seq::empty(), dropped: false }
    } else {
        match resolve_node(ns.first(), env) {
            RRes::Fail { msg } => RRes::Fail { msg },
            RRes::Segs { segs: s1, dropped: d1 } => match resolve_nodes(ns.drop_first(), env) {
                RRes::Fail { msg } => RRes::Fail { msg },
                RRes::Segs { segs: s2, dropped: d2 } => RRes::Segs {
                    segs: s1 + s2,
                    dropped: d1 || d2,
                },
            },
        }
    }
}

/// Appends one segment to an already-coalesced list: empty text vanishes,
/// and adjacent segments with one style merge into one.
pub open spec fn merge_push(acc: Seq<GSeg>, seg: GSeg) -> Seq<GSeg> {
    if seg.text.len() == 0 {
        acc
    } else if acc.len() > 0 && acc.last().style == seg.style {
        acc.drop_last().push(GSeg { text: acc.last().text + seg.text, style: seg.style })
    } else {
        acc.push(seg)
    }
}

/// Drops empty segments and merges adjacent segments that share a style.
pub open spec fn coalesce(segs: Seq<GSeg>) -> Seq<GSeg>
    decreases segs.len(),
{
    if segs.len() == 0 {
        Seq::empty()
    } else {
        merge_push(coalesce(segs.drop_last()), segs.last())
    }
}

/// The outcome of resolving a whole template.
pub ghost enum GResolve {
    Segs(Seq<GSeg>),
    Fail(Seq<char>),
}

/// What resolving a whole template yields: the coalesced segments of its
/// nodes, or the leftmost hard failure. An absent variable at top level
/// merely contributes nothing.
pub open spec fn resolve_template_spec(ns: Seq<GNode>, env: ResolveEnv) -> GResolve {
    match resolve_nodes(ns, env) {
        RRes::Fail { msg } => GResolve::Fail(msg),
        RRes::Segs { segs, dropped } => GResolve::Segs(coalesce(segs)),
    }
}

/// An absent variable among a sequence of nodes — outside any nested
/// bracketed group — marks the sequence's resolution dropped, provided no
/// node failed hard.
pub proof fn lemma_absent_variable_marks_dropped(children: Seq<GNode>, env: ResolveEnv, k: int)
    requires
        0 <= k < children.len(),
        children[k] matches GNode::Var(name) && resolve_var(env, name) == GVal::Absent,
        resolve_nodes(children, env) is Segs,
    ensures
        (match resolve_nodes(children, env) {
            RRes::Segs { segs, dropped } => dropped,
            RRes::Fail { msg } => false,
        }),
    decreases children.len(),
{
    let rest = children.drop_first();
    if k > 0 {
        assert(rest[k - 1] == children[k]);
        match resolve_node(children.first(), env) {
            RRes::Fail { msg } => {
                assert(false);
            },
            RRes::Segs { segs, dropped } => {
                assert(resolve_nodes(rest, env) is Segs);
                lemma_absent_variable_marks_dropped(rest, env, k - 1);
            },
        }
    }
}

/// Group suppression is all or nothing: once its children's resolution is
/// marked dropped, the group contributes no text and no style at all, and
/// does not pass the absence on to its own parent.
pub proof fn lemma_group_suppression(
    children: Seq<GNode>,
    styleref: Option<Seq<char>>,
    env: ResolveEnv,
)
    requires
        resolve_nodes(children, env) matches RRes::Segs { segs: _, dropped: true },
    ensures
        resolve_node(GNode::Group(children, styleref), env) == (RRes::Segs {
            segs: Seq::<GSeg>::empty(),
            dropped: false,
        }),
{
}

/// Style inheritance: a surviving unstyled group leaves its segments as
/// they are — no style by default — while a styled group attaches its
/// style to exactly those segments that do not already carry a more
/// specific one of their own.
pub proof fn lemma_style_inheritance(
    children: Seq<GNode>,
    stylename: Seq<char>,
    env: ResolveEnv,
    segs: Seq<GSeg>,
)
    requires
        resolve_nodes(children, env) == (RRes::Segs { segs, dropped: false }),
    ensures
        resolve_node(GNode::Group(children, None), env) == (RRes::Segs { segs, dropped: false }),
        resolve_node(GNode::Group(children, Some(stylename)), env) == (RRes::Segs {
            segs: apply_style(segs, lookup(env.styles@, stylename)),
            dropped: false,
        }),
        forall|i: int|
            0 <= i < segs.len() ==> apply_style(segs, lookup(env.styles@, stylename))[i]
                == (GSeg {
                text: segs[i].text,
                style: if segs[i].style is Some {
                    segs[i].style
                } else {
                    lookup(env.styles@, stylename)
                },
            }),
{
    assert(apply_style(segs, None) =~= segs);
}

/// Resolution distributes over concatenation of node sequences: the
/// segments concatenate, absence marks carry over, and the leftmost hard
/// failure wins.
pub proof fn lemma_resolve_nodes_concat(a: Seq<GNode>, b: Seq<GNode>, env: ResolveEnv)
    ensures
        (match (resolve_nodes(a, env), resolve_nodes(b, env)) {
            (RRes::Fail { msg }, _) => resolve_nodes(a + b, env) == (RRes::Fail { msg }),
            (RRes::Segs { segs: s1, dropped: d1 }, RRes::Fail { msg }) => resolve_nodes(a + b, env)
                == (RRes::Fail { msg }),
            (RRes::Segs { segs: s1, dropped: d1 }, RRes::Segs { segs: s2, dropped: d2 }) => resolve_nodes(
                a + b,
                env,
            ) == (RRes::Segs { segs: s1 + s2, dropped: d1 || d2 }),
        }),
    decreases a.len(),
{
    if a.len() == 0 {
        assert(a + b =~= b);
        match resolve_nodes(b, env) {
            RRes::Fail { msg } => {},
            RRes::Segs { segs: s2, dropped: d2 } => {
                assert(Seq::<GSeg>::empty() + s2 =~= s2);
            },
        }
    } else {
        assert((a + b).first() == a.first());
        assert((a + b).drop_first() =~= a.drop_first() + b);
        lemma_resolve_nodes_concat(a.drop_first(), b, env);
        match resolve_node(a.first(), env) {
            RRes::Fail { msg } => {},
            RRes::Segs { segs: s1, dropped: d1 } => {
                match (resolve_nodes(a.drop_first(), env), resolve_nodes(b, env)) {
                    (RRes::Segs { segs: sr, dropped: dr }, RRes::Segs { segs: s2, dropped: d2 }) => {
                        assert(s1 + (sr + s2) =~= (s1 + sr) + s2);
                    },
                    _ => {},
                }
            },
        }
    }
}

/// Group rollback is atomic within a whole template: when a group's
/// contents are marked dropped — say a variable inside resolved to
/// absent — and nothing in the template fails hard, the rendered output
/// is exactly the surrounding tokens' coalesced segments; none of the
/// group's text and none of its style leaks out.
pub proof fn lemma_group_rollback_in_template(
    prefix: Seq<GNode>,
    children: Seq<GNode>,
    styleref: Option<Seq<char>>,
    suffix: Seq<GNode>,
    env: ResolveEnv,
    segs_before: Seq<GSeg>,
    dropped_before: bool,
    segs_after: Seq<GSeg>,
    dropped_after: bool,
)
    requires
        resolve_nodes(prefix, env) == (RRes::Segs { segs: segs_before, dropped: dropped_before }),
        resolve_nodes(children, env) matches RRes::Segs { segs: _, dropped: true },
        resolve_nodes(suffix, env) == (RRes::Segs { segs: segs_after, dropped: dropped_after }),
    ensures
        resolve_template_spec(prefix + seq![GNode::Group(children, styleref)] + suffix, env)
            == GResolve::Segs(coalesce(segs_before + segs_after)),
{
    lemma_group_suppression(children, styleref, env);
    let g = GNode::Group(children, styleref);
    assert(seq![g].first() == g);
    assert(seq![g].drop_first() =~= Seq::<GNode>::empty());
    assert(resolve_nodes(Seq::<GNode>::empty(), env) == (RRes::Segs {
        segs: Seq::<GSeg>::empty(),
        dropped: false,
    }));
    assert(Seq::<GSeg>::empty() + Seq::<GSeg>::empty() =~= Seq::<GSeg>::empty());
    assert(resolve_nodes(seq![g], env) == (RRes::Segs {
        segs: Seq::<GSeg>::empty(),
        dropped: false,
    }));
    lemma_resolve_nodes_concat(prefix, seq![g], env);
    assert(segs_before + Seq::<GSeg>::empty() =~= segs_before);
    assert(resolve_nodes(prefix + seq![g], env) == (RRes::Segs {
        segs: segs_before,
        dropped: dropped_before || false,
    }));
    lemma_resolve_nodes_concat(prefix + seq![g], suffix, env);
}

/// Style inheritance across a whole template: with an unstyled group and
/// a styled group standing side by side and every variable inside both
/// resolving, the unstyled group's segments come out as they are — no
/// style by default — and the styled group's segments carry its style
/// exactly where they do not carry a more specific one of their own; the
/// output is the coalesced concatenation of the two.
pub proof fn lemma_style_inheritance_in_template(
    plain_children: Seq<GNode>,
    styled_children: Seq<GNode>,
    stylename: Seq<char>,
    env: ResolveEnv,
    plain_segs: Seq<GSeg>,
    styled_segs: Seq<GSeg>,
)
    requires
        resolve_nodes(plain_children, env) == (RRes::Segs { segs: plain_segs, dropped: false }),
        resolve_nodes(styled_children, env) == (RRes::Segs { segs: styled_segs, dropped: false }),
    ensures
        resolve_template_spec(
            seq![
                GNode::Group(plain_children, None),
                GNode::Group(styled_children, Some(stylename)),
            ],
            env,
        ) == GResolve::Segs(
            coalesce(plain_segs + apply_style(styled_segs, lookup(env.styles@, stylename))),
        ),
        forall|i: int|
            0 <= i < styled_segs.len() ==> apply_style(
                styled_segs,
                lookup(env.styles@, stylename),
            )[i] == (GSeg {
                text: styled_segs[i].text,
                style: if styled_segs[i].style is Some {
                    styled_segs[i].style
                } else {
                    lookup(env.styles@, stylename)
                },
            }),
{
    lemma_style_inheritance(plain_children, stylename, env, plain_segs);
    lemma_style_inheritance(styled_children, stylename, env, styled_segs);
    let g1 = GNode::Group(plain_children, None);
    let g2 = GNode::Group(styled_children, Some(stylename));
    let styled = apply_style(styled_segs, lookup(env.styles@, stylename));
    assert(seq![g1, g2].first() == g1);
    assert(seq![g1, g2].drop_first() =~= seq![g2]);
    assert(seq![g2].first() == g2);
    assert(seq![g2].drop_first() =~= Seq::<GNode>::empty());
    assert(resolve_nodes(Seq::<GNode>::empty(), env) == (RRes::Segs {
        segs: Seq::<GSeg>::empty(),
        dropped: false,
    }));
    assert(styled + Seq::<GSeg>::empty() =~= styled);
    assert(resolve_nodes(seq![g2], env) == (RRes::Segs { segs: styled, dropped: false }));
    assert(resolve_nodes(seq![g1, g2], env) == (RRes::Segs {
        segs: plain_segs + styled,
        dropped: false,
    }));
}

/// Segment shapes distribute over push.
pub proof fn lemma_gview_segs_push(s: Seq<Segment>, x: Segment)
    ensures
        gview_segs(s.push(x)) == gview_segs(s).push(x.gview()),
{
    assert(s.push(x).drop_last() =~= s);
    assert(s.push(x).last() == x);
}

/// Segment shapes distribute over concatenation.
pub proof fn lemma_gview_segs_concat(a: Seq<Segment>, b: Seq<Segment>)
    ensures
        gview_segs(a + b) == gview_segs(a) + gview_segs(b),
    decreases b.len(),
{
    if b.len() == 0 {
        assert(a + b =~= a);
        assert(gview_segs(a) + gview_segs(b) =~= gview_segs(a));
    } else {
        lemma_gview_segs_concat(a, b.drop_last());
        assert((a + b).drop_last() =~= a + b.drop_last());
        assert((a + b).last() == b.last());
        assert(gview_segs(a) + gview_segs(b) =~= (gview_segs(a) + gview_segs(
            b.drop_last(),
        )).push(b.last().gview()));
    }
}

/// A node list and its shapes have one length.
pub proof fn lemma_gview_nodes_len(ns: Seq<TemplateNode>)
    ensures
        gview_nodes(ns).len() == ns.len(),
    decreases ns.len(),
{
    if ns.len() > 0 {
        lemma_gview_nodes_len(ns.drop_last());
    }
}

/// The shape list holds each node's shape at its own index.
pub proof fn lemma_gview_nodes_index(ns: Seq<TemplateNode>, i: int)
    requires
        0 <= i < ns.len(),
    ensures
        gview_nodes(ns).len() == ns.len(),
        gview_nodes(ns)[i] == ns[i].gview(),
    decreases ns.len(),
{
    lemma_gview_nodes_len(ns);
    if i < ns.len() - 1 {
        lemma_gview_nodes_index(ns.drop_last(), i);
        assert(ns.drop_last()[i] == ns[i]);
    }
}

/// The view of an optional style name.
pub open spec fn style_view(o: Option<String>) -> Option<Seq<char>> {
    match o {
        Some(s) => Some(s@),
        None => None,
    }
}

/// Copies an optional style name.
fn clone_style(o: &Option<String>) -> (r: Option<String>)
    ensures
        style_view(r) == style_view(*o),
{
    match o {
        Some(s) => Some(s.clone()),
        None => None,
    }
}

/// First-match lookup, handing back a copy of the value found.
fn lookup_exec(m: &Vec<(String, String)>, k: &String) -> (r: Option<String>)
    ensures
        match r {
            Some(t) => lookup(m@, k@) == Some(t@),
            None => lookup(m@, k@) is None,
        },
{
    let mut i: usize = 0;
    proof {
        assert(m@.skip(0) =~= m@);
    }
    while i < m.len()
        invariant
            i <= m@.len(),
            lookup(m@, k@) == lookup(m@.skip(i as int), k@),
        decreases m@.len() - i,
    {
        proof {
            assert(m@.skip(i as int).first() == m@[i as int]);
            assert(m@.skip(i as int).drop_first() =~= m@.skip(i + 1));
        }
        if m[i].0.eq(k) {
            return Some(m[i].1.clone());
        }
        i += 1;
    }
    proof {
        assert(m@.skip(m@.len() as int).len() == 0);
    }
    None
}

/// First-match lookup in the value map, handing back a copy.
fn lookup_value_exec(m: &Vec<(String, ValueOutcome)>, k: &String) -> (r: Option<ValueOutcome>)
    ensures
        match r {
            Some(v) => lookup_value(m@, k@) == Some(v.gview()),
            None => lookup_value(m@, k@) is None,
        },
{
    let mut i: usize = 0;
    proof {
        assert(m@.skip(0) =~= m@);
    }
    while i < m.len()
        invariant
            i <= m@.len(),
            lookup_value(m@, k@) == lookup_value(m@.skip(i as int), k@),
        decreases m@.len() - i,
    {
        proof {
            assert(m@.skip(i as int).first() == m@[i as int]);
            assert(m@.skip(i as int).drop_first() =~= m@.skip(i + 1));
        }
        if m[i].0.eq(k) {
            let copy = match &m[i].1 {
                ValueOutcome::Present(t) => ValueOutcome::Present(t.clone()),
                ValueOutcome::Absent => ValueOutcome::Absent,
                ValueOutcome::Failure(e) => ValueOutcome::Failure(e.clone()),
            };
            return Some(copy);
        }
        i += 1;
    }
    proof {
        assert(lookup_value(m@.skip(m@.len() as int), k@) is None);
    }
    None
}

/// A one-segment list from owned text, with no style.
fn one_segment(text: String) -> (r: Vec<Segment>)
    ensures
        gview_segs(r@) == seq![GSeg { text: text@, style: None }],
{
    let ghost t = text@;
    let mut v: Vec<Segment> = Vec::new();
    v.push(Segment { text, style: None });
    proof {
        assert(v@.drop_last() =~= Seq::<Segment>::empty());
        assert(gview_segs(Seq::<Segment>::empty()) == Seq::<GSeg>::empty());
        assert(v@.last().gview() == (GSeg { text: t, style: None }));
        assert(gview_segs(v@) == gview_segs(v@.drop_last()).push(v@.last().gview()));
        assert(gview_segs(v@) =~= seq![GSeg { text: t, style: None }]);
    }
    v
}

/// Attaches `st` to every segment without a style of its own, as
/// [`apply_style`] describes.
fn apply_style_exec(segs: Vec<Segment>, st: Option<String>) -> (r: Vec<Segment>)
    ensures
        gview_segs(r@) == apply_style(gview_segs(segs@), style_view(st)),
{
    let ghost all = gview_segs(segs@);
    proof {
        lemma_gview_segs_len_local(segs@);
    }
    let mut out: Vec<Segment> = Vec::new();
    let mut i: usize = 0;
    while i < segs.len()
        invariant
            i <= segs@.len(),
            all == gview_segs(segs@),
            all.len() == segs@.len(),
            gview_segs(out@) == apply_style(all.subrange(0, i as int), style_view(st)),
        decreases segs@.len() - i,
    {
        let ghost outv = out@;
        let styled = match &segs[i].style {
            Some(s) => Some(s.clone()),
            None => clone_style(&st),
        };
        out.push(Segment { text: segs[i].text.clone(), style: styled });
        proof {
            lemma_gview_segs_push(outv, out@.last());
            lemma_gview_segs_index_local(segs@, i as int);
            assert(all.subrange(0, i + 1).drop_last() =~= all.subrange(0, i as int));
            assert(gview_segs(out@) =~= apply_style(all.subrange(0, i + 1), style_view(st)));
        }
        i += 1;
    }
    proof {
        assert(all.subrange(0, all.len() as int) =~= all);
    }
    out
}

/// A segment list and its shapes have one length.
proof fn lemma_gview_segs_len_local(ss: Seq<Segment>)
    ensures
        gview_segs(ss).len() == ss.len(),
    decreases ss.len(),
{
    if ss.len() > 0 {
        lemma_gview_segs_len_local(ss.drop_last());
    }
}

/// The shape list holds each segment's shape at its own index.
proof fn lemma_gview_segs_index_local(ss: Seq<Segment>, i: int)
    requires
        0 <= i < ss.len(),
    ensures
        gview_segs(ss).len() == ss.len(),
        gview_segs(ss)[i] == ss[i].gview(),
    decreases ss.len(),
{
    lemma_gview_segs_len_local(ss);
    if i < ss.len() - 1 {
        lemma_gview_segs_index_local(ss.drop_last(), i);
        assert(ss.drop_last()[i] == ss[i]);
    }
}

/// Resolves one node, mirroring [`resolve_node`].
fn resolve_node_exec(n: &TemplateNode, env: &ResolveEnv) -> (r: Result<(Vec<Segment>, bool), String>)
    ensures
        match r {
            Ok(p) => resolve_node(n.gview(), *env) == (RRes::Segs {
                segs: gview_segs(p.0@),
                dropped: p.1,
            }),
            Err(e) => resolve_node(n.gview(), *env) == (RRes::Fail { msg: e@ }),
        },
    decreases *n, 0int,
{
    match n {
        TemplateNode::Literal(t) => Ok((one_segment(t.clone()), false)),
        TemplateNode::Meta(name) => {
            let text = match lookup_exec(&env.meta, name) {
                Some(t) => t,
                None => String::new(),
            };
            Ok((one_segment(text), false))
        },
        TemplateNode::Variable(name) => {
            match lookup_value_exec(&env.values, name) {
                Some(ValueOutcome::Present(t)) => Ok((one_segment(t), false)),
                Some(ValueOutcome::Absent) => Ok((Vec::new(), true)),
                Some(ValueOutcome::Failure(e)) => Err(e),
                None => match lookup_exec(&env.meta, name) {
                    Some(t) => Ok((one_segment(t), false)),
                    None => Ok((Vec::new(), true)),
                },
            }
        },
        TemplateNode::Group(children, styleref) => {
            proof {
                assert(gview_nodes(children@).skip(0) =~= gview_nodes(children@));
            }
            match resolve_nodes_exec(children, 0, env) {
                Err(e) => Err(e),
                Ok((segs, dropped)) => {
                    if dropped {
                        Ok((Vec::new(), false))
                    } else {
                        let st = match styleref {
                            Some(name) => lookup_exec(&env.styles, name),
                            None => None,
                        };
                        Ok((apply_style_exec(segs, st), false))
                    }
                },
            }
        },
    }
}

/// Resolves the nodes from `idx` on, mirroring [`resolve_nodes`].
fn resolve_nodes_exec(nodes: &Vec<TemplateNode>, idx: usize, env: &ResolveEnv) -> (r: Result<
    (Vec<Segment>, bool),
    String,
>)
    requires
        idx <= nodes@.len(),
    ensures
        match r {
            Ok(p) => resolve_nodes(gview_nodes(nodes@).skip(idx as int), *env) == (RRes::Segs {
                segs: gview_segs(p.0@),
                dropped: p.1,
            }),
            Err(e) => resolve_nodes(gview_nodes(nodes@).skip(idx as int), *env) == (RRes::Fail {
                msg: e@,
            }),
        },
    decreases *nodes, nodes@.len() - idx,
{
    proof {
        lemma_gview_nodes_len(nodes@);
    }
    if idx >= nodes.len() {
        proof {
            assert(gview_nodes(nodes@).skip(idx as int).len() == 0);
        }
        Ok((Vec::new(), false))
    } else {
        proof {
            lemma_gview_nodes_index(nodes@, idx as int);
            assert(gview_nodes(nodes@).skip(idx as int).first() == gview_nodes(
                nodes@,
            )[idx as int]);
            assert(gview_nodes(nodes@).skip(idx as int).drop_first() =~= gview_nodes(nodes@).skip(
                idx + 1,
            ));
        }
        match resolve_node_exec(&nodes[idx], env) {
            Err(e) => Err(e),
            Ok((mut s1, d1)) => {
                match resolve_nodes_exec(nodes, idx + 1, env) {
                    Err(e) => Err(e),
                    Ok((mut s2, d2)) => {
                        let ghost s1v = s1@;
                        let ghost s2v = s2@;
                        s1.append(&mut s2);
                        proof {
                            lemma_gview_segs_concat(s1v, s2v);
                        }
                        Ok((s1, d1 || d2))
                    },
                }
            },
        }
    }
}

/// Do the two segments carry one style?
fn style_eq(a: &Option<String>, b: &Option<String>) -> (r: bool)
    ensures
        r == (style_view(*a) == style_view(*b)),
{
    match (a, b) {
        (None, None) => true,
        (Some(x), Some(y)) => x.eq(y),
        _ => {
            proof {
                assert(style_view(*a) != style_view(*b));
            }
            false
        },
    }
}

/// Coalesces a segment list, as [`coalesce`] describes: empty segments
/// vanish and adjacent segments with one style merge.
fn coalesce_exec(segs: Vec<Segment>) -> (r: Vec<Segment>)
    ensures
        gview_segs(r@) == coalesce(gview_segs(segs@)),
{
    let ghost all = gview_segs(segs@);
    proof {
        lemma_gview_segs_len_local(segs@);
    }
    let mut out: Vec<Segment> = Vec::new();
    let mut i: usize = 0;
    while i < segs.len()
        invariant
            i <= segs@.len(),
            all == gview_segs(segs@),
            all.len() == segs@.len(),
            gview_segs(out@) == coalesce(all.subrange(0, i as int)),
        decreases segs@.len() - i,
    {
        proof {
            lemma_gview_segs_index_local(segs@, i as int);
            assert(all.subrange(0, i + 1).drop_last() =~= all.subrange(0, i as int));
            assert(all.subrange(0, i + 1).last() == all[i as int]);
        }
        let ghost outv = out@;
        if segs[i].text.as_str().is_empty() {
            // an empty segment contributes nothing
        } else {
            let mergeable = if out.len() > 0 {
                let last = out.len() - 1;
                style_eq(&out[last].style, &segs[i].style)
            } else {
                false
            };
            if mergeable {
                match out.pop() {
                    Some(mut top) => {
                        let ghost topv = top.gview();
                        top.text.append(segs[i].text.as_str());
                        out.push(top);
                        proof {
                            assert(outv.drop_last() =~= out@.drop_last());
                            lemma_gview_segs_push(out@.drop_last(), out@.last());
                            assert(gview_segs(outv).drop_last() =~= gview_segs(out@.drop_last()));
                            assert(gview_segs(out@) =~= coalesce(all.subrange(0, i + 1)));
                        }
                    },
                    None => {
                        proof {
                            assert(false);
                        }
                    },
                }
            } else {
                out.push(
                    Segment { text: segs[i].text.clone(), style: clone_style(&segs[i].style) },
                );
                proof {
                    lemma_gview_segs_push(outv, out@.last());
                    assert(gview_segs(out@) =~= coalesce(all.subrange(0, i + 1)));
                }
            }
        }
        i += 1;
    }
    proof {
        assert(all.subrange(0, all.len() as int) =~= all);
    }
    out
}

/// Resolves a whole template against the maps in `env`, yielding the
/// ordered, coalesced segments, or the message of the leftmost hard
/// failure. Absence of a variable never fails the render: it only
/// suppresses the nearest enclosing bracketed group, or the token itself
/// at top level.
pub fn resolve_template(nodes: &Vec<TemplateNode>, env: &ResolveEnv) -> (r: Result<
    Vec<Segment>,
    String,
>)
    ensures
        match r {
            Ok(segs) => resolve_template_spec(gview_nodes(nodes@), *env) == GResolve::Segs(
                gview_segs(segs@),
            ),
            Err(e) => resolve_template_spec(gview_nodes(nodes@), *env) == GResolve::Fail(e@),
        },
{
    proof {
        assert(gview_nodes(nodes@).skip(0) =~= gview_nodes(nodes@));
    }
    match resolve_nodes_exec(nodes, 0, env) {
        Ok((segs, _dropped)) => Ok(coalesce_exec(segs)),
        Err(e) => Err(e),
    }
}

} // verus!
