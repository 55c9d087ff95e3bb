//! Parsing of format strings into template trees.

use vstd::prelude::*;

verus! {

/// One node of a parsed template.
#[derive(Debug, PartialEq, Eq)]
pub enum TemplateNode {
    /// Literal text, emitted as it stands.
    Literal(String),
    /// A `$name` reference, resolved through the value map and then the
    /// meta map.
    Variable(String),
    /// A reference resolved through the meta map alone, by plain string
    /// substitution.
    Meta(String),
    /// A conditional group: an ordered sub-template and, optionally, the
    /// name of a style variable attached to the whole group.
    Group(Vec<TemplateNode>, Option<String>),
}

/// The mathematical shape of a template node: the same tree over character
/// sequences.
pub ghost enum GNode {
    Lit(Seq<char>),
    Var(Seq<char>),
    Meta(Seq<char>),
    Group(Seq<GNode>, Option<Seq<char>>),
}

impl TemplateNode {
    /// The node's mathematical shape.
    pub open spec fn gview(self) -> GNode
        decreases self,
    {
        match self {
            TemplateNode::Literal(t) => GNode::Lit(t@),
            TemplateNode::Variable(n) => GNode::Var(n@),
            TemplateNode::Meta(n) => GNode::Meta(n@),
            TemplateNode::Group(children, style) => GNode::Group(
                gview_nodes(children@),
                match style {
                    Some(s) => Some(s@),
                    None => None,
                },
            ),
        }
    }
}

/// The shapes of a list of nodes.
pub open spec fn gview_nodes(ns: Seq<TemplateNode>) -> Seq<GNode>
    decreases ns,
{
    if ns.len() == 0 {
        Seq::empty()
    } else {
        gview_nodes(ns.drop_last()).push(ns.last().gview())
    }
}

/// Shapes distribute over concatenation of node lists.
pub proof fn lemma_gview_nodes_concat(a: Seq<TemplateNode>, b: Seq<TemplateNode>)
    ensures
        gview_nodes(a + b) == gview_nodes(a) + gview_nodes(b),
    decreases b.len(),
{
    if b.len() == 0 {
        assert(a + b =~= a);
        assert(gview_nodes(a) + gview_nodes(b) =~= gview_nodes(a));
    } else {
        lemma_gview_nodes_concat(a, b.drop_last());
        assert((a + b).drop_last() =~= a + b.drop_last());
        assert(gview_nodes(a) + gview_nodes(b) =~= (gview_nodes(a) + gview_nodes(
            b.drop_last(),
        )).push(b.last().gview()));
    }
}

/// The shape of a one-node list.
pub proof fn lemma_gview_nodes_one(x: TemplateNode)
    ensures
        gview_nodes(seq![x]) == seq![x.gview()],
{
    assert(seq![x].drop_last() =~= Seq::<TemplateNode>::empty());
    assert(gview_nodes(Seq::<TemplateNode>::empty()) == Seq::<GNode>::empty());
    assert(seq![x].last() == x);
    assert(gview_nodes(seq![x]) == gview_nodes(seq![x].drop_last()).push(seq![x].last().gview()));
    assert(gview_nodes(seq![x]) =~= seq![x.gview()]);
}

/// Is `c` one of the characters the grammar gives meaning to?
pub open spec fn special_char(c: char) -> bool {
    c == '$' || c == '[' || c == ']' || c == '(' || c == ')' || c == '\\'
}

/// May `c` stand in a variable name? Letters, digits and `_`.
pub open spec fn ident_char(c: char) -> bool {
    (97 <= c as u32 && c as u32 <= 122) || (65 <= c as u32 && c as u32 <= 90) || (48 <= c as u32
        && c as u32 <= 57) || c as u32 == 95
}

/// The first position at or after `i` that does not hold an identifier
/// character (or the end of the string).
pub open spec fn scan_ident(s: Seq<char>, i: int) -> int
    decreases s.len() - i,
{
    if i < 0 || i >= s.len() || !ident_char(s[i]) {
        i
    } else {
        scan_ident(s, i + 1)
    }
}

/// The first position at or after `i` that holds a special character (or
/// the end of the string): the end of a literal run.
pub open spec fn scan_run(s: Seq<char>, i: int) -> int
    decreases s.len() - i,
{
    if i < 0 || i >= s.len() || special_char(s[i]) {
        i
    } else {
        scan_run(s, i + 1)
    }
}

/// The outcome of parsing a node sequence: the nodes together with the
/// position where parsing stopped, or the position of the offending
/// character.
pub ghost enum PItems {
    Items { nodes: Seq<GNode>, end: int },
    Fault { at: int },
}

/// Parses a sequence of template items starting at `i`. The sequence ends
/// at the end of input when `closer` is `None`, otherwise at the closing
/// character awaited by the enclosing construct. `fuel` bounds the
/// recursion; one unit per item or nested construct suffices, so the
/// string's length does.
///
/// The grammar: a run of ordinary characters is a literal; `\` followed by
/// a special character is that character as a literal; `$name` is a
/// variable reference; `[body]` is a conditional group, and a `(name)` or
/// `($name)` right after its `]` attaches a style variable to it;
/// parentheses anywhere else merely bracket their contents, which are
/// spliced into the surrounding sequence — so an absent variable inside
/// them suppresses the nearest enclosing *bracketed* group.
pub open spec fn parse_items(s: Seq<char>, i: int, closer: Option<char>, fuel: nat) -> PItems
    decreases fuel,
{
    if i < 0 {
        PItems::Fault { at: i }
    } else if i >= s.len() {
        if closer is None {
            PItems::Items { nodes: Seq::empty(), end: i }
        } else {
            PItems::Fault { at: i }
        }
    } else {
        let c = s[i];
        if c == ']' || c == ')' {
            if closer == Some(c) {
                PItems::Items { nodes: Seq::empty(), end: i }
            } else {
                PItems::Fault { at: i }
            }
        } else if fuel == 0 {
            PItems::Fault { at: i }
        } else {
            let f = (fuel - 1) as nat;
            if c == '\\' {
                if i + 1 < s.len() && special_char(s[i + 1]) {
                    match parse_items(s, i + 2, closer, f) {
                        PItems::Items { nodes, end } => PItems::Items {
                            nodes: seq![GNode::Lit(seq![s[i + 1]])] + nodes,
                            end,
                        },
                        PItems::Fault { at } => PItems::Fault { at },
                    }
                } else {
                    PItems::Fault { at: i }
                }
            } else if c == '$' {
                let e = scan_ident(s, i + 1);
                if e == i + 1 {
                    PItems::Fault { at: i }
                } else {
                    match parse_items(s, e, closer, f) {
                        PItems::Items { nodes, end } => PItems::Items {
                            nodes: seq![GNode::Var(s.subrange(i + 1, e))] + nodes,
                            end,
                        },
                        PItems::Fault { at } => PItems::Fault { at },
                    }
                }
            } else if c == '[' {
                match parse_items(s, i + 1, Some(']'), f) {
                    PItems::Fault { at } => PItems::Fault { at },
                    PItems::Items { nodes: children, end: j } => {
                        if j < s.len() && s[j] == ']' {
                            if j + 1 < s.len() && s[j + 1] == '(' {
                                let k = if j + 2 < s.len() && s[j + 2] == '$' {
                                    j + 3
                                } else {
                                    j + 2
                                };
                                let e = scan_ident(s, k);
                                if e == k {
                                    PItems::Fault { at: k }
                                } else if e < s.len() && s[e] == ')' {
                                    match parse_items(s, e + 1, closer, f) {
                                        PItems::Items { nodes, end } => PItems::Items {
                                            nodes: seq![
                                                GNode::Group(children, Some(s.subrange(k, e))),
                                            ] + nodes,
                                            end,
                                        },
                                        PItems::Fault { at } => PItems::Fault { at },
                                    }
                                } else {
                                    PItems::Fault { at: e }
                                }
                            } else {
                                match parse_items(s, j + 1, closer, f) {
                                    PItems::Items { nodes, end } => PItems::Items {
                                        nodes: seq![GNode::Group(children, None)] + nodes,
                                        end,
                                    },
                                    PItems::Fault { at } => PItems::Fault { at },
                                }
                            }
                        } else {
                            PItems::Fault { at: j }
                        }
                    },
                }
            } else if c == '(' {
                match parse_items(s, i + 1, Some(')'), f) {
                    PItems::Fault { at } => PItems::Fault { at },
                    PItems::Items { nodes: spliced, end: j } => {
                        if j < s.len() && s[j] == ')' {
                            match parse_items(s, j + 1, closer, f) {
                                PItems::Items { nodes, end } => PItems::Items {
                                    nodes: spliced + nodes,
                                    end,
                                },
                                PItems::Fault { at } => PItems::Fault { at },
                            }
                        } else {
                            PItems::Fault { at: j }
                        }
                    },
                }
            } else {
                let e = scan_run(s, i);
                match parse_items(s, e, closer, f) {
                    PItems::Items { nodes, end } => PItems::Items {
                        nodes: seq![GNode::Lit(s.subrange(i, e))] + nodes,
                        end,
                    },
                    PItems::Fault { at } => PItems::Fault { at },
                }
            }
        }
    }
}

/// The outcome of parsing a whole format string: all-or-nothing.
pub ghost enum GParse {
    Tree(Seq<GNode>),
    Fault(int),
}

/// What parsing a whole format string yields.
pub open spec fn parse_template_spec(s: Seq<char>) -> GParse {
    match parse_items(s, 0, None, s.len() as nat) {
        PItems::Items { nodes, end } => GParse::Tree(nodes),
        PItems::Fault { at } => GParse::Fault(at),
    }
}

/// A malformed format string, with the position (in characters) of the
/// offending character or of the end of input.
#[derive(Debug, PartialEq, Eq)]
pub struct TemplateSyntaxError {
    pub at: usize,
}

/// Whether `c` may stand in a variable name.
fn is_ident_char(c: char) -> (r: bool)
    ensures
        r == ident_char(c),
{
    let u = c as u32;
    (97 <= u && u <= 122) || (65 <= u && u <= 90) || (48 <= u && u <= 57) || u == 95
}

/// Whether the grammar gives `c` meaning.
fn is_special_char(c: char) -> (r: bool)
    ensures
        r == special_char(c),
{
    c == '$' || c == '[' || c == ']' || c == '(' || c == ')' || c == '\\'
}

/// The end of the identifier starting at `i`, as [`scan_ident`] gives it.
fn scan_ident_exec(s: &str, n: usize, i: usize) -> (r: usize)
    requires
        n == s@.len(),
        i <= n,
    ensures
        i <= r <= n,
        r as int == scan_ident(s@, i as int),
{
    let mut j = i;
    while j < n && is_ident_char(s.get_char(j))
        invariant
            i <= j <= n,
            n == s@.len(),
            scan_ident(s@, i as int) == scan_ident(s@, j as int),
        decreases n - j,
    {
        j += 1;
    }
    j
}

/// The end of the literal run starting at `i`, as [`scan_run`] gives it.
fn scan_run_exec(s: &str, n: usize, i: usize) -> (r: usize)
    requires
        n == s@.len(),
        i <= n,
    ensures
        i <= r <= n,
        r as int == scan_run(s@, i as int),
{
    let mut j = i;
    while j < n && !is_special_char(s.get_char(j))
        invariant
            i <= j <= n,
            n == s@.len(),
            scan_run(s@, i as int) == scan_run(s@, j as int),
        decreases n - j,
    {
        j += 1;
    }
    j
}

/// Wraps one parsed node in front of the nodes that follow it.
fn cons_node(node: TemplateNode, rest: Vec<TemplateNode>) -> (r: Vec<TemplateNode>)
    ensures
        gview_nodes(r@) == seq![node.gview()] + gview_nodes(rest@),
{
    let ghost nodev = node.gview();
    let ghost restv = rest@;
    let mut out: Vec<TemplateNode> = Vec::new();
    out.push(node);
    let ghost onev = out@;
    let mut rest = rest;
    out.append(&mut rest);
    proof {
        lemma_gview_nodes_one(onev[0]);
        assert(onev =~= seq![onev[0]]);
        lemma_gview_nodes_concat(onev, restv);
        assert(gview_nodes(out@) =~= seq![nodev] + gview_nodes(restv));
    }
    out
}

/// Parses items from position `i`, mirroring [`parse_items`] exactly.
fn parse_items_exec(s: &str, n: usize, i: usize, closer: Option<char>, fuel: usize) -> (r: Result<
    (Vec<TemplateNode>, usize),
    usize,
>)
    requires
        n == s@.len(),
        i <= n,
    ensures
        match r {
            Ok((nodes, end)) => end <= n && parse_items(s@, i as int, closer, fuel as nat)
                == (PItems::Items { nodes: gview_nodes(nodes@), end: end as int }),
            Err(at) => parse_items(s@, i as int, closer, fuel as nat) == (PItems::Fault {
                at: at as int,
            }),
        },
    decreases fuel,
{
    if i >= n {
        match closer {
            None => Ok((Vec::new(), i)),
            Some(_) => Err(i),
        }
    } else {
        let c = s.get_char(i);
        if c == ']' || c == ')' {
            let stop = match closer {
                Some(cc) => cc == c,
                None => false,
            };
            if stop {
                Ok((Vec::new(), i))
            } else {
                Err(i)
            }
        } else if fuel == 0 {
            Err(i)
        } else {
            let f = fuel - 1;
            if c == '\\' {
                if i + 1 < n && is_special_char(s.get_char(i + 1)) {
                    let lit = s.substring_char(i + 1, i + 2).to_owned();
                    proof {
                        assert(lit@ =~= seq![s@[i + 1]]);
                    }
                    match parse_items_exec(s, n, i + 2, closer, f) {
                        Ok((nodes, end)) => Ok((cons_node(TemplateNode::Literal(lit), nodes), end)),
                        Err(at) => Err(at),
                    }
                } else {
                    Err(i)
                }
            } else if c == '$' {
                let e = scan_ident_exec(s, n, i + 1);
                if e == i + 1 {
                    Err(i)
                } else {
                    let name = s.substring_char(i + 1, e).to_owned();
                    match parse_items_exec(s, n, e, closer, f) {
                        Ok((nodes, end)) => Ok(
                            (cons_node(TemplateNode::Variable(name), nodes), end),
                        ),
                        Err(at) => Err(at),
                    }
                }
            } else if c == '[' {
                match parse_items_exec(s, n, i + 1, Some(']'), f) {
                    Err(at) => Err(at),
                    Ok((children, j)) => {
                        if j < n && s.get_char(j) == ']' {
                            if j + 1 < n && s.get_char(j + 1) == '(' {
                                let k = if j + 2 < n && s.get_char(j + 2) == '$' {
                                    j + 3
                                } else {
                                    j + 2
                                };
                                let e = scan_ident_exec(s, n, k);
                                if e == k {
                                    Err(k)
                                } else if e < n && s.get_char(e) == ')' {
                                    let style = s.substring_char(k, e).to_owned();
                                    let node = TemplateNode::Group(children, Some(style));
                                    match parse_items_exec(s, n, e + 1, closer, f) {
                                        Ok((nodes, end)) => Ok((cons_node(node, nodes), end)),
                                        Err(at) => Err(at),
                                    }
                                } else {
                                    Err(e)
                                }
                            } else {
                                let node = TemplateNode::Group(children, None);
                                match parse_items_exec(s, n, j + 1, closer, f) {
                                    Ok((nodes, end)) => Ok((cons_node(node, nodes), end)),
                                    Err(at) => Err(at),
                                }
                            }
                        } else {
                            Err(j)
                        }
                    },
                }
            } else if c == '(' {
                match parse_items_exec(s, n, i + 1, Some(')'), f) {
                    Err(at) => Err(at),
                    Ok((mut spliced, j)) => {
                        if j < n && s.get_char(j) == ')' {
                            let ghost splicedv = spliced@;
                            match parse_items_exec(s, n, j + 1, closer, f) {
                                Ok((mut nodes, end)) => {
                                    let ghost nodesv = nodes@;
                                    spliced.append(&mut nodes);
                                    proof {
                                        lemma_gview_nodes_concat(splicedv, nodesv);
                                    }
                                    Ok((spliced, end))
                                },
                                Err(at) => Err(at),
                            }
                        } else {
                            Err(j)
                        }
                    },
                }
            } else {
                let e = scan_run_exec(s, n, i);
                let lit = s.substring_char(i, e).to_owned();
                match parse_items_exec(s, n, e, closer, f) {
                    Ok((nodes, end)) => Ok((cons_node(TemplateNode::Literal(lit), nodes), end)),
                    Err(at) => Err(at),
                }
            }
        }
    }
}

/// Parses a whole format string into a template tree. Parsing is
/// all-or-nothing: a malformed string yields a syntax error with the
/// position of the offending character, and no partial template.
pub fn parse_template(s: &str) -> (r: Result<Vec<TemplateNode>, TemplateSyntaxError>)
    ensures
        match r {
            Ok(nodes) => parse_template_spec(s@) == GParse::Tree(gview_nodes(nodes@)),
            Err(e) => parse_template_spec(s@) == GParse::Fault(e.at as int),
        },
{
    let n = s.unicode_len();
    match parse_items_exec(s, n, 0, None, n) {
        Ok((nodes, _end)) => Ok(nodes),
        Err(at) => Err(TemplateSyntaxError { at }),
    }
}

/// Parsing is deterministic: two successful parses of one format string
/// are structurally identical trees.
pub proof fn lemma_parse_deterministic(s: Seq<char>, t1: Seq<GNode>, t2: Seq<GNode>)
    requires
        parse_template_spec(s) == GParse::Tree(t1),
        parse_template_spec(s) == GParse::Tree(t2),
    ensures
        t1 == t2,
{
}

} // verus!
