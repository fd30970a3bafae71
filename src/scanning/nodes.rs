use super::position::Position;
use super::lexer::{string_body, unescape};
use crate::error::Error;
use super::tokens::{numeral_text, spelling, Numeral, NumeralView, Tok, TokenType};
use crate::text::{chars_of, from_text, push_char, push_text};
use vstd::prelude::*;

verus! {

broadcast use {vstd::seq::axiom_seq_index_decreases, vstd::std_specs::vec::axiom_vec_index_decreases};

#[derive(Debug, PartialEq)]
pub enum NodeType {
    Chunk(Vec<Node>),
    DoBlock(Vec<Node>),
    Body(Vec<Node>),
    ID(String),
    Number(Numeral),
    Boolean(bool),
    String(String),
    Nil,
    Expr(Box<Node>),
    Binary { left: Box<Node>, op: TokenType, right: Box<Node> },
    Unary { op: TokenType, node: Box<Node> },
    Field { left: Box<Node>, right: Box<Node> },
    Call { head: Box<Node>, args: Vec<Node> },
    SelfCall { head: Box<Node>, field: String, args: Vec<Node> },
    Assign(Box<Node>, Box<Node>),
    AssignVars(Vec<Node>, Vec<Node>),
    LocalAssign(Box<Node>, Box<Node>),
    LocalAssignVars(Vec<Node>, Vec<Node>),
    Return(Box<Node>),
    Break,
    If { conds: Vec<Node>, cases: Vec<Node>, else_case: Option<Box<Node>> },
    While { cond: Box<Node>, body: Box<Node> },
    ForIn { vars: Vec<String>, iter: Box<Node>, body: Box<Node> },
    For {
        var: String,
        start: Box<Node>,
        end: Box<Node>,
        step: Option<Box<Node>>,
        body: Box<Node>,
    },
}

/// A syntax-tree shape with its position.
#[derive(Debug, PartialEq)]
pub struct Node {
    pub node: NodeType,
    pub pos: Position,
}

/// The shape of a syntax tree with positions left out and text held as
/// character sequences.
pub enum Ast {
    Chunk(Seq<Ast>),
    DoBlock(Seq<Ast>),
    Body(Seq<Ast>),
    ID(Seq<char>),
    Number(NumeralView),
    Boolean(bool),
    Str(Seq<char>),
    Nil,
    Expr(Box<Ast>),
    Binary(Box<Ast>, Tok, Box<Ast>),
    Unary(Tok, Box<Ast>),
    Field(Box<Ast>, Box<Ast>),
    Call(Box<Ast>, Seq<Ast>),
    SelfCall(Box<Ast>, Seq<char>, Seq<Ast>),
    Assign(Box<Ast>, Box<Ast>),
    AssignVars(Seq<Ast>, Seq<Ast>),
    LocalAssign(Box<Ast>, Box<Ast>),
    LocalAssignVars(Seq<Ast>, Seq<Ast>),
    Return(Box<Ast>),
    Break,
    If(Seq<Ast>, Seq<Ast>, Option<Box<Ast>>),
    While(Box<Ast>, Box<Ast>),
    ForIn(Seq<Seq<char>>, Box<Ast>, Box<Ast>),
    For(Seq<char>, Box<Ast>, Box<Ast>, Option<Box<Ast>>, Box<Ast>),
}

pub open spec fn ast_of(n: Node) -> Ast
    decreases n, 3nat,
{
    ast_of_type(n.node)
}

/// The shape of a node kind, its children's positions left out.
pub open spec fn ast_of_type(t: NodeType) -> Ast
    decreases t, 2nat,
{
    match t {
        NodeType::Chunk(v) => Ast::Chunk(views(v@)),
        NodeType::DoBlock(v) => Ast::DoBlock(views(v@)),
        NodeType::Body(v) => Ast::Body(views(v@)),
        NodeType::ID(s) => Ast::ID(s@),
        NodeType::Number(x) => Ast::Number(x@),
        NodeType::Boolean(b) => Ast::Boolean(b),
        NodeType::String(s) => Ast::Str(s@),
        NodeType::Nil => Ast::Nil,
        NodeType::Expr(e) => Ast::Expr(Box::new(ast_of(*e))),
        NodeType::Binary { left, op, right } => Ast::Binary(
            Box::new(ast_of(*left)),
            op@,
            Box::new(ast_of(*right)),
        ),
        NodeType::Unary { op, node } => Ast::Unary(op@, Box::new(ast_of(*node))),
        NodeType::Field { left, right } => Ast::Field(
            Box::new(ast_of(*left)),
            Box::new(ast_of(*right)),
        ),
        NodeType::Call { head, args } => Ast::Call(
            Box::new(ast_of(*head)),
            views(args@),
        ),
        NodeType::SelfCall { head, field, args } => Ast::SelfCall(
            Box::new(ast_of(*head)),
            field@,
            views(args@),
        ),
        NodeType::Assign(a, b) => Ast::Assign(Box::new(ast_of(*a)), Box::new(ast_of(*b))),
        NodeType::AssignVars(a, b) => Ast::AssignVars(
            views(a@),
            views(b@),
        ),
        NodeType::LocalAssign(a, b) => Ast::LocalAssign(
            Box::new(ast_of(*a)),
            Box::new(ast_of(*b)),
        ),
        NodeType::LocalAssignVars(a, b) => Ast::LocalAssignVars(
            views(a@),
            views(b@),
        ),
        NodeType::Return(e) => Ast::Return(Box::new(ast_of(*e))),
        NodeType::Break => Ast::Break,
        NodeType::If { conds, cases, else_case } => Ast::If(
            views(conds@),
            views(cases@),
            match else_case {
                Some(e) => Some(Box::new(ast_of(*e))),
                None => None,
            },
        ),
        NodeType::While { cond, body } => Ast::While(
            Box::new(ast_of(*cond)),
            Box::new(ast_of(*body)),
        ),
        NodeType::ForIn { vars, iter, body } => Ast::ForIn(
            texts(vars@),
            Box::new(ast_of(*iter)),
            Box::new(ast_of(*body)),
        ),
        NodeType::For { var, start, end, step, body } => Ast::For(
            var@,
            Box::new(ast_of(*start)),
            Box::new(ast_of(*end)),
            match step {
                Some(e) => Some(Box::new(ast_of(*e))),
                None => None,
            },
            Box::new(ast_of(*body)),
        ),
    }
}

/// The shapes of the first `k` nodes of `v`.
pub open spec fn asts_of(v: Seq<Node>, k: int) -> Seq<Ast>
    decreases v, 0nat, k,
{
    if k <= 0 || k > v.len() {
        Seq::empty()
    } else {
        asts_of(v, k - 1).push(ast_of(v[k - 1]))
    }
}

/// The shapes of all nodes of `v`.
pub open spec fn views(v: Seq<Node>) -> Seq<Ast>
    decreases v, 1nat,
{
    asts_of(v, v.len() as int)
}

proof fn lemma_asts_of_prefix(v: Seq<Node>, n: Node, k: int)
    requires
        0 <= k <= v.len(),
    ensures
        asts_of(v.push(n), k) == asts_of(v, k),
    decreases k,
{
    if k > 0 {
        lemma_asts_of_prefix(v, n, k - 1);
        assert(v.push(n)[k - 1] == v[k - 1]);
    }
}

/// Adding a node at the end adds its shape at the end.
pub proof fn lemma_views_push(v: Seq<Node>, n: Node)
    ensures
        views(v.push(n)) == views(v).push(ast_of(n)),
{
    lemma_asts_of_prefix(v, n, v.len() as int);
    assert(v.push(n)[v.len() as int] == n);
}

/// The noun phrase that names a node kind in diagnostics; a parenthesized
/// expression is named by what it holds.
pub open spec fn node_name(a: Ast) -> Seq<char>
    decreases a,
{
    match a {
        Ast::Expr(n) => node_name(*n),
        Ast::Chunk(_) => "chunk"@,
        Ast::DoBlock(_) => "do block"@,
        Ast::Body(_) => "body"@,
        Ast::ID(_) => "identifier"@,
        Ast::Number(_) => "number"@,
        Ast::Boolean(_) => "boolean"@,
        Ast::Str(_) => "string"@,
        Ast::Nil => "nil"@,
        Ast::Binary(..) => "binary operation"@,
        Ast::Unary(..) => "unary operation"@,
        Ast::Field(..) => "field operation"@,
        Ast::Call(..) => "call"@,
        Ast::SelfCall(..) => "self call"@,
        Ast::Assign(..) => "assignment"@,
        Ast::AssignVars(..) => "assignments"@,
        Ast::LocalAssign(..) => "local assignment"@,
        Ast::LocalAssignVars(..) => "local assignments"@,
        Ast::Return(_) => "return statement"@,
        Ast::Break => "break statement"@,
        Ast::If(..) => "if statement"@,
        Ast::While(..) => "while statement"@,
        Ast::ForIn(..) => "for-in statement"@,
        Ast::For(..) => "for statement"@,
    }
}

/// The character sequences of some strings.
pub open spec fn texts(v: Seq<String>) -> Seq<Seq<char>> {
    v.map_values(|x: String| x@)
}

/// `parts` joined with `sep` between neighbours.
pub open spec fn joined(parts: Seq<Seq<char>>, sep: Seq<char>) -> Seq<char>
    decreases parts.len(),
{
    if parts.len() == 0 {
        Seq::empty()
    } else if parts.len() == 1 {
        parts[0]
    } else {
        joined(parts.drop_last(), sep) + sep + parts.last()
    }
}

/// The strings of `v` joined with `sep` between neighbours.
pub fn join(v: &Vec<String>, sep: &str) -> (r: String)
    ensures
        r@ == joined(texts(v@), sep@),
{
    let ghost parts = texts(v@);
    let mut r = String::new();
    let mut i: usize = 0;
    while i < v.len()
        invariant
            i <= v.len(),
            parts == texts(v@),
            r@ == joined(parts.subrange(0, i as int), sep@),
        decreases v.len() - i,
    {
        if i > 0 {
            push_text(&mut r, sep);
        }
        push_text(&mut r, v[i].as_str());
        proof {
            let p1 = parts.subrange(0, i + 1);
            assert(p1.drop_last() =~= parts.subrange(0, i as int));
            if i == 0 {
                assert(r@ =~= joined(p1, sep@));
            }
        }
        i += 1;
    }
    proof {
        assert(parts.subrange(0, v.len() as int) =~= parts);
    }
    r
}

impl NodeType {
    pub fn name(&self) -> (r: &str)
        ensures
            r@ == node_name(ast_of_type(*self)),
        decreases self,
    {
        match self {
            NodeType::Expr(n) => n.node.name(),
            NodeType::Chunk(_) => "chunk",
            NodeType::DoBlock(_) => "do block",
            NodeType::Body(_) => "body",
            NodeType::ID(_) => "identifier",
            NodeType::Number(_) => "number",
            NodeType::Boolean(_) => "boolean",
            NodeType::String(_) => "string",
            NodeType::Nil => "nil",
            NodeType::Binary { .. } => "binary operation",
            NodeType::Unary { .. } => "unary operation",
            NodeType::Field { .. } => "field operation",
            NodeType::Call { .. } => "call",
            NodeType::SelfCall { .. } => "self call",
            NodeType::Assign(..) => "assignment",
            NodeType::AssignVars(..) => "assignments",
            NodeType::LocalAssign(..) => "local assignment",
            NodeType::LocalAssignVars(..) => "local assignments",
            NodeType::Return(_) => "return statement",
            NodeType::Break => "break statement",
            NodeType::If { .. } => "if statement",
            NodeType::While { .. } => "while statement",
            NodeType::ForIn { .. } => "for-in statement",
            NodeType::For { .. } => "for statement",
        }
    }
}

impl View for Node {
    type V = Ast;

    open spec fn view(&self) -> Ast {
        ast_of(*self)
    }
}

} // verus!

verus! {

/// The indentation one level deeper, which stops growing at the largest
/// machine word.
pub open spec fn deeper(n: nat) -> nat {
    if n < usize::MAX {
        n + 1
    } else {
        n
    }
}

/// `n` tab characters.
pub open spec fn tabs(n: nat) -> Seq<char>
    decreases n,
{
    if n == 0 {
        Seq::empty()
    } else {
        tabs((n - 1) as nat).push('\t')
    }
}

/// How one character of a string's contents is written inside quotes, so
/// that the lexer reads it back as that character.
pub open spec fn escaped_char(c: char) -> Seq<char> {
    if c == '\\' {
        seq!['\\', '\\']
    } else if c == '"' {
        seq!['\\', '"']
    } else if c == '\n' {
        seq!['\\', 'n']
    } else if c == '\t' {
        seq!['\\', 't']
    } else if c == '\r' {
        seq!['\\', 'r']
    } else if c == '\0' {
        seq!['\\', '0']
    } else {
        seq![c]
    }
}

pub open spec fn escaped(s: Seq<char>) -> Seq<char>
    decreases s.len(),
{
    if s.len() == 0 {
        Seq::empty()
    } else {
        escaped_char(s[0]) + escaped(s.drop_first())
    }
}

proof fn lemma_escaped_push(p: Seq<char>, c: char)
    ensures
        escaped(p.push(c)) == escaped(p) + escaped_char(c),
    decreases p.len(),
{
    if p.len() == 0 {
        assert(p.push(c).drop_first() =~= Seq::<char>::empty());
        assert(p.push(c)[0] == c);
        assert(escaped(Seq::<char>::empty()) == Seq::<char>::empty());
        assert(escaped(p) == Seq::<char>::empty());
        assert(escaped(p.push(c)) =~= escaped(p) + escaped_char(c));
    } else {
        assert(p.push(c).drop_first() =~= p.drop_first().push(c));
        assert(p.push(c)[0] == p[0]);
        lemma_escaped_push(p.drop_first(), c);
        assert(escaped(p.push(c)) =~= escaped(p) + escaped_char(c));
    }
}

proof fn lemma_escaped_reads_back(pre: Seq<char>, s: Seq<char>, rest: Seq<char>)
    ensures
        string_body(pre + escaped(s) + seq!['"'] + rest, pre.len() as int, '"') == Ok::<
            (Seq<char>, int),
            Error,
        >((s, (pre.len() + escaped(s).len() + 1) as int)),
    decreases s.len(),
{
    let t = pre + escaped(s) + seq!['"'] + rest;
    let i = pre.len() as int;
    if s.len() == 0 {
        assert(escaped(s) =~= Seq::<char>::empty());
        assert(s =~= Seq::<char>::empty());
        assert(t[i] == '"');
    } else {
        let c = s[0];
        let s2 = s.drop_first();
        let pre2 = pre + escaped_char(c);
        assert(escaped(s) == escaped_char(c) + escaped(s2));
        lemma_escaped_reads_back(pre2, s2, rest);
        let t2 = pre2 + escaped(s2) + seq!['"'] + rest;
        assert(t2 =~= t);
        assert(seq![c] + s2 =~= s);
        if c == '\\' || c == '"' || c == '\n' || c == '\t' || c == '\r' || c == '\0' {
            assert(escaped_char(c).len() == 2);
            assert(t[i] == '\\');
            assert(t[i + 1] == escaped_char(c)[1]);
            assert(unescape(t[i + 1]) == c);
            assert(string_body(t, i, '"') == match string_body(t, i + 2, '"') {
                Ok((x, k)) => Ok((seq![unescape(t[i + 1])] + x, k)),
                Err(e) => Err(e),
            });
            assert(pre2.len() == i + 2);
            assert(string_body(t, i + 2, '"') == Ok::<(Seq<char>, int), Error>((s2, (pre2.len() + escaped(s2).len() + 1) as int)));
            assert(escaped(s).len() == 2 + escaped(s2).len());
        } else {
            assert(escaped_char(c) == seq![c]);
            assert(t[i] == c);
            assert(string_body(t, i, '"') == match string_body(t, i + 1, '"') {
                Ok((x, k)) => Ok((seq![t[i]] + x, k)),
                Err(e) => Err(e),
            });
            assert(pre2.len() == i + 1);
            assert(string_body(t, i + 1, '"') == Ok::<(Seq<char>, int), Error>((s2, (pre2.len() + escaped(s2).len() + 1) as int)));
            assert(escaped(s).len() == 1 + escaped(s2).len());
        }
    }
}

/// A string written by the formatter as a quoted literal is read back by
/// the lexer as the same string, whatever text follows it.
pub proof fn lemma_string_literal_round_trip(s: Seq<char>, rest: Seq<char>)
    ensures
        string_body(quoted(s) + rest, 1, '"') == Ok::<(Seq<char>, int), Error>(
            (s, quoted(s).len() as int),
        ),
{
    lemma_escaped_reads_back(seq!['"'], s, rest);
    assert(seq!['"'] + escaped(s) + seq!['"'] + rest =~= quoted(s) + rest);
}

/// A string literal in double quotes whose contents are `s`.
pub open spec fn quoted(s: Seq<char>) -> Seq<char> {
    seq!['"'] + escaped(s) + seq!['"']
}

/// The arms of an `if` chain from its rendered conditions and bodies.
pub open spec fn if_arms(cs: Seq<Seq<char>>, bs: Seq<Seq<char>>, prefix: Seq<char>, k: int) -> Seq<char>
    decreases k,
{
    if k <= 0 {
        Seq::empty()
    } else {
        if_arms(cs, bs, prefix, k - 1) + (if k == 1 {
            Seq::empty()
        } else {
            prefix + "elseif "@
        }) + cs[k - 1] + " then\n"@ + (if k - 1 < bs.len() {
            bs[k - 1]
        } else {
            Seq::empty()
        }) + "\n"@
    }
}

/// The source-like text of a tree at an indentation depth; `stat` tells
/// whether a call stands as a statement, which gets the indentation.
pub open spec fn render(a: Ast, indent: nat, stat: bool) -> Seq<char>
    decreases a, 1nat,
{
    let prefix = tabs(indent);
    match a {
        Ast::Chunk(v) => joined(render_texts(v, indent, true, v.len() as int), "\n"@),
        Ast::DoBlock(v) => prefix + "do\n"@ + joined(render_texts(v, deeper(indent), true, v.len() as int), "\n"@)
            + "\n"@ + prefix + "end"@,
        Ast::Body(v) => joined(render_texts(v, indent, true, v.len() as int), "\n"@),
        Ast::ID(v) => v,
        Ast::Number(n) => numeral_text(n),
        Ast::Boolean(b) => if b { "true"@ } else { "false"@ },
        Ast::Str(v) => quoted(v),
        Ast::Nil => "nil"@,
        Ast::Expr(n) => "("@ + render(*n, indent, false) + ")"@,
        Ast::Binary(l, op, r) => render(*l, indent, false) + " "@ + spelling(op) + " "@ + render(*r, indent, false),
        Ast::Unary(op, n) => spelling(op) + " "@ + render(*n, indent, false),
        Ast::Field(l, r) => match *r {
            Ast::ID(id) => render(*l, indent, false) + "."@ + id,
            _ => render(*l, indent, false) + "["@ + render(*r, indent, false) + "]"@,
        },
        Ast::Call(h, args) => (if stat { prefix } else { Seq::empty() }) + render(*h, indent, false) + "("@
            + joined(render_texts(args, indent, false, args.len() as int), ", "@) + ")"@,
        Ast::SelfCall(h, f, args) => (if stat { prefix } else { Seq::empty() }) + render(*h, indent, false)
            + ":"@ + f + "("@ + joined(render_texts(args, indent, false, args.len() as int), ", "@) + ")"@,
        Ast::Assign(x, e) => prefix + render(*x, indent, false) + " = "@ + render(*e, indent, false),
        Ast::AssignVars(xs, es) => prefix + joined(render_texts(xs, indent, false, xs.len() as int), ", "@)
            + " = "@ + joined(render_texts(es, indent, false, es.len() as int), ", "@),
        Ast::LocalAssign(x, e) => prefix + "local "@ + render(*x, indent, false) + " = "@ + render(*e, indent, false),
        Ast::LocalAssignVars(xs, es) => prefix + "local "@ + joined(render_texts(xs, indent, false, xs.len() as int), ", "@)
            + " = "@ + joined(render_texts(es, indent, false, es.len() as int), ", "@),
        Ast::Return(e) => prefix + "return "@ + render(*e, indent, false),
        Ast::Break => prefix + "break"@,
        Ast::If(conds, cases, else_case) => prefix + "if "@ + if_arms(
            render_texts(conds, indent, false, conds.len() as int),
            render_texts(cases, deeper(indent), true, cases.len() as int),
            prefix,
            conds.len() as int,
        ) + match else_case {
            Some(e) => prefix + "else\n"@ + render(*e, deeper(indent), true) + "\n"@,
            None => Seq::empty(),
        } + prefix + "end"@,
        Ast::While(c, b) => prefix + "while "@ + render(*c, indent, false) + " do\n"@ + render(*b, deeper(indent), true)
            + "\n"@ + prefix + "end"@,
        Ast::ForIn(vars, it, b) => prefix + "for "@ + joined(vars, ", "@) + " in "@ + render(*it, indent, false)
            + " do\n"@ + render(*b, deeper(indent), true) + "\n"@ + prefix + "end"@,
        Ast::For(var, start, end, step, b) => prefix + "for "@ + var + " = "@ + render(*start, indent, false) + ", "@
            + render(*end, indent, false) + match step {
            Some(s) => ", "@ + render(*s, indent, false),
            None => Seq::empty(),
        } + " do\n"@ + render(*b, deeper(indent), true) + "\n"@ + prefix + "end"@,
    }
}

/// The texts of the first `k` trees of `v`.
pub open spec fn render_texts(v: Seq<Ast>, indent: nat, stat: bool, k: int) -> Seq<Seq<char>>
    decreases v, 0nat, k,
{
    if k <= 0 || k > v.len() {
        Seq::empty()
    } else {
        render_texts(v, indent, stat, k - 1).push(render(v[k - 1], indent, stat))
    }
}

} // verus!

verus! {

proof fn lemma_asts_of_index(v: Seq<Node>, k: int)
    requires
        0 <= k <= v.len(),
    ensures
        asts_of(v, k).len() == k,
        forall|j: int| 0 <= j < k ==> #[trigger] asts_of(v, k)[j] == ast_of(v[j]),
    decreases k,
{
    if k > 0 {
        lemma_asts_of_index(v, k - 1);
    }
}

fn indentation(n: usize) -> (r: String)
    ensures
        r@ == tabs(n as nat),
{
    let mut r = String::new();
    let mut i: usize = 0;
    while i < n
        invariant
            i <= n,
            r@ == tabs(i as nat),
        decreases n - i,
    {
        push_char(&mut r, '\t');
        i += 1;
    }
    r
}

fn deeper_indent(n: usize) -> (r: usize)
    ensures
        r == deeper(n as nat),
{
    if n < usize::MAX {
        n + 1
    } else {
        n
    }
}

pub(crate) fn quote(s: &String) -> (r: String)
    ensures
        r@ == quoted(s@),
{
    let chars = chars_of(s.as_str());
    let mut body = String::new();
    let mut i: usize = 0;
    while i < chars.len()
        invariant
            i <= chars@.len(),
            chars@ == s@,
            body@ == escaped(chars@.subrange(0, i as int)),
        decreases chars.len() - i,
    {
        let c = chars[i];
        if c == '\\' {
            push_text(&mut body, "\\\\");
        } else if c == '"' {
            push_text(&mut body, "\\\"");
        } else if c == '\n' {
            push_text(&mut body, "\\n");
        } else if c == '\t' {
            push_text(&mut body, "\\t");
        } else if c == '\r' {
            push_text(&mut body, "\\r");
        } else if c == '\0' {
            push_text(&mut body, "\\0");
        } else {
            push_char(&mut body, c);
        }
        proof {
            reveal_strlit("\\\\");
            reveal_strlit("\\\"");
            reveal_strlit("\\n");
            reveal_strlit("\\t");
            reveal_strlit("\\r");
            reveal_strlit("\\0");
            let p = chars@.subrange(0, i + 1);
            assert(p =~= chars@.subrange(0, i as int).push(c));
            lemma_escaped_push(chars@.subrange(0, i as int), c);
            assert(body@ =~= escaped(p));
        }
        i += 1;
    }
    proof {
        assert(chars@.subrange(0, chars@.len() as int) =~= s@);
    }
    let mut r = from_text("\"");
    push_text(&mut r, body.as_str());
    push_text(&mut r, "\"");
    proof {
        reveal_strlit("\"");
        assert(r@ =~= quoted(s@));
    }
    r
}

/// The texts of the nodes of `v`, each rendered at `indent`.
fn format_all(v: &Vec<Node>, indent: usize, stat: bool) -> (r: Vec<String>)
    ensures
        texts(r@) == render_texts(views(v@), indent as nat, stat, v@.len() as int),
        r@.len() == v@.len(),
        views(v@).len() == v@.len(),
    decreases v, 0nat,
{
    let ghost s = views(v@);
    proof {
        lemma_asts_of_index(v@, v@.len() as int);
    }
    let mut r: Vec<String> = Vec::new();
    let mut i: usize = 0;
    while i < v.len()
        invariant
            i <= v@.len(),
            s == views(v@),
            s.len() == v@.len(),
            forall|j: int| 0 <= j < v@.len() ==> #[trigger] s[j] == ast_of(v@[j]),
            r@.len() == i,
            texts(r@) == render_texts(s, indent as nat, stat, i as int),
        decreases v.len() - i,
    {
        let t = v[i].format(indent, stat);
        let ghost before = r@;
        r.push(t);
        proof {
            assert(texts(r@) =~= texts(before).push(t@));
        }
        i += 1;
    }
    r
}

/// The arms of an `if` chain from the texts of its conditions and bodies.
fn arms_text(cs: &Vec<String>, bs: &Vec<String>, prefix: &String) -> (r: String)
    ensures
        r@ == if_arms(texts(cs@), texts(bs@), prefix@, cs@.len() as int),
{
    let mut r = String::new();
    let mut i: usize = 0;
    while i < cs.len()
        invariant
            i <= cs@.len(),
            r@ == if_arms(texts(cs@), texts(bs@), prefix@, i as int),
        decreases cs.len() - i,
    {
        if i > 0 {
            push_text(&mut r, prefix.as_str());
            push_text(&mut r, "elseif ");
        }
        push_text(&mut r, cs[i].as_str());
        push_text(&mut r, " then\n");
        if i < bs.len() {
            push_text(&mut r, bs[i].as_str());
        }
        push_text(&mut r, "\n");
        assert(r@ =~= if_arms(texts(cs@), texts(bs@), prefix@, i + 1));
        i += 1;
    }
    r
}

impl Node {
    pub fn new(node: NodeType, pos: Position) -> (r: Self)
        ensures
            r.node == node,
            r.pos == pos,
    {
        Node { node, pos }
    }

    pub fn node(&self) -> (r: &NodeType)
        ensures
            *r == self.node,
    {
        &self.node
    }

    pub fn pos(&self) -> (r: &Position)
        ensures
            *r == self.pos,
    {
        &self.pos
    }

    /// Source-like text of the tree, indented by `indent` tabs.
    pub fn format(&self, indent: usize, stat: bool) -> (r: String)
        ensures
            r@ == render(self@, indent as nat, stat),
        decreases self, 2nat,
    {
        self.node.format(indent, stat)
    }
}


impl NodeType {
    /// Source-like text of the node, indented by `indent` tabs; `stat` tells
    /// whether a call stands as a statement.
    #[verifier::rlimit(100)]
    pub fn format(&self, indent: usize, stat: bool) -> (r: String)
        ensures
            r@ == render(ast_of_type(*self), indent as nat, stat),
        decreases self, 1nat,
    {
        let prefix = indentation(indent);
        match self {
            NodeType::Chunk(nodes) => {
                let parts = format_all(nodes, indent, true);
                join(&parts, "\n")
            },
            NodeType::DoBlock(nodes) => {
                let parts = format_all(nodes, deeper_indent(indent), true);
                let mut r = prefix.clone();
                push_text(&mut r, "do\n");
                push_text(&mut r, join(&parts, "\n").as_str());
                push_text(&mut r, "\n");
                push_text(&mut r, prefix.as_str());
                push_text(&mut r, "end");
                r
            },
            NodeType::Body(nodes) => {
                let parts = format_all(nodes, indent, true);
                join(&parts, "\n")
            },
            NodeType::ID(v) => v.clone(),
            NodeType::Number(v) => v.text(),
            NodeType::Boolean(v) => if *v {
                from_text("true")
            } else {
                from_text("false")
            },
            NodeType::String(v) => quote(v),
            NodeType::Nil => from_text("nil"),
            NodeType::Expr(n) => {
                let mut r = from_text("(");
                push_text(&mut r, n.format(indent, false).as_str());
                push_text(&mut r, ")");
                r
            },
            NodeType::Binary { left, op, right } => {
                let mut r = left.format(indent, false);
                push_text(&mut r, " ");
                push_text(&mut r, op.display().as_str());
                push_text(&mut r, " ");
                push_text(&mut r, right.format(indent, false).as_str());
                r
            },
            NodeType::Unary { op, node } => {
                let mut r = op.display();
                push_text(&mut r, " ");
                push_text(&mut r, node.format(indent, false).as_str());
                r
            },
            NodeType::Field { left, right } => {
                let mut r = left.format(indent, false);
                assert(ast_of(**right) == ast_of_type(right.node));
                match &right.node {
                    NodeType::ID(id) => {
                        assert(ast_of_type(right.node) == Ast::ID(id@));
                        push_text(&mut r, ".");
                        push_text(&mut r, id.as_str());
                    },
                    _ => {
                        assert(!(ast_of_type(right.node) is ID));
                        push_text(&mut r, "[");
                        push_text(&mut r, right.format(indent, false).as_str());
                        push_text(&mut r, "]");
                    },
                }
                r
            },
            NodeType::Call { head, args } => {
                let mut r = if stat {
                    prefix
                } else {
                    String::new()
                };
                push_text(&mut r, head.format(indent, false).as_str());
                push_text(&mut r, "(");
                push_text(&mut r, join(&format_all(args, indent, false), ", ").as_str());
                push_text(&mut r, ")");
                r
            },
            NodeType::SelfCall { head, field, args } => {
                let mut r = if stat {
                    prefix
                } else {
                    String::new()
                };
                push_text(&mut r, head.format(indent, false).as_str());
                push_text(&mut r, ":");
                push_text(&mut r, field.as_str());
                push_text(&mut r, "(");
                push_text(&mut r, join(&format_all(args, indent, false), ", ").as_str());
                push_text(&mut r, ")");
                r
            },
            NodeType::Assign(x, e) => {
                let mut r = prefix;
                push_text(&mut r, x.format(indent, false).as_str());
                push_text(&mut r, " = ");
                push_text(&mut r, e.format(indent, false).as_str());
                r
            },
            NodeType::AssignVars(xs, es) => {
                let mut r = prefix;
                push_text(&mut r, join(&format_all(xs, indent, false), ", ").as_str());
                push_text(&mut r, " = ");
                push_text(&mut r, join(&format_all(es, indent, false), ", ").as_str());
                r
            },
            NodeType::LocalAssign(x, e) => {
                let mut r = prefix;
                push_text(&mut r, "local ");
                push_text(&mut r, x.format(indent, false).as_str());
                push_text(&mut r, " = ");
                push_text(&mut r, e.format(indent, false).as_str());
                r
            },
            NodeType::LocalAssignVars(xs, es) => {
                let mut r = prefix;
                push_text(&mut r, "local ");
                push_text(&mut r, join(&format_all(xs, indent, false), ", ").as_str());
                push_text(&mut r, " = ");
                push_text(&mut r, join(&format_all(es, indent, false), ", ").as_str());
                r
            },
            NodeType::Return(e) => {
                let mut r = prefix;
                push_text(&mut r, "return ");
                push_text(&mut r, e.format(indent, false).as_str());
                r
            },
            NodeType::Break => {
                let mut r = prefix;
                push_text(&mut r, "break");
                r
            },
            NodeType::If { conds, cases, else_case } => {
                let cs = format_all(conds, indent, false);
                let bs = format_all(cases, deeper_indent(indent), true);
                proof {
                    lemma_asts_of_index(conds@, conds@.len() as int);
                }
                let mut r = prefix.clone();
                push_text(&mut r, "if ");
                push_text(&mut r, arms_text(&cs, &bs, &prefix).as_str());
                match else_case {
                    Some(e) => {
                        let mut t = prefix.clone();
                        push_text(&mut t, "else\n");
                        push_text(&mut t, e.format(deeper_indent(indent), true).as_str());
                        push_text(&mut t, "\n");
                        push_text(&mut r, t.as_str());
                    },
                    None => {
                        push_text(&mut r, String::new().as_str());
                    },
                }
                push_text(&mut r, prefix.as_str());
                push_text(&mut r, "end");
                r
            },
            NodeType::While { cond, body } => {
                let mut r = prefix.clone();
                push_text(&mut r, "while ");
                push_text(&mut r, cond.format(indent, false).as_str());
                push_text(&mut r, " do\n");
                push_text(&mut r, body.format(deeper_indent(indent), true).as_str());
                push_text(&mut r, "\n");
                push_text(&mut r, prefix.as_str());
                push_text(&mut r, "end");
                r
            },
            NodeType::ForIn { vars, iter, body } => {
                let mut r = prefix.clone();
                push_text(&mut r, "for ");
                push_text(&mut r, join(vars, ", ").as_str());
                push_text(&mut r, " in ");
                push_text(&mut r, iter.format(indent, false).as_str());
                push_text(&mut r, " do\n");
                push_text(&mut r, body.format(deeper_indent(indent), true).as_str());
                push_text(&mut r, "\n");
                push_text(&mut r, prefix.as_str());
                push_text(&mut r, "end");
                r
            },
            NodeType::For { var, start, end, step, body } => {
                let mut r = prefix.clone();
                push_text(&mut r, "for ");
                push_text(&mut r, var.as_str());
                push_text(&mut r, " = ");
                push_text(&mut r, start.format(indent, false).as_str());
                push_text(&mut r, ", ");
                push_text(&mut r, end.format(indent, false).as_str());
                match step {
                    Some(st) => {
                        let mut t = from_text(", ");
                        push_text(&mut t, st.format(indent, false).as_str());
                        push_text(&mut r, t.as_str());
                    },
                    None => {
                        push_text(&mut r, String::new().as_str());
                    },
                }
                push_text(&mut r, " do\n");
                push_text(&mut r, body.format(deeper_indent(indent), true).as_str());
                push_text(&mut r, "\n");
                push_text(&mut r, prefix.as_str());
                push_text(&mut r, "end");
                r
            },
        }
    }
}

} // verus!
