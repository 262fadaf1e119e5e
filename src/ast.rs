use vstd::prelude::*;
use vstd::string::StrSliceExecFns;
use vstd::string::StringExecFns;
use crate::lexer::find_char;
use crate::token::{Literal, LiteralView, Token};

verus! {

/// An expression tree. Every node owns its children.
#[derive(Debug, PartialEq)]
pub enum Expr {
    Binary { left: Box<Expr>, operator: Token, right: Box<Expr> },
    Unary { operator: Token, right: Box<Expr> },
    Grouping { expr: Box<Expr> },
    Literal(Literal),
}

/// An operation over expression trees, one method per node shape.
///
/// Each `*_result` predicate says which values the matching method may
/// return for the given node fields.
pub trait Visitor<T> {
    spec fn binary_result(&self, left: Expr, operator: Token, right: Expr, r: T) -> bool;

    spec fn unary_result(&self, operator: Token, right: Expr, r: T) -> bool;

    spec fn grouping_result(&self, expr: Expr, r: T) -> bool;

    spec fn literal_result(&self, literal: Literal, r: T) -> bool;

    fn visit_binary(&self, left: &Expr, operator: &Token, right: &Expr) -> (r: T)
        ensures
            self.binary_result(*left, *operator, *right, r),
    ;

    fn visit_unary(&self, operator: &Token, right: &Expr) -> (r: T)
        ensures
            self.unary_result(*operator, *right, r),
    ;

    fn visit_grouping(&self, expr: &Expr) -> (r: T)
        ensures
            self.grouping_result(*expr, r),
    ;

    fn visit_literal(&self, literal: &Literal) -> (r: T)
        ensures
            self.literal_result(*literal, r),
    ;
}

/// What `e.accept(v)` may return: what the visitor's method for the shape of
/// `e` may return on the fields of `e`.
pub open spec fn accepted<T, V: Visitor<T>>(e: Expr, v: V, r: T) -> bool {
    match e {
        Expr::Binary { left, operator, right } => v.binary_result(*left, operator, *right, r),
        Expr::Unary { operator, right } => v.unary_result(operator, *right, r),
        Expr::Grouping { expr } => v.grouping_result(*expr, r),
        Expr::Literal(l) => v.literal_result(l, r),
    }
}

impl Expr {
    /// Hands this node's fields to the visitor method for its shape.
    pub fn accept<T, V: Visitor<T>>(&self, visitor: &V) -> (r: T)
        ensures
            accepted(*self, *visitor, r),
    {
        match self {
            Expr::Binary { left, operator, right } => visitor.visit_binary(left, operator, right),
            Expr::Unary { operator, right } => visitor.visit_unary(operator, right),
            Expr::Grouping { expr } => visitor.visit_grouping(expr),
            Expr::Literal(literal) => visitor.visit_literal(literal),
        }
    }
}

/// Skips zeros of the whole part from `i`, keeping its last digit.
pub open spec fn skip_zeros(s: Seq<char>, i: int, p: int) -> int
    decreases p - i,
{
    if 0 <= i && i + 1 < p && s[i] == '0' {
        skip_zeros(s, i + 1, p)
    } else {
        i
    }
}

/// Moves the end `j` back over trailing zeros of the fraction after `p`.
pub open spec fn trim_zeros(s: Seq<char>, j: int, p: int) -> int
    decreases j,
{
    if 0 <= p && p + 1 < j <= s.len() && s[j - 1] == '0' {
        trim_zeros(s, j - 1, p)
    } else {
        j
    }
}

/// The shortest decimal form of the number written `s`: no leading zeros
/// before its last whole digit, no trailing zeros in the fraction, and no
/// point when the fraction is empty.
pub open spec fn number_text(s: Seq<char>) -> Seq<char> {
    let p = find_char(s, 0, '.');
    let a = skip_zeros(s, 0, p);
    let t = trim_zeros(s, s.len() as int, p);
    let end = if p < s.len() && t > p + 1 { t } else { p };
    s.subrange(a, end)
}

/// The text of a literal value: strings without quotes, numbers in their
/// shortest decimal form.
pub open spec fn literal_text(l: LiteralView) -> Seq<char> {
    match l {
        LiteralView::String(s) => s,
        LiteralView::Number(s) => number_text(s),
        LiteralView::Bool(b) => if b { "true"@ } else { "false"@ },
        LiteralView::Nil => "nil"@,
    }
}

/// The prefix rendering: `(op child...)`, with `group` for a grouping.
pub open spec fn ast_text(e: Expr) -> Seq<char>
    decreases e,
{
    match e {
        Expr::Binary { left, operator, right } => "("@ + operator.lexeme@ + " "@ + ast_text(*left) + " "@
            + ast_text(*right) + ")"@,
        Expr::Unary { operator, right } => "("@ + operator.lexeme@ + " "@ + ast_text(*right) + ")"@,
        Expr::Grouping { expr } => "("@ + "group"@ + " "@ + ast_text(*expr) + ")"@,
        Expr::Literal(l) => literal_text(l@),
    }
}

/// The reverse-Polish rendering: `child... op`, with `group` for a grouping.
pub open spec fn rpn_text(e: Expr) -> Seq<char>
    decreases e,
{
    match e {
        Expr::Binary { left, operator, right } => rpn_text(*left) + " "@ + rpn_text(*right) + " "@
            + operator.lexeme@,
        Expr::Unary { operator, right } => rpn_text(*right) + " "@ + operator.lexeme@,
        Expr::Grouping { expr } => rpn_text(*expr) + " "@ + "group"@,
        Expr::Literal(l) => literal_text(l@),
    }
}

/// The shortest decimal form of the number written `s`.
pub fn number_string(s: &str) -> (r: String)
    ensures
        r@ == number_text(s@),
{
    let n = s.unicode_len();
    let ghost v = s@;
    let mut p: usize = 0;
    while p < n && s.get_char(p) != '.'
        invariant
            v == s@,
            n == v.len(),
            p <= n,
            find_char(v, p as int, '.') == find_char(v, 0, '.'),
        decreases n - p,
    {
        p = p + 1;
    }
    let mut a: usize = 0;
    while a < p && a + 1 < p && s.get_char(a) == '0'
        invariant
            v == s@,
            n == v.len(),
            a <= p <= n,
            p == find_char(v, 0, '.'),
            skip_zeros(v, a as int, p as int) == skip_zeros(v, 0, p as int),
        decreases p - a,
    {
        a = a + 1;
    }
    let mut end: usize = p;
    if p < n {
        let mut t: usize = n;
        while t > p + 1 && s.get_char(t - 1) == '0'
            invariant
                v == s@,
                n == v.len(),
                p < n,
                p + 1 <= t <= n,
                p == find_char(v, 0, '.'),
                trim_zeros(v, t as int, p as int) == trim_zeros(v, n as int, p as int),
            decreases t,
        {
            t = t - 1;
        }
        if t > p + 1 {
            end = t;
        }
    }
    String::from_str(s.substring_char(a, end))
}

/// The text of a literal value.
pub fn literal_string(l: &Literal) -> (r: String)
    ensures
        r@ == literal_text(l@),
{
    match l {
        Literal::String(s) => s.clone(),
        Literal::Number(s) => number_string(s.as_str()),
        Literal::Bool(b) => if *b {
            String::from_str("true")
        } else {
            String::from_str("false")
        },
        Literal::Nil => String::from_str("nil"),
    }
}

/// Renders a tree in prefix form, `(op child...)`.
pub struct AstPrinter;

impl AstPrinter {
    /// `(name` followed by a space and each part in turn, then `)`.
    fn parenthesize(&self, name: &str, parts: Vec<String>) -> (r: String)
        ensures
            r@ == "("@ + name@ + spaced(parts@.map_values(|x: String| x@)) + ")"@,
    {
        let mut s = String::new();
        s.append("(");
        s.append(name);
        let mut i: usize = 0;
        while i < parts.len()
            invariant
                i <= parts@.len(),
                s@ == "("@ + name@ + spaced(parts@.map_values(|x: String| x@).take(i as int)),
            decreases parts@.len() - i,
        {
            proof {
                let vs = parts@.map_values(|x: String| x@);
                assert(vs.take(i + 1).drop_last() =~= vs.take(i as int));
                assert(vs.take(i + 1).last() == parts@[i as int]@);
            }
            s.append(" ");
            s.append(parts[i].as_str());
            i = i + 1;
        }
        proof {
            let vs = parts@.map_values(|x: String| x@);
            assert(vs.take(parts@.len() as int) =~= vs);
        }
        s.append(")");
        s
    }

    fn render(&self, expr: &Expr) -> (r: String)
        ensures
            r@ == ast_text(*expr),
        decreases expr,
    {
        match expr {
            Expr::Binary { left, operator, right } => {
                let l = self.render(left);
                let rt = self.render(right);
                let parts = vec![l, rt];
                proof {
                    lemma_spaced_two(parts@[0]@, parts@[1]@);
                    assert(parts@.map_values(|x: String| x@) =~= seq![parts@[0]@, parts@[1]@]);
                }
                let r = self.parenthesize(operator.lexeme.as_str(), parts);
                r
            },
            Expr::Unary { operator, right } => {
                let rt = self.render(right);
                let parts = vec![rt];
                proof {
                    lemma_spaced_one(parts@[0]@);
                    assert(parts@.map_values(|x: String| x@) =~= seq![parts@[0]@]);
                }
                let r = self.parenthesize(operator.lexeme.as_str(), parts);
                r
            },
            Expr::Grouping { expr } => {
                let inner = self.render(expr);
                let parts = vec![inner];
                proof {
                    lemma_spaced_one(parts@[0]@);
                    assert(parts@.map_values(|x: String| x@) =~= seq![parts@[0]@]);
                }
                let r = self.parenthesize("group", parts);
                r
            },
            Expr::Literal(literal) => literal_string(literal),
        }
    }

    /// The prefix rendering of `expr`.
    pub fn print(&self, expr: Expr) -> (r: String)
        ensures
            r@ == ast_text(expr),
    {
        expr.accept(self)
    }
}

/// Each part preceded by a space, joined.
pub open spec fn spaced(parts: Seq<Seq<char>>) -> Seq<char>
    decreases parts.len(),
{
    if parts.len() == 0 {
        Seq::empty()
    } else {
        spaced(parts.drop_last()) + " "@ + parts.last()
    }
}

proof fn lemma_spaced_one(a: Seq<char>)
    ensures
        spaced(seq![a]) == " "@ + a,
{
    assert(seq![a].drop_last() =~= Seq::<Seq<char>>::empty());
    assert(spaced(Seq::<Seq<char>>::empty()) == Seq::<char>::empty());
    assert(spaced(seq![a]) == spaced(Seq::<Seq<char>>::empty()) + " "@ + a);
    assert(Seq::<char>::empty() + " "@ + a =~= " "@ + a);
}

proof fn lemma_spaced_two(a: Seq<char>, b: Seq<char>)
    ensures
        spaced(seq![a, b]) == " "@ + a + " "@ + b,
{
    assert(seq![a, b].drop_last() =~= seq![a]);
    lemma_spaced_one(a);
}

impl Visitor<String> for AstPrinter {
    open spec fn binary_result(&self, left: Expr, operator: Token, right: Expr, r: String) -> bool {
        r@ == ast_text(Expr::Binary { left: Box::new(left), operator, right: Box::new(right) })
    }

    open spec fn unary_result(&self, operator: Token, right: Expr, r: String) -> bool {
        r@ == ast_text(Expr::Unary { operator, right: Box::new(right) })
    }

    open spec fn grouping_result(&self, expr: Expr, r: String) -> bool {
        r@ == ast_text(Expr::Grouping { expr: Box::new(expr) })
    }

    open spec fn literal_result(&self, literal: Literal, r: String) -> bool {
        r@ == ast_text(Expr::Literal(literal))
    }

    fn visit_binary(&self, left: &Expr, operator: &Token, right: &Expr) -> (r: String) {
        let l = self.render(left);
        let rt = self.render(right);
        let parts = vec![l, rt];
        proof {
            lemma_spaced_two(parts@[0]@, parts@[1]@);
            assert(parts@.map_values(|x: String| x@) =~= seq![parts@[0]@, parts@[1]@]);
        }
        let r = self.parenthesize(operator.lexeme.as_str(), parts);
        proof {
            let e = Expr::Binary { left: Box::new(*left), operator: *operator, right: Box::new(*right) };
            assert(ast_text(e) == "("@ + operator.lexeme@ + " "@ + ast_text(*left) + " "@ + ast_text(*right) + ")"@);
            assert(r@ =~= ast_text(e));
        }
        r
    }

    fn visit_unary(&self, operator: &Token, right: &Expr) -> (r: String) {
        let rt = self.render(right);
        let parts = vec![rt];
        proof {
            lemma_spaced_one(parts@[0]@);
            assert(parts@.map_values(|x: String| x@) =~= seq![parts@[0]@]);
        }
        let r = self.parenthesize(operator.lexeme.as_str(), parts);
        proof {
            let e = Expr::Unary { operator: *operator, right: Box::new(*right) };
            assert(ast_text(e) == "("@ + operator.lexeme@ + " "@ + ast_text(*right) + ")"@);
            assert(r@ =~= ast_text(e));
        }
        r
    }

    fn visit_grouping(&self, expr: &Expr) -> (r: String) {
        let inner = self.render(expr);
        let parts = vec![inner];
        proof {
            lemma_spaced_one(parts@[0]@);
            assert(parts@.map_values(|x: String| x@) =~= seq![parts@[0]@]);
        }
        let r = self.parenthesize("group", parts);
        proof {
            let e = Expr::Grouping { expr: Box::new(*expr) };
            assert(ast_text(e) == "("@ + "group"@ + " "@ + ast_text(*expr) + ")"@);
            assert(r@ =~= ast_text(e));
        }
        r
    }

    fn visit_literal(&self, literal: &Literal) -> (r: String) {
        literal_string(literal)
    }
}

/// Renders a tree in reverse-Polish form, `child... op`.
pub struct RpnPrinter;

impl RpnPrinter {
    /// Each part followed by a space, then `name`.
    fn postfix(&self, parts: Vec<String>, name: &str) -> (r: String)
        ensures
            r@ == trailing(parts@.map_values(|x: String| x@)) + name@,
    {
        let mut s = String::new();
        let mut i: usize = 0;
        while i < parts.len()
            invariant
                i <= parts@.len(),
                s@ == trailing(parts@.map_values(|x: String| x@).take(i as int)),
            decreases parts@.len() - i,
        {
            proof {
                let vs = parts@.map_values(|x: String| x@);
                assert(vs.take(i + 1).drop_last() =~= vs.take(i as int));
                assert(vs.take(i + 1).last() == parts@[i as int]@);
            }
            s.append(parts[i].as_str());
            s.append(" ");
            i = i + 1;
        }
        proof {
            let vs = parts@.map_values(|x: String| x@);
            assert(vs.take(parts@.len() as int) =~= vs);
        }
        s.append(name);
        s
    }

    fn render(&self, expr: &Expr) -> (r: String)
        ensures
            r@ == rpn_text(*expr),
        decreases expr,
    {
        match expr {
            Expr::Binary { left, operator, right } => {
                let parts = vec![self.render(left), self.render(right)];
                proof {
                    lemma_trailing_two(parts@[0]@, parts@[1]@);
                    assert(parts@.map_values(|x: String| x@) =~= seq![parts@[0]@, parts@[1]@]);
                }
                let r = self.postfix(parts, operator.lexeme.as_str());
                proof {
                    assert(r@ =~= rpn_text(*expr));
                }
                r
            },
            Expr::Unary { operator, right } => {
                let parts = vec![self.render(right)];
                proof {
                    lemma_trailing_one(parts@[0]@);
                    assert(parts@.map_values(|x: String| x@) =~= seq![parts@[0]@]);
                }
                let r = self.postfix(parts, operator.lexeme.as_str());
                proof {
                    assert(r@ =~= rpn_text(*expr));
                }
                r
            },
            Expr::Grouping { expr: inner } => {
                let parts = vec![self.render(inner)];
                proof {
                    lemma_trailing_one(parts@[0]@);
                    assert(parts@.map_values(|x: String| x@) =~= seq![parts@[0]@]);
                }
                let r = self.postfix(parts, "group");
                proof {
                    assert(r@ =~= rpn_text(*expr));
                }
                r
            },
            Expr::Literal(literal) => literal_string(literal),
        }
    }

    /// The reverse-Polish rendering of `expr`.
    pub fn print(&self, expr: Expr) -> (r: String)
        ensures
            r@ == rpn_text(expr),
    {
        expr.accept(self)
    }
}

/// Each part followed by a space, joined.
pub open spec fn trailing(parts: Seq<Seq<char>>) -> Seq<char>
    decreases parts.len(),
{
    if parts.len() == 0 {
        Seq::empty()
    } else {
        trailing(parts.drop_last()) + parts.last() + " "@
    }
}

proof fn lemma_trailing_one(a: Seq<char>)
    ensures
        trailing(seq![a]) == a + " "@,
{
    assert(seq![a].drop_last() =~= Seq::<Seq<char>>::empty());
    assert(trailing(Seq::<Seq<char>>::empty()) == Seq::<char>::empty());
    assert(trailing(seq![a]) == trailing(Seq::<Seq<char>>::empty()) + a + " "@);
    assert(Seq::<char>::empty() + a + " "@ =~= a + " "@);
}

proof fn lemma_trailing_two(a: Seq<char>, b: Seq<char>)
    ensures
        trailing(seq![a, b]) == a + " "@ + b + " "@,
{
    assert(seq![a, b].drop_last() =~= seq![a]);
    lemma_trailing_one(a);
}

impl Visitor<String> for RpnPrinter {
    open spec fn binary_result(&self, left: Expr, operator: Token, right: Expr, r: String) -> bool {
        r@ == rpn_text(Expr::Binary { left: Box::new(left), operator, right: Box::new(right) })
    }

    open spec fn unary_result(&self, operator: Token, right: Expr, r: String) -> bool {
        r@ == rpn_text(Expr::Unary { operator, right: Box::new(right) })
    }

    open spec fn grouping_result(&self, expr: Expr, r: String) -> bool {
        r@ == rpn_text(Expr::Grouping { expr: Box::new(expr) })
    }

    open spec fn literal_result(&self, literal: Literal, r: String) -> bool {
        r@ == rpn_text(Expr::Literal(literal))
    }

    fn visit_binary(&self, left: &Expr, operator: &Token, right: &Expr) -> (r: String) {
        let parts = vec![self.render(left), self.render(right)];
        proof {
            lemma_trailing_two(parts@[0]@, parts@[1]@);
            assert(parts@.map_values(|x: String| x@) =~= seq![parts@[0]@, parts@[1]@]);
        }
        let r = self.postfix(parts, operator.lexeme.as_str());
        proof {
            let e = Expr::Binary { left: Box::new(*left), operator: *operator, right: Box::new(*right) };
            assert(rpn_text(e) == rpn_text(*left) + " "@ + rpn_text(*right) + " "@ + operator.lexeme@);
            assert(r@ =~= rpn_text(e));
        }
        r
    }

    fn visit_unary(&self, operator: &Token, right: &Expr) -> (r: String) {
        let parts = vec![self.render(right)];
        proof {
            lemma_trailing_one(parts@[0]@);
            assert(parts@.map_values(|x: String| x@) =~= seq![parts@[0]@]);
        }
        let r = self.postfix(parts, operator.lexeme.as_str());
        proof {
            let e = Expr::Unary { operator: *operator, right: Box::new(*right) };
            assert(rpn_text(e) == rpn_text(*right) + " "@ + operator.lexeme@);
            assert(r@ =~= rpn_text(e));
        }
        r
    }

    fn visit_grouping(&self, expr: &Expr) -> (r: String) {
        let parts = vec![self.render(expr)];
        proof {
            lemma_trailing_one(parts@[0]@);
            assert(parts@.map_values(|x: String| x@) =~= seq![parts@[0]@]);
        }
        let r = self.postfix(parts, "group");
        proof {
            let e = Expr::Grouping { expr: Box::new(*expr) };
            assert(rpn_text(e) == rpn_text(*expr) + " "@ + "group"@);
            assert(r@ =~= rpn_text(e));
        }
        r
    }

    fn visit_literal(&self, literal: &Literal) -> (r: String) {
        literal_string(literal)
    }
}

} // verus!
