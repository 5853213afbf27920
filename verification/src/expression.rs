//! Syntax of the arithmetic expressions that the special conversion computes:
//! `+ -` below `* /`, below unary signs, below a right-associative `^`, with
//! parentheses and decimal numbers.
use vstd::prelude::*;

verus! {

/// An arithmetic expression as written: every sign, operator, parenthesis
/// and number of the input has its node.
#[derive(Debug)]
pub enum Expr {
    /// A decimal number: ASCII digits with at most one `.`, at least one digit.
    Number(Vec<char>),
    /// `+e`
    Plus(Box<Expr>),
    /// `-e`
    Negate(Box<Expr>),
    /// `a+b`
    Add(Box<Expr>, Box<Expr>),
    /// `a-b`
    Subtract(Box<Expr>, Box<Expr>),
    /// `a*b`
    Multiply(Box<Expr>, Box<Expr>),
    /// `a/b`
    Divide(Box<Expr>, Box<Expr>),
    /// `a^b`
    Power(Box<Expr>, Box<Expr>),
    /// `(e)`
    Group(Box<Expr>),
}

/// The abstract form of an [`Expr`].
pub enum ExprView {
    Number(Seq<char>),
    Plus(Box<ExprView>),
    Negate(Box<ExprView>),
    Add(Box<ExprView>, Box<ExprView>),
    Subtract(Box<ExprView>, Box<ExprView>),
    Multiply(Box<ExprView>, Box<ExprView>),
    Divide(Box<ExprView>, Box<ExprView>),
    Power(Box<ExprView>, Box<ExprView>),
    Group(Box<ExprView>),
}

pub open spec fn expr_view(e: Expr) -> ExprView
    decreases e,
{
    match e {
        Expr::Number(digits) => ExprView::Number(digits@),
        Expr::Plus(a) => ExprView::Plus(Box::new(expr_view(*a))),
        Expr::Negate(a) => ExprView::Negate(Box::new(expr_view(*a))),
        Expr::Add(a, b) => ExprView::Add(Box::new(expr_view(*a)), Box::new(expr_view(*b))),
        Expr::Subtract(a, b) => ExprView::Subtract(Box::new(expr_view(*a)), Box::new(expr_view(*b))),
        Expr::Multiply(a, b) => ExprView::Multiply(Box::new(expr_view(*a)), Box::new(expr_view(*b))),
        Expr::Divide(a, b) => ExprView::Divide(Box::new(expr_view(*a)), Box::new(expr_view(*b))),
        Expr::Power(a, b) => ExprView::Power(Box::new(expr_view(*a)), Box::new(expr_view(*b))),
        Expr::Group(a) => ExprView::Group(Box::new(expr_view(*a))),
    }
}

impl View for Expr {
    type V = ExprView;

    open spec fn view(&self) -> ExprView {
        expr_view(*self)
    }
}

/// The text of an expression.
pub open spec fn render(e: ExprView) -> Seq<char>
    decreases e,
{
    match e {
        ExprView::Number(digits) => digits,
        ExprView::Plus(a) => seq!['+'] + render(*a),
        ExprView::Negate(a) => seq!['-'] + render(*a),
        ExprView::Add(a, b) => render(*a) + seq!['+'] + render(*b),
        ExprView::Subtract(a, b) => render(*a) + seq!['-'] + render(*b),
        ExprView::Multiply(a, b) => render(*a) + seq!['*'] + render(*b),
        ExprView::Divide(a, b) => render(*a) + seq!['/'] + render(*b),
        ExprView::Power(a, b) => render(*a) + seq!['^'] + render(*b),
        ExprView::Group(a) => seq!['('] + render(*a) + seq![')'],
    }
}

pub open spec fn char_at(s: Seq<char>, p: int) -> Option<char> {
    if 0 <= p < s.len() { Some(s[p]) } else { None }
}

/// End of the longest run of ASCII digits and at most one `.` starting at `p`.
pub open spec fn number_end(s: Seq<char>, p: int, seen_point: bool) -> int
    decreases s.len() - p,
{
    if p < 0 || p >= s.len() {
        p
    } else if '0' <= s[p] && s[p] <= '9' {
        number_end(s, p + 1, seen_point)
    } else if s[p] == '.' && !seen_point {
        number_end(s, p + 1, true)
    } else {
        p
    }
}

pub open spec fn has_digit(s: Seq<char>) -> bool {
    exists|i: int| 0 <= i < s.len() && '0' <= #[trigger] s[i] && s[i] <= '9'
}

/// A number at `p`: the longest run of digits with at most one `.`, which
/// must hold a digit.
pub open spec fn parse_number(s: Seq<char>, p: int) -> Option<(ExprView, int)> {
    let end = number_end(s, p, false);
    if end > p && has_digit(s.subrange(p, end)) {
        Some((ExprView::Number(s.subrange(p, end)), end))
    } else {
        None
    }
}

/// `expression := product (('+' | '-') product)*`, from position `p`.
pub open spec fn parse_expression(s: Seq<char>, p: int) -> Option<(ExprView, int)>
    decreases s.len() - p, 6int,
{
    if p < 0 || p > s.len() {
        None
    } else {
        match parse_product(s, p) {
            Some((e, q)) => if p < q <= s.len() { parse_expression_rest(s, e, q) } else { None },
            None => None,
        }
    }
}

/// The `(('+' | '-') product)*` part after the sum `acc`, from position `q`.
pub open spec fn parse_expression_rest(s: Seq<char>, acc: ExprView, q: int) -> Option<(ExprView, int)>
    decreases s.len() - q, 5int,
{
    if q < 0 || q > s.len() {
        None
    } else if char_at(s, q) == Some('+') || char_at(s, q) == Some('-') {
        match parse_product(s, q + 1) {
            Some((e, r)) => if q < r <= s.len() {
                let sum = if char_at(s, q) == Some('+') {
                    ExprView::Add(Box::new(acc), Box::new(e))
                } else {
                    ExprView::Subtract(Box::new(acc), Box::new(e))
                };
                parse_expression_rest(s, sum, r)
            } else {
                None
            },
            None => None,
        }
    } else {
        Some((acc, q))
    }
}

/// `product := unary (('*' | '/') unary)*`, from position `p`.
pub open spec fn parse_product(s: Seq<char>, p: int) -> Option<(ExprView, int)>
    decreases s.len() - p, 4int,
{
    if p < 0 || p > s.len() {
        None
    } else {
        match parse_unary(s, p) {
            Some((e, q)) => if p < q <= s.len() { parse_product_rest(s, e, q) } else { None },
            None => None,
        }
    }
}

/// The `(('*' | '/') unary)*` part after the product `acc`, from position `q`.
pub open spec fn parse_product_rest(s: Seq<char>, acc: ExprView, q: int) -> Option<(ExprView, int)>
    decreases s.len() - q, 3int,
{
    if q < 0 || q > s.len() {
        None
    } else if char_at(s, q) == Some('*') || char_at(s, q) == Some('/') {
        match parse_unary(s, q + 1) {
            Some((e, r)) => if q < r <= s.len() {
                let product = if char_at(s, q) == Some('*') {
                    ExprView::Multiply(Box::new(acc), Box::new(e))
                } else {
                    ExprView::Divide(Box::new(acc), Box::new(e))
                };
                parse_product_rest(s, product, r)
            } else {
                None
            },
            None => None,
        }
    } else {
        Some((acc, q))
    }
}

/// `unary := ('+' | '-') unary | power`, from position `p`.
pub open spec fn parse_unary(s: Seq<char>, p: int) -> Option<(ExprView, int)>
    decreases s.len() - p, 2int,
{
    if p < 0 || p > s.len() {
        None
    } else if char_at(s, p) == Some('+') {
        match parse_unary(s, p + 1) {
            Some((e, q)) => Some((ExprView::Plus(Box::new(e)), q)),
            None => None,
        }
    } else if char_at(s, p) == Some('-') {
        match parse_unary(s, p + 1) {
            Some((e, q)) => Some((ExprView::Negate(Box::new(e)), q)),
            None => None,
        }
    } else {
        parse_power(s, p)
    }
}

/// `power := primary ('^' unary)?`, from position `p`.
pub open spec fn parse_power(s: Seq<char>, p: int) -> Option<(ExprView, int)>
    decreases s.len() - p, 1int,
{
    if p < 0 || p > s.len() {
        None
    } else {
        match parse_primary(s, p) {
            Some((base, q)) => if p < q <= s.len() {
                if char_at(s, q) == Some('^') {
                    match parse_unary(s, q + 1) {
                        Some((exponent, r)) => Some((ExprView::Power(Box::new(base), Box::new(exponent)), r)),
                        None => None,
                    }
                } else {
                    Some((base, q))
                }
            } else {
                None
            },
            None => None,
        }
    }
}

/// `primary := '(' expression ')' | number`, from position `p`.
pub open spec fn parse_primary(s: Seq<char>, p: int) -> Option<(ExprView, int)>
    decreases s.len() - p, 0int,
{
    if p < 0 || p > s.len() {
        None
    } else if char_at(s, p) == Some('(') {
        match parse_expression(s, p + 1) {
            Some((e, q)) => if char_at(s, q) == Some(')') { Some((ExprView::Group(Box::new(e)), q + 1)) } else { None },
            None => None,
        }
    } else {
        parse_number(s, p)
    }
}

/// The expression that the whole of `s` spells, if any.
pub open spec fn parse_complete(s: Seq<char>) -> Option<ExprView> {
    match parse_expression(s, 0) {
        Some((e, q)) => if q == s.len() { Some(e) } else { None },
        None => None,
    }
}

proof fn lemma_subrange_concat(s: Seq<char>, a: int, b: int, c: int)
    requires
        0 <= a <= b <= c <= s.len(),
    ensures
        s.subrange(a, b) + s.subrange(b, c) == s.subrange(a, c),
{
    assert(s.subrange(a, b) + s.subrange(b, c) =~= s.subrange(a, c));
}

proof fn lemma_single(s: Seq<char>, a: int)
    requires
        0 <= a < s.len(),
    ensures
        s.subrange(a, a + 1) == seq![s[a]],
{
    assert(s.subrange(a, a + 1) =~= seq![s[a]]);
}

/// A parsed number is the text it was read from.
proof fn lemma_number_sound(s: Seq<char>, p: int)
    ensures
        parse_number(s, p) matches Some((e, q)) ==> p < q <= s.len() && render(e) == s.subrange(p, q),
{
    if parse_number(s, p) is Some {
        lemma_number_end_bound(s, p, false);
    }
}

proof fn lemma_number_end_bound(s: Seq<char>, p: int, seen_point: bool)
    requires
        0 <= p,
    ensures
        p <= number_end(s, p, seen_point),
        p <= s.len() ==> number_end(s, p, seen_point) <= s.len(),
    decreases s.len() - p,
{
    if p < s.len() {
        lemma_number_end_bound(s, p + 1, seen_point);
        lemma_number_end_bound(s, p + 1, true);
    }
}

/// Soundness of the grammar: the text of a parsed expression is the input
/// it was read from.
pub proof fn lemma_expression_sound(s: Seq<char>, p: int)
    ensures
        parse_expression(s, p) matches Some((e, q)) ==> p < q <= s.len() && render(e) == s.subrange(p, q),
    decreases s.len() - p, 6int,
{
    if 0 <= p <= s.len() {
        lemma_product_sound(s, p);
        if let Some((e, q)) = parse_product(s, p) {
            if p < q <= s.len() {
                lemma_expression_rest_sound(s, e, p, q);
            }
        }
    }
}

proof fn lemma_expression_rest_sound(s: Seq<char>, acc: ExprView, p: int, q0: int)
    requires
        0 <= p < q0 <= s.len(),
        render(acc) == s.subrange(p, q0),
    ensures
        parse_expression_rest(s, acc, q0) matches Some((e, q)) ==> q0 <= q <= s.len() && render(e) == s.subrange(p, q),
    decreases s.len() - q0, 5int,
{
    if char_at(s, q0) == Some('+') || char_at(s, q0) == Some('-') {
        lemma_product_sound(s, q0 + 1);
        if let Some((e, r)) = parse_product(s, q0 + 1) {
            if q0 < r <= s.len() {
                lemma_single(s, q0);
                lemma_subrange_concat(s, p, q0, q0 + 1);
                lemma_subrange_concat(s, p, q0 + 1, r);
                let sum = if char_at(s, q0) == Some('+') {
                    ExprView::Add(Box::new(acc), Box::new(e))
                } else {
                    ExprView::Subtract(Box::new(acc), Box::new(e))
                };
                assert(render(sum) == s.subrange(p, r));
                lemma_expression_rest_sound(s, sum, p, r);
            }
        }
    }
}

proof fn lemma_product_sound(s: Seq<char>, p: int)
    ensures
        parse_product(s, p) matches Some((e, q)) ==> p < q <= s.len() && render(e) == s.subrange(p, q),
    decreases s.len() - p, 4int,
{
    if 0 <= p <= s.len() {
        lemma_unary_sound(s, p);
        if let Some((e, q)) = parse_unary(s, p) {
            if p < q <= s.len() {
                lemma_product_rest_sound(s, e, p, q);
            }
        }
    }
}

proof fn lemma_product_rest_sound(s: Seq<char>, acc: ExprView, p: int, q0: int)
    requires
        0 <= p < q0 <= s.len(),
        render(acc) == s.subrange(p, q0),
    ensures
        parse_product_rest(s, acc, q0) matches Some((e, q)) ==> q0 <= q <= s.len() && render(e) == s.subrange(p, q),
    decreases s.len() - q0, 3int,
{
    if char_at(s, q0) == Some('*') || char_at(s, q0) == Some('/') {
        lemma_unary_sound(s, q0 + 1);
        if let Some((e, r)) = parse_unary(s, q0 + 1) {
            if q0 < r <= s.len() {
                lemma_single(s, q0);
                lemma_subrange_concat(s, p, q0, q0 + 1);
                lemma_subrange_concat(s, p, q0 + 1, r);
                let product = if char_at(s, q0) == Some('*') {
                    ExprView::Multiply(Box::new(acc), Box::new(e))
                } else {
                    ExprView::Divide(Box::new(acc), Box::new(e))
                };
                assert(render(product) == s.subrange(p, r));
                lemma_product_rest_sound(s, product, p, r);
            }
        }
    }
}

proof fn lemma_unary_sound(s: Seq<char>, p: int)
    ensures
        parse_unary(s, p) matches Some((e, q)) ==> p < q <= s.len() && render(e) == s.subrange(p, q),
    decreases s.len() - p, 2int,
{
    if 0 <= p <= s.len() {
        if char_at(s, p) == Some('+') || char_at(s, p) == Some('-') {
            lemma_unary_sound(s, p + 1);
            if let Some((e, q)) = parse_unary(s, p + 1) {
                lemma_single(s, p);
                lemma_subrange_concat(s, p, p + 1, q);
            }
        } else {
            lemma_power_sound(s, p);
        }
    }
}

proof fn lemma_power_sound(s: Seq<char>, p: int)
    ensures
        parse_power(s, p) matches Some((e, q)) ==> p < q <= s.len() && render(e) == s.subrange(p, q),
    decreases s.len() - p, 1int,
{
    if 0 <= p <= s.len() {
        lemma_primary_sound(s, p);
        if let Some((base, q)) = parse_primary(s, p) {
            if p < q <= s.len() && char_at(s, q) == Some('^') {
                lemma_unary_sound(s, q + 1);
                if let Some((exponent, r)) = parse_unary(s, q + 1) {
                    lemma_single(s, q);
                    lemma_subrange_concat(s, p, q, q + 1);
                    lemma_subrange_concat(s, p, q + 1, r);
                }
            }
        }
    }
}

proof fn lemma_primary_sound(s: Seq<char>, p: int)
    ensures
        parse_primary(s, p) matches Some((e, q)) ==> p < q <= s.len() && render(e) == s.subrange(p, q),
    decreases s.len() - p, 0int,
{
    if 0 <= p <= s.len() {
        if char_at(s, p) == Some('(') {
            lemma_expression_sound(s, p + 1);
            if let Some((e, q)) = parse_expression(s, p + 1) {
                if char_at(s, q) == Some(')') {
                    lemma_single(s, p);
                    lemma_single(s, q);
                    lemma_subrange_concat(s, p, p + 1, q);
                    lemma_subrange_concat(s, p, q, q + 1);
                }
            }
        } else {
            lemma_number_sound(s, p);
        }
    }
}

/// An expression read from the whole input renders back to that input.
pub proof fn lemma_parse_complete_sound(s: Seq<char>)
    ensures
        parse_complete(s) matches Some(e) ==> render(e) == s,
{
    lemma_expression_sound(s, 0);
    if let Some((e, q)) = parse_expression(s, 0) {
        if q == s.len() {
            assert(s.subrange(0, q) =~= s);
        }
    }
}

/// Reading back the text of a parsed expression gives the same expression.
pub proof fn lemma_render_parses_back(s: Seq<char>)
    ensures
        parse_complete(s) matches Some(e) ==> parse_complete(render(e)) == Some(e),
{
    lemma_parse_complete_sound(s);
}

/// Parses an arithmetic expression with standard precedence and
/// right-associative powers.
pub struct ExpressionParser {
    input: Vec<char>,
    position: usize,
}

impl ExpressionParser {
    /// The expression that the whole of `input` spells, if any.
    pub fn parse(input: Vec<char>) -> (r: Option<Expr>)
        ensures
            match parse_complete(input@) {
                Some(e) => r matches Some(x) && x@ == e,
                None => r is None,
            },
    {
        let mut parser = ExpressionParser { input, position: 0 };
        let value = parser.expression();
        match value {
            Some(v) => if parser.position == parser.input.len() { Some(v) } else { None },
            None => None,
        }
    }

    fn peek(&self) -> (r: Option<char>)
        ensures
            r == char_at(self.input@, self.position as int),
            r is Some ==> self.position < self.input.len(),
    {
        if self.position < self.input.len() {
            Some(self.input[self.position])
        } else {
            None
        }
    }

    fn next(&mut self) -> (r: Option<char>)
        requires
            old(self).position <= old(self).input@.len(),
        ensures
            r == char_at(old(self).input@, old(self).position as int),
            final(self).input@ == old(self).input@,
            final(self).position == old(self).position + if r is Some { 1int } else { 0int },
            final(self).position <= final(self).input@.len(),
    {
        let character = self.peek();
        match character {
            Some(c) => {
                self.position = self.position + 1;
                Some(c)
            },
            None => None,
        }
    }

    fn number(&mut self) -> (r: Option<Expr>)
        requires
            old(self).position <= old(self).input@.len(),
        ensures
            final(self).input@ == old(self).input@,
            final(self).position <= final(self).input@.len(),
            match parse_number(old(self).input@, old(self).position as int) {
                Some((e, q)) => r matches Some(x) && x@ == e && final(self).position == q,
                None => r is None,
            },
    {
        let start = self.position;
        let mut decimal_point = false;
        let mut digit = false;
        let mut text: Vec<char> = Vec::new();
        while self.position < self.input.len()
            invariant_except_break
                start <= self.position <= self.input@.len(),
                self.input@ == old(self).input@,
                start == old(self).position,
                text@ == self.input@.subrange(start as int, self.position as int),
                number_end(self.input@, start as int, false) == number_end(self.input@, self.position as int, decimal_point),
                digit == has_digit(text@),
            ensures
                start <= self.position <= self.input@.len(),
                self.input@ == old(self).input@,
                text@ == self.input@.subrange(start as int, self.position as int),
                number_end(self.input@, start as int, false) == self.position,
                digit == has_digit(text@),
            decreases self.input@.len() - self.position,
        {
            let character = self.input[self.position];
            if '0' <= character && character <= '9' {
                let ghost before = text@;
                text.push(character);
                self.position = self.position + 1;
                proof {
                    assert(text@ =~= self.input@.subrange(start as int, self.position as int));
                    assert(text@[text@.len() - 1] == character);
                    if has_digit(before) {
                        let i = choose|i: int| 0 <= i < before.len() && '0' <= #[trigger] before[i] && before[i] <= '9';
                        assert(text@[i] == before[i]);
                    }
                }
                digit = true;
            } else if character == '.' && !decimal_point {
                let ghost before = text@;
                decimal_point = true;
                text.push(character);
                self.position = self.position + 1;
                proof {
                    assert(text@ =~= self.input@.subrange(start as int, self.position as int));
                    if has_digit(before) {
                        let i = choose|i: int| 0 <= i < before.len() && '0' <= #[trigger] before[i] && before[i] <= '9';
                        assert(text@[i] == before[i]);
                    }
                    if has_digit(text@) {
                        let i = choose|i: int| 0 <= i < text@.len() && '0' <= #[trigger] text@[i] && text@[i] <= '9';
                        assert(i < before.len());
                        assert(before[i] == text@[i]);
                    }
                }
            } else {
                break;
            }
        }
        if self.position > start && digit {
            Some(Expr::Number(text))
        } else {
            None
        }
    }

    fn primary(&mut self) -> (r: Option<Expr>)
        requires
            old(self).position <= old(self).input@.len(),
        ensures
            final(self).input@ == old(self).input@,
            final(self).position <= final(self).input@.len(),
            match parse_primary(old(self).input@, old(self).position as int) {
                Some((e, q)) => r matches Some(x) && x@ == e && final(self).position == q,
                None => r is None,
            },
        decreases old(self).input@.len() - old(self).position, 0int,
    {
        if self.peek() == Some('(') {
            self.position = self.position + 1;
            let value = self.expression();
            match value {
                Some(v) => {
                    if self.next() == Some(')') {
                        Some(Expr::Group(Box::new(v)))
                    } else {
                        None
                    }
                },
                None => None,
            }
        } else {
            self.number()
        }
    }

    fn power(&mut self) -> (r: Option<Expr>)
        requires
            old(self).position <= old(self).input@.len(),
        ensures
            final(self).input@ == old(self).input@,
            final(self).position <= final(self).input@.len(),
            match parse_power(old(self).input@, old(self).position as int) {
                Some((e, q)) => r matches Some(x) && x@ == e && final(self).position == q,
                None => r is None,
            },
        decreases old(self).input@.len() - old(self).position, 1int,
    {
        let start = self.position;
        let base = match self.primary() {
            Some(v) => v,
            None => return None,
        };
        if self.position <= start {
            return None;
        }
        if self.peek() == Some('^') {
            self.position = self.position + 1;
            match self.unary() {
                Some(exponent) => Some(Expr::Power(Box::new(base), Box::new(exponent))),
                None => None,
            }
        } else {
            Some(base)
        }
    }

    fn unary(&mut self) -> (r: Option<Expr>)
        requires
            old(self).position <= old(self).input@.len(),
        ensures
            final(self).input@ == old(self).input@,
            final(self).position <= final(self).input@.len(),
            match parse_unary(old(self).input@, old(self).position as int) {
                Some((e, q)) => r matches Some(x) && x@ == e && final(self).position == q,
                None => r is None,
            },
        decreases old(self).input@.len() - old(self).position, 2int,
    {
        let c = self.peek();
        if c == Some('+') {
            self.position = self.position + 1;
            match self.unary() {
                Some(v) => Some(Expr::Plus(Box::new(v))),
                None => None,
            }
        } else if c == Some('-') {
            self.position = self.position + 1;
            match self.unary() {
                Some(v) => Some(Expr::Negate(Box::new(v))),
                None => None,
            }
        } else {
            self.power()
        }
    }

    fn product(&mut self) -> (r: Option<Expr>)
        requires
            old(self).position <= old(self).input@.len(),
        ensures
            final(self).input@ == old(self).input@,
            final(self).position <= final(self).input@.len(),
            match parse_product(old(self).input@, old(self).position as int) {
                Some((e, q)) => r matches Some(x) && x@ == e && final(self).position == q,
                None => r is None,
            },
        decreases old(self).input@.len() - old(self).position, 4int,
    {
        let start = self.position;
        let mut value = match self.unary() {
            Some(v) => v,
            None => return None,
        };
        if self.position <= start {
            return None;
        }
        let ghost target = parse_product(old(self).input@, start as int);
        loop
            invariant
                self.input@ == old(self).input@,
                start == old(self).position,
                start < self.position <= self.input@.len(),
                target == parse_product(old(self).input@, start as int),
                target == parse_product_rest(self.input@, value@, self.position as int),
            decreases self.input@.len() - self.position,
        {
            let operator = self.peek();
            if operator == Some('*') || operator == Some('/') {
                let operator_position = self.position;
                self.position = self.position + 1;
                let rhs = match self.unary() {
                    Some(v) => v,
                    None => return None,
                };
                if self.position <= operator_position {
                    return None;
                }
                if operator == Some('*') {
                    value = Expr::Multiply(Box::new(value), Box::new(rhs));
                } else {
                    value = Expr::Divide(Box::new(value), Box::new(rhs));
                }
            } else {
                return Some(value);
            }
        }
    }

    fn expression(&mut self) -> (r: Option<Expr>)
        requires
            old(self).position <= old(self).input@.len(),
        ensures
            final(self).input@ == old(self).input@,
            final(self).position <= final(self).input@.len(),
            match parse_expression(old(self).input@, old(self).position as int) {
                Some((e, q)) => r matches Some(x) && x@ == e && final(self).position == q,
                None => r is None,
            },
        decreases old(self).input@.len() - old(self).position, 6int,
    {
        let start = self.position;
        let mut value = match self.product() {
            Some(v) => v,
            None => return None,
        };
        if self.position <= start {
            return None;
        }
        let ghost target = parse_expression(old(self).input@, start as int);
        loop
            invariant
                self.input@ == old(self).input@,
                start == old(self).position,
                start < self.position <= self.input@.len(),
                target == parse_expression(old(self).input@, start as int),
                target == parse_expression_rest(self.input@, value@, self.position as int),
            decreases self.input@.len() - self.position,
        {
            let operator = self.peek();
            if operator == Some('+') || operator == Some('-') {
                let operator_position = self.position;
                self.position = self.position + 1;
                let rhs = match self.product() {
                    Some(v) => v,
                    None => return None,
                };
                if self.position <= operator_position {
                    return None;
                }
                if operator == Some('+') {
                    value = Expr::Add(Box::new(value), Box::new(rhs));
                } else {
                    value = Expr::Subtract(Box::new(value), Box::new(rhs));
                }
            } else {
                return Some(value);
            }
        }
    }
}

} // verus!
