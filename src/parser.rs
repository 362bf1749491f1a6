//! The recursive-descent parser of the structural netlist subset.
use vstd::prelude::*;
use crate::text::concat3;
use crate::token::{lex, token_views, Lexer, Token, TokenKind};
use crate::verilog::{
    gates_with, wires_with, Gate, GateView, Module, ModuleView, PortView, PortWire, RangeView,
    SignalRange, Verilog, VerilogError, Wire, WireView,
};

verus! {

/// Why a netlist could not be parsed.
#[derive(Debug)]
pub struct ParseError {
    pub error_type: ParseErrorType,
}

/// The kinds of parse errors.
#[derive(Debug)]
pub enum ParseErrorType {
    /// The input ended where a token was expected.
    NoToken,
    /// The first token was expected, the second one came.
    UnexpectedToken(Token, Token),
}

impl ParseError {
    pub fn from_type(error_type: ParseErrorType) -> (r: Self)
        ensures
            r.error_type == error_type,
    {
        ParseError { error_type }
    }
}

/// The token at `p` is the reserved word or punctuation `name`.
pub open spec fn at_reserved(ts: Seq<(TokenKind, Seq<char>)>, p: int, name: Seq<char>) -> bool {
    0 <= p < ts.len() && ts[p].0 == TokenKind::Reserved && ts[p].1 == name
}

/// The token at `p` is of kind `k`.
pub open spec fn at_kind(ts: Seq<(TokenKind, Seq<char>)>, p: int, k: TokenKind) -> bool {
    0 <= p < ts.len() && ts[p].0 == k
}

/// `range := "[" number ":" number "]"`, optional: the bounds and the position after.
pub open spec fn range_at(ts: Seq<(TokenKind, Seq<char>)>, p: int) -> Result<(Option<(Seq<char>, Seq<char>)>, int), ()> {
    if at_reserved(ts, p, "["@) {
        if at_kind(ts, p + 1, TokenKind::Number) && at_reserved(ts, p + 2, ":"@) && at_kind(ts, p + 3, TokenKind::Number)
            && at_reserved(ts, p + 4, "]"@) {
            Ok((Some((ts[p + 1].1, ts[p + 3].1)), p + 5))
        } else {
            Err(())
        }
    } else {
        Ok((None, p))
    }
}

/// `identifier_range := identifier ( "[" number "]" )?`: its text and the position after.
pub open spec fn ident_range_at(ts: Seq<(TokenKind, Seq<char>)>, p: int) -> Result<(Seq<char>, int), ()> {
    if !at_kind(ts, p, TokenKind::Identifier) {
        Err(())
    } else if at_reserved(ts, p + 1, "["@) {
        if at_kind(ts, p + 2, TokenKind::Number) && at_reserved(ts, p + 3, "]"@) {
            Ok((ts[p].1 + "["@ + ts[p + 2].1 + "]"@, p + 4))
        } else {
            Err(())
        }
    } else {
        Ok((ts[p].1, p + 1))
    }
}

/// `declarations := identifier ( "," identifier )*`, possibly empty, after the names `acc`.
pub open spec fn decls_at(ts: Seq<(TokenKind, Seq<char>)>, p: int, acc: Seq<Seq<char>>) -> (Seq<Seq<char>>, int)
    decreases ts.len() - p,
{
    if at_kind(ts, p, TokenKind::Identifier) {
        if at_reserved(ts, p + 1, ","@) {
            decls_at(ts, p + 2, acc.push(ts[p].1))
        } else {
            (acc.push(ts[p].1), p + 1)
        }
    } else {
        (acc, p)
    }
}

/// The tokens of an expression up to a `,` or `;`, each appended to `text` after a space.
pub open spec fn expr_tail_at(ts: Seq<(TokenKind, Seq<char>)>, p: int, text: Seq<char>) -> Result<(Seq<char>, int), ()>
    decreases ts.len() - p,
{
    if p < 0 || p >= ts.len() {
        Err(())
    } else if ts[p].1 == ","@ || ts[p].1 == ";"@ {
        Ok((text, p))
    } else {
        expr_tail_at(ts, p + 1, text + " "@ + ts[p].1)
    }
}

/// `expression := identifier_range "=" [^,;]*`, its tokens joined by spaces.
pub open spec fn expression_at(ts: Seq<(TokenKind, Seq<char>)>, p: int) -> Result<(Seq<char>, int), ()> {
    match ident_range_at(ts, p) {
        Ok((lhs, q)) => if at_reserved(ts, q, "="@) {
            expr_tail_at(ts, q + 1, lhs + " "@ + "="@)
        } else {
            Err(())
        },
        Err(_) => Err(()),
    }
}

/// `expressions := expression ( "," expression )*`, after the expressions `acc`.
pub open spec fn expressions_at(ts: Seq<(TokenKind, Seq<char>)>, p: int, acc: Seq<Seq<char>>) -> Result<(Seq<Seq<char>>, int), ()>
    decreases ts.len() - p,
{
    match expression_at(ts, p) {
        Ok((e, q)) => if at_reserved(ts, q, ","@) {
            if p < q + 1 <= ts.len() {
                expressions_at(ts, q + 1, acc.push(e))
            } else {
                Err(())
            }
        } else {
            Ok((acc.push(e), q))
        },
        Err(_) => Err(()),
    }
}

/// One binding `"." identifier "(" (number | identifier_range) ")"` from `p`.
pub open spec fn port_at(ts: Seq<(TokenKind, Seq<char>)>, p: int) -> Result<(PortView, int), ()> {
    if at_kind(ts, p, TokenKind::Identifier) && at_reserved(ts, p + 1, "("@) {
        if at_kind(ts, p + 2, TokenKind::Number) {
            if at_reserved(ts, p + 3, ")"@) {
                Ok((PortView { constant: true, port: ts[p].1, wire: ts[p + 2].1 }, p + 4))
            } else {
                Err(())
            }
        } else {
            match ident_range_at(ts, p + 2) {
                Ok((w, q)) => if at_reserved(ts, q, ")"@) {
                    Ok((PortView { constant: false, port: ts[p].1, wire: w }, q + 1))
                } else {
                    Err(())
                },
                Err(_) => Err(()),
            }
        }
    } else {
        Err(())
    }
}

/// `gate_ports := ( "." port ( "," "." port )* )?`, appended to the bindings of `g`.
pub open spec fn gate_ports_at(ts: Seq<(TokenKind, Seq<char>)>, p: int, g: GateView) -> Result<(GateView, int), ()>
    decreases ts.len() - p,
{
    if !at_reserved(ts, p, "."@) {
        Ok((g, p))
    } else {
        match port_at(ts, p + 1) {
            Ok((pv, q)) => {
                let g2 = GateView { ports: g.ports.push(pv), ..g };
                if at_reserved(ts, q, ","@) {
                    if p < q + 1 <= ts.len() {
                        gate_ports_at(ts, q + 1, g2)
                    } else {
                        Err(())
                    }
                } else {
                    Ok((g2, q))
                }
            },
            Err(_) => Err(()),
        }
    }
}

/// The range that a declaration gives its wires.
pub open spec fn range_view(r: Option<(Seq<char>, Seq<char>)>) -> RangeView {
    match r {
        Some((a, b)) => RangeView::Multiple(a, b),
        None => RangeView::Single,
    }
}

/// `ws` with the wires `names` of range `rv` added in turn.
pub open spec fn with_names(ws: Seq<WireView>, rv: RangeView, names: Seq<Seq<char>>) -> Seq<WireView>
    decreases names.len(),
{
    if names.len() == 0 {
        ws
    } else {
        wires_with(with_names(ws, rv, names.drop_last()), WireView { name: names.last(), range: rv })
    }
}

/// A declaration statement of kind `kind` from `p` (after its keyword): the declared names
/// with their range, and the position after the `;`.
pub open spec fn declaration_at(ts: Seq<(TokenKind, Seq<char>)>, p: int) -> Result<(RangeView, Seq<Seq<char>>, int), ()> {
    match range_at(ts, p) {
        Ok((rg, q)) => {
            let (names, q2) = decls_at(ts, q, Seq::empty());
            if at_reserved(ts, q2, ";"@) {
                Ok((range_view(rg), names, q2 + 1))
            } else {
                Err(())
            }
        },
        Err(_) => Err(()),
    }
}

/// One statement of a module body from `p` applied to `m`, or none where no statement starts.
pub open spec fn statement_at(m: ModuleView, ts: Seq<(TokenKind, Seq<char>)>, p: int) -> Result<Option<(ModuleView, int)>, ()> {
    if at_reserved(ts, p, "input"@) {
        match declaration_at(ts, p + 1) {
            Ok((rv, names, q)) => Ok(Some((ModuleView { inputs: with_names(m.inputs, rv, names), ..m }, q))),
            Err(_) => Err(()),
        }
    } else if at_reserved(ts, p, "output"@) {
        match declaration_at(ts, p + 1) {
            Ok((rv, names, q)) => Ok(Some((ModuleView { outputs: with_names(m.outputs, rv, names), ..m }, q))),
            Err(_) => Err(()),
        }
    } else if at_reserved(ts, p, "wire"@) {
        match declaration_at(ts, p + 1) {
            Ok((rv, names, q)) => Ok(Some((ModuleView { wires: with_names(m.wires, rv, names), ..m }, q))),
            Err(_) => Err(()),
        }
    } else if at_reserved(ts, p, "assign"@) {
        match expressions_at(ts, p + 1, Seq::empty()) {
            Ok((es, q)) => if at_reserved(ts, q, ";"@) {
                Ok(Some((ModuleView { assigns: m.assigns + es, ..m }, q + 1)))
            } else {
                Err(())
            },
            Err(_) => Err(()),
        }
    } else if at_kind(ts, p, TokenKind::Identifier) {
        if at_kind(ts, p + 1, TokenKind::Identifier) && at_reserved(ts, p + 2, "("@) {
            match gate_ports_at(ts, p + 3, GateView { name: ts[p].1, ports: Seq::empty() }) {
                Ok((g, q)) => if at_reserved(ts, q, ")"@) && at_reserved(ts, q + 1, ";"@) {
                    Ok(Some((ModuleView { gates: gates_with(m.gates, ts[p + 1].1, g), ..m }, q + 2)))
                } else {
                    Err(())
                },
                Err(_) => Err(()),
            }
        } else {
            Err(())
        }
    } else {
        Ok(None)
    }
}

/// `statement*` from `p` applied to `m`.
pub open spec fn statements_at(m: ModuleView, ts: Seq<(TokenKind, Seq<char>)>, p: int) -> Result<(ModuleView, int), ()>
    decreases ts.len() - p,
{
    match statement_at(m, ts, p) {
        Ok(Some((m2, q))) => if p < q <= ts.len() {
            statements_at(m2, ts, q)
        } else {
            Err(())
        },
        Ok(None) => Ok((m, p)),
        Err(_) => Err(()),
    }
}

/// The module named `name` with nothing in it.
pub open spec fn empty_module(name: Seq<char>) -> ModuleView {
    ModuleView {
        name,
        inputs: Seq::empty(),
        outputs: Seq::empty(),
        wires: Seq::empty(),
        assigns: Seq::empty(),
        gates: Seq::empty(),
    }
}

/// The rest of a module after its header: its statements from `q` applied to `e`, then
/// `endmodule`.
pub open spec fn module_rest(e: ModuleView, ts: Seq<(TokenKind, Seq<char>)>, q: int) -> Result<Option<(ModuleView, int)>, ()> {
    match statements_at(e, ts, q) {
        Ok((m, q2)) => if at_reserved(ts, q2, "endmodule"@) {
            Ok(Some((m, q2 + 1)))
        } else {
            Err(())
        },
        Err(_) => Err(()),
    }
}

/// `module := "module" identifier "(" declarations ")" ";" statement* "endmodule"`, or none
/// where no module starts at `p`.
pub open spec fn module_at(ts: Seq<(TokenKind, Seq<char>)>, p: int) -> Result<Option<(ModuleView, int)>, ()> {
    if !at_reserved(ts, p, "module"@) {
        Ok(None)
    } else if !(at_kind(ts, p + 1, TokenKind::Identifier) && at_reserved(ts, p + 2, "("@)) {
        Err(())
    } else {
        let q = decls_at(ts, p + 3, Seq::empty()).1;
        if at_reserved(ts, q, ")"@) && at_reserved(ts, q + 1, ";"@) {
            module_rest(empty_module(ts[p + 1].1), ts, q + 2)
        } else {
            Err(())
        }
    }
}

/// `verilog := module*` from `p`, after the modules `ms`.
pub open spec fn verilog_at(ts: Seq<(TokenKind, Seq<char>)>, p: int, ms: Seq<ModuleView>) -> Result<Seq<ModuleView>, ()>
    decreases ts.len() - p,
{
    match module_at(ts, p) {
        Ok(Some((m, q))) => if p < q <= ts.len() {
            verilog_at(ts, q, ms.push(m))
        } else {
            Err(())
        },
        Ok(None) => Ok(ms),
        Err(_) => Err(()),
    }
}

/// The netlist that the source text `s` describes, where it parses.
pub open spec fn parsed(s: Seq<char>) -> Result<Seq<ModuleView>, ()> {
    verilog_at(lex(s, 0), 0, Seq::empty())
}

/// The bounds of an optional range as text.
pub open spec fn bounds_view(r: Option<(String, String)>) -> Option<(Seq<char>, Seq<char>)> {
    match r {
        Some((a, b)) => Some((a@, b@)),
        None => None,
    }
}

/// A parser over a sequence of tokens: `index` is the position of the next token.
#[derive(Debug)]
pub struct Parser {
    pub tokens: Vec<Token>,
    pub index: usize,
}

impl Parser {
    /// The kinds and texts of the tokens.
    pub open spec fn views(&self) -> Seq<(TokenKind, Seq<char>)> {
        token_views(self.tokens@)
    }

    /// The position is within the tokens.
    pub open spec fn inv(&self) -> bool {
        self.index <= self.tokens@.len()
    }

    /// A parser at the first of `tokens`.
    pub fn from_tokens(tokens: Vec<Token>) -> (r: Self)
        ensures
            r.tokens@ == tokens@,
            r.index == 0,
    {
        Parser { tokens, index: 0 }
    }

    fn current(&self) -> (r: Option<&Token>)
        requires
            self.inv(),
        ensures
            match r {
                Some(t) => self.index < self.tokens@.len() && t.kind_text() == self.views()[self.index as int],
                None => self.index == self.tokens@.len(),
            },
    {
        if self.index < self.tokens.len() {
            Some(&self.tokens[self.index])
        } else {
            None
        }
    }

    fn next(&mut self) -> (r: Option<Token>)
        requires
            old(self).inv(),
        ensures
            final(self).tokens@ == old(self).tokens@,
            final(self).inv(),
            match r {
                Some(t) => old(self).index < old(self).tokens@.len() && t.kind_text() == old(self).views()[old(self).index as int]
                    && final(self).index == old(self).index + 1,
                None => old(self).index == old(self).tokens@.len() && final(self).index == old(self).index,
            },
    {
        if self.index < self.tokens.len() {
            let t = self.tokens[self.index].duplicate();
            self.index = self.index + 1;
            Some(t)
        } else {
            None
        }
    }

    /// Consumes the next token where it is the reserved `name`.
    fn consume_reserved_token(&mut self, name: &str) -> (r: Result<Option<Token>, ParseError>)
        requires
            old(self).inv(),
        ensures
            final(self).tokens@ == old(self).tokens@,
            final(self).inv(),
            r is Ok,
            (r matches Ok(Some(_))) == at_reserved(old(self).views(), old(self).index as int, name@),
            r matches Ok(Some(_)) ==> final(self).index == old(self).index + 1,
            r matches Ok(None) ==> final(self).index == old(self).index,
    {
        let expected_token = Token::Reserved(String::from_str(name));
        let hit = match self.current() {
            Some(token) => expected_token.same_as(token),
            None => false,
        };
        Ok(if hit { self.next() } else { None })
    }

    /// Consumes the next token where it is an identifier.
    fn consume_identifier_token(&mut self) -> (r: Result<Option<Token>, ParseError>)
        requires
            old(self).inv(),
        ensures
            final(self).tokens@ == old(self).tokens@,
            final(self).inv(),
            r is Ok,
            (r matches Ok(Some(_))) == at_kind(old(self).views(), old(self).index as int, TokenKind::Identifier),
            r matches Ok(Some(t)) ==> final(self).index == old(self).index + 1
                && t.kind_text() == old(self).views()[old(self).index as int],
            r matches Ok(None) ==> final(self).index == old(self).index,
    {
        let hit = match self.current() {
            Some(Token::Identifier(_)) => true,
            _ => false,
        };
        Ok(if hit { self.next() } else { None })
    }

    /// Consumes the next token where it is a number.
    fn consume_number_token(&mut self) -> (r: Result<Option<Token>, ParseError>)
        requires
            old(self).inv(),
        ensures
            final(self).tokens@ == old(self).tokens@,
            final(self).inv(),
            r is Ok,
            (r matches Ok(Some(_))) == at_kind(old(self).views(), old(self).index as int, TokenKind::Number),
            r matches Ok(Some(t)) ==> final(self).index == old(self).index + 1
                && t.kind_text() == old(self).views()[old(self).index as int],
            r matches Ok(None) ==> final(self).index == old(self).index,
    {
        let hit = match self.current() {
            Some(Token::Number(_)) => true,
            _ => false,
        };
        Ok(if hit { self.next() } else { None })
    }

    /// The next token; fails at the end of the input.
    fn expect_token(&mut self) -> (r: Result<Token, ParseError>)
        requires
            old(self).inv(),
        ensures
            final(self).tokens@ == old(self).tokens@,
            final(self).inv(),
            r is Ok <==> old(self).index < old(self).tokens@.len(),
            r matches Ok(t) ==> t.kind_text() == old(self).views()[old(self).index as int]
                && final(self).index == old(self).index + 1,
    {
        match self.next() {
            Some(token) => Ok(token),
            None => Err(ParseError::from_type(ParseErrorType::NoToken)),
        }
    }

    /// The next token, which must be the reserved `name`.
    fn expect_reserved_token(&mut self, name: &str) -> (r: Result<Token, ParseError>)
        requires
            old(self).inv(),
        ensures
            final(self).tokens@ == old(self).tokens@,
            final(self).inv(),
            r is Ok <==> at_reserved(old(self).views(), old(self).index as int, name@),
            r matches Ok(t) ==> t.text() == name@ && final(self).index == old(self).index + 1,
    {
        let expected_token = Token::Reserved(String::from_str(name));
        let token = self.expect_token()?;
        if token.same_as(&expected_token) {
            Ok(token)
        } else {
            Err(ParseError::from_type(ParseErrorType::UnexpectedToken(expected_token, token)))
        }
    }

    /// The next token, which must be a number.
    fn expect_number(&mut self) -> (r: Result<Token, ParseError>)
        requires
            old(self).inv(),
        ensures
            final(self).tokens@ == old(self).tokens@,
            final(self).inv(),
            r is Ok <==> at_kind(old(self).views(), old(self).index as int, TokenKind::Number),
            r matches Ok(t) ==> t.text() == old(self).views()[old(self).index as int].1
                && final(self).index == old(self).index + 1,
    {
        let token = self.expect_token()?;
        if matches!(token, Token::Number(_)) {
            Ok(token)
        } else {
            Err(ParseError::from_type(ParseErrorType::UnexpectedToken(
                Token::Number(String::from_str("{number}")),
                token,
            )))
        }
    }

    /// The next token, which must be an identifier.
    fn expect_identifier(&mut self) -> (r: Result<Token, ParseError>)
        requires
            old(self).inv(),
        ensures
            final(self).tokens@ == old(self).tokens@,
            final(self).inv(),
            r is Ok <==> at_kind(old(self).views(), old(self).index as int, TokenKind::Identifier),
            r matches Ok(t) ==> t.text() == old(self).views()[old(self).index as int].1
                && final(self).index == old(self).index + 1,
    {
        let token = self.expect_token()?;
        if matches!(token, Token::Identifier(_)) {
            Ok(token)
        } else {
            Err(ParseError::from_type(ParseErrorType::UnexpectedToken(
                Token::Identifier(String::from_str("{identifier}")),
                token,
            )))
        }
    }

    /// `range := "[" number ":" number "]"`, optional.
    fn range(&mut self) -> (r: Result<Option<(String, String)>, ParseError>)
        requires
            old(self).inv(),
        ensures
            final(self).tokens@ == old(self).tokens@,
            final(self).inv(),
            match range_at(old(self).views(), old(self).index as int) {
                Ok((rg, q)) => r matches Ok(x) && bounds_view(x) == rg && final(self).index == q,
                Err(_) => r is Err,
            },
    {
        if self.consume_reserved_token("[")?.is_some() {
            let left = self.expect_number()?.to_string();
            self.expect_reserved_token(":")?;
            let right = self.expect_number()?.to_string();
            self.expect_reserved_token("]")?;
            Ok(Some((left, right)))
        } else {
            Ok(None)
        }
    }

    /// `identifier_range := identifier ( "[" number "]" )?`, its tokens joined.
    fn identifier_range(&mut self) -> (r: Result<String, ParseError>)
        requires
            old(self).inv(),
        ensures
            final(self).tokens@ == old(self).tokens@,
            final(self).inv(),
            match ident_range_at(old(self).views(), old(self).index as int) {
                Ok((t, q)) => r matches Ok(x) && x@ == t && final(self).index == q,
                Err(_) => r is Err,
            },
    {
        let name = self.expect_identifier()?.to_string();
        if self.consume_reserved_token("[")?.is_some() {
            let index = self.expect_number()?.to_string();
            self.expect_reserved_token("]")?;
            let head = concat3(name.as_str(), "[", index.as_str());
            Ok(crate::text::concat(head.as_str(), "]"))
        } else {
            Ok(name)
        }
    }

    /// `declarations := identifier ( "," identifier )*`
    fn declarations(&mut self, range: Option<(String, String)>) -> (r: Result<(SignalRange, Vec<String>), ParseError>)
        requires
            old(self).inv(),
        ensures
            final(self).tokens@ == old(self).tokens@,
            final(self).inv(),
            r matches Ok((rg, names)) && rg@ == range_view(bounds_view(range))
                && crate::verilog::string_views(names@) == decls_at(old(self).views(), old(self).index as int, Seq::empty()).0
                && final(self).index == decls_at(old(self).views(), old(self).index as int, Seq::empty()).1,
            r is Ok ==> final(self).index >= old(self).index,
    {
        let ghost ts = self.views();
        let ghost start = self.index as int;
        let ghost bv = bounds_view(range);
        let signal_range = match range {
            Some((a, b)) => SignalRange::Multiple(a, b),
            None => SignalRange::Single,
        };
        let mut declarations: Vec<String> = Vec::new();
        assert(crate::verilog::string_views(declarations@) =~= Seq::<Seq<char>>::empty());
        loop
            invariant_except_break
                decls_at(ts, start, Seq::empty()) == decls_at(ts, self.index as int, crate::verilog::string_views(declarations@)),
            invariant
                start == old(self).index,
                self.index >= start,
                self.inv(),
                ts == self.views(),
                ts == old(self).views(),
                self.tokens@ == old(self).tokens@,
            ensures
                decls_at(ts, start, Seq::empty()) == (crate::verilog::string_views(declarations@), self.index as int),
                self.index >= start,
            decreases self.tokens@.len() - self.index,
        {
            let ghost acc = crate::verilog::string_views(declarations@);
            let ghost p = self.index as int;
            match self.consume_identifier_token()? {
                Some(token) => {
                    let name = token.to_string();
                    declarations.push(name);
                    assert(crate::verilog::string_views(declarations@) =~= acc.push(ts[p].1));
                    if self.consume_reserved_token(",")?.is_none() {
                        break;
                    }
                },
                None => {
                    break;
                },
            }
        }
        Ok((signal_range, declarations))
    }

    /// `expression := identifier_range "=" [^,;]*`, its tokens joined by spaces.
    fn expression(&mut self) -> (r: Result<String, ParseError>)
        requires
            old(self).inv(),
        ensures
            final(self).tokens@ == old(self).tokens@,
            final(self).inv(),
            match expression_at(old(self).views(), old(self).index as int) {
                Ok((e, q)) => r matches Ok(x) && x@ == e && final(self).index == q && q > old(self).index,
                Err(_) => r is Err,
            },
    {
        let ghost ts = self.views();
        let lhs = self.identifier_range()?;
        let eq = self.expect_reserved_token("=")?.to_string();
        let mut expression = concat3(lhs.as_str(), " ", eq.as_str());
        let ghost q0 = self.index as int;
        let ghost t0 = expression@;
        assert(expression_at(ts, old(self).index as int) == expr_tail_at(ts, q0, t0));
        loop
            invariant_except_break
                expr_tail_at(ts, q0, t0) == expr_tail_at(ts, self.index as int, expression@),
            invariant
                expression_at(ts, old(self).index as int) == expr_tail_at(ts, q0, t0),
                self.inv(),
                ts == self.views(),
                ts == old(self).views(),
                self.tokens@ == old(self).tokens@,
                self.index >= q0,
                q0 > old(self).index,
            ensures
                expr_tail_at(ts, q0, t0) == Ok::<(Seq<char>, int), ()>((expression@, self.index as int)),
            decreases self.tokens@.len() - self.index,
        {
            let stop = match self.current() {
                Some(token) => {
                    let t = token.to_string();
                    crate::text::str_eq(t.as_str(), ",") || crate::text::str_eq(t.as_str(), ";")
                },
                None => false,
            };
            if stop {
                break;
            }
            let t = self.expect_token()?.to_string();
            expression = concat3(expression.as_str(), " ", t.as_str());
        }
        Ok(expression)
    }

    /// `expressions := expression ( "," expression )*`
    fn expressions(&mut self) -> (r: Result<Vec<String>, ParseError>)
        requires
            old(self).inv(),
        ensures
            final(self).tokens@ == old(self).tokens@,
            final(self).inv(),
            match expressions_at(old(self).views(), old(self).index as int, Seq::empty()) {
                Ok((es, q)) => r matches Ok(x) && crate::verilog::string_views(x@) == es && final(self).index == q,
                Err(_) => r is Err,
            },
            r is Ok ==> final(self).index >= old(self).index,
    {
        let ghost ts = self.views();
        let ghost start = self.index as int;
        let mut expressions: Vec<String> = Vec::new();
        assert(crate::verilog::string_views(expressions@) =~= Seq::<Seq<char>>::empty());
        loop
            invariant_except_break
                expressions_at(ts, start, Seq::empty()) == expressions_at(ts, self.index as int, crate::verilog::string_views(expressions@)),
            invariant
                start == old(self).index,
                self.index >= start,
                self.inv(),
                ts == self.views(),
                ts == old(self).views(),
                self.tokens@ == old(self).tokens@,
            ensures
                expressions_at(ts, start, Seq::empty()) == Ok::<(Seq<Seq<char>>, int), ()>((crate::verilog::string_views(expressions@), self.index as int)),
            decreases self.tokens@.len() - self.index,
        {
            let ghost acc = crate::verilog::string_views(expressions@);
            let expr = self.expression()?;
            let ghost ev = expr@;
            expressions.push(expr);
            assert(crate::verilog::string_views(expressions@) =~= acc.push(ev));
            if self.consume_reserved_token(",")?.is_none() {
                break;
            }
        }
        Ok(expressions)
    }

    /// `gate_ports := ( "." identifier "(" (identifier_range | number) ")" ( "," ... )* )?`
    fn gate_ports(&mut self, gate: Gate) -> (r: Result<Gate, ParseError>)
        requires
            old(self).inv(),
        ensures
            final(self).tokens@ == old(self).tokens@,
            final(self).inv(),
            match gate_ports_at(old(self).views(), old(self).index as int, gate@) {
                Ok((g, q)) => r matches Ok(x) && x@ == g && final(self).index == q,
                Err(_) => r is Err,
            },
            r is Ok ==> final(self).index >= old(self).index,
    {
        let mut g = gate;
        self.gate_ports_into(&mut g)?;
        Ok(g)
    }

    fn gate_ports_into(&mut self, gate: &mut Gate) -> (r: Result<(), ParseError>)
        requires
            old(self).inv(),
        ensures
            final(self).tokens@ == old(self).tokens@,
            final(self).inv(),
            match gate_ports_at(old(self).views(), old(self).index as int, old(gate)@) {
                Ok((g, q)) => r is Ok && final(gate)@ == g && final(self).index == q,
                Err(_) => r is Err,
            },
            r is Ok ==> final(self).index >= old(self).index,
    {
        let ghost ts = self.views();
        let ghost start = self.index as int;
        let ghost g0 = gate@;
        loop
            invariant_except_break
                gate_ports_at(ts, start, g0) == gate_ports_at(ts, self.index as int, gate@),
            invariant
                start == old(self).index,
                g0 == old(gate)@,
                self.index >= start,
                self.inv(),
                ts == self.views(),
                ts == old(self).views(),
                self.tokens@ == old(self).tokens@,
            ensures
                gate_ports_at(ts, start, g0) == Ok::<(GateView, int), ()>((gate@, self.index as int)),
            decreases self.tokens@.len() - self.index,
        {
            let ghost p = self.index as int;
            let ghost gv = gate@;
            if self.consume_reserved_token(".")?.is_none() {
                break;
            }
            let port = match self.expect_identifier() {
                Ok(t) => t.to_string(),
                Err(e) => {
                    assert(port_at(ts, p + 1) is Err);
                    assert(gate_ports_at(ts, p, gv) is Err);
                    return Err(e);
                },
            };
            match self.expect_reserved_token("(") {
                Ok(_) => {},
                Err(e) => {
                    assert(port_at(ts, p + 1) is Err);
                    assert(gate_ports_at(ts, p, gv) is Err);
                    return Err(e);
                },
            }
            match self.consume_number_token()? {
                Some(number) => {
                    gate.push_port(PortWire::Constant(port, number.to_string()));
                },
                None => {
                    let wire = match self.identifier_range() {
                        Ok(w) => w,
                        Err(e) => {
                            assert(port_at(ts, p + 1) is Err);
                            assert(gate_ports_at(ts, p, gv) is Err);
                            return Err(e);
                        },
                    };
                    gate.push_port(PortWire::Wire(port, wire));
                },
            }
            match self.expect_reserved_token(")") {
                Ok(_) => {},
                Err(e) => {
                    assert(port_at(ts, p + 1) is Err);
                    assert(gate_ports_at(ts, p, gv) is Err);
                    return Err(e);
                },
            }
            if self.consume_reserved_token(",")?.is_none() {
                break;
            }
        }
        Ok(())
    }

    /// `statement := ( (input|output|wire) range? declarations | assign expressions |
    /// identifier identifier "(" gate_ports ")" ) ";"`
    fn statement(&mut self, module: &mut Module) -> (r: Result<Option<()>, ParseError>)
        requires
            old(self).inv(),
            old(module).wf(),
        ensures
            final(self).tokens@ == old(self).tokens@,
            final(self).inv(),
            final(module).wf(),
            match statement_at(old(module)@, old(self).views(), old(self).index as int) {
                Ok(Some((m, q))) => r matches Ok(Some(_)) && final(module)@ == m && final(self).index == q
                    && q > old(self).index,
                Ok(None) => r matches Ok(None) && final(module)@ == old(module)@ && final(self).index == old(self).index,
                Err(_) => r is Err,
            },
    {
        let ghost ts = self.views();
        let ghost m0 = module@;
        let ghost p0 = self.index as int;
        if self.consume_reserved_token("input")?.is_some() {
            let range = self.range()?;
            let (range, signals) = self.declarations(range)?;
            let ghost names = crate::verilog::string_views(signals@);
            let mut i: usize = 0;
            while i < signals.len()
                invariant
                    module.wf(),
                    i <= signals@.len(),
                    names == crate::verilog::string_views(signals@),
                    module@ == (ModuleView { inputs: with_names(m0.inputs, range@, names.subrange(0, i as int)), ..m0 }),
                decreases signals.len() - i,
            {
                assert(names.subrange(0, i + 1).drop_last() =~= names.subrange(0, i as int));
                module.push_input(Wire::new(range.duplicate(), signals[i].clone()));
                i = i + 1;
            }
            assert(names.subrange(0, i as int) =~= names);
        } else if self.consume_reserved_token("output")?.is_some() {
            let range = self.range()?;
            let (range, signals) = self.declarations(range)?;
            let ghost names = crate::verilog::string_views(signals@);
            let mut i: usize = 0;
            while i < signals.len()
                invariant
                    module.wf(),
                    i <= signals@.len(),
                    names == crate::verilog::string_views(signals@),
                    module@ == (ModuleView { outputs: with_names(m0.outputs, range@, names.subrange(0, i as int)), ..m0 }),
                decreases signals.len() - i,
            {
                assert(names.subrange(0, i + 1).drop_last() =~= names.subrange(0, i as int));
                module.push_output(Wire::new(range.duplicate(), signals[i].clone()));
                i = i + 1;
            }
            assert(names.subrange(0, i as int) =~= names);
        } else if self.consume_reserved_token("wire")?.is_some() {
            let range = self.range()?;
            let (range, signals) = self.declarations(range)?;
            let ghost names = crate::verilog::string_views(signals@);
            let mut i: usize = 0;
            while i < signals.len()
                invariant
                    module.wf(),
                    i <= signals@.len(),
                    names == crate::verilog::string_views(signals@),
                    module@ == (ModuleView { wires: with_names(m0.wires, range@, names.subrange(0, i as int)), ..m0 }),
                decreases signals.len() - i,
            {
                assert(names.subrange(0, i + 1).drop_last() =~= names.subrange(0, i as int));
                module.push_wire(Wire::new(range.duplicate(), signals[i].clone()));
                i = i + 1;
            }
            assert(names.subrange(0, i as int) =~= names);
        } else if self.consume_reserved_token("assign")?.is_some() {
            let expressions = self.expressions()?;
            let ghost es = crate::verilog::string_views(expressions@);
            let mut i: usize = 0;
            while i < expressions.len()
                invariant
                    module.wf(),
                    i <= expressions@.len(),
                    es == crate::verilog::string_views(expressions@),
                    module@ == (ModuleView { assigns: m0.assigns + es.subrange(0, i as int), ..m0 }),
                decreases expressions.len() - i,
            {
                assert(m0.assigns + es.subrange(0, i + 1) =~= (m0.assigns + es.subrange(0, i as int)).push(es[i as int]));
                module.push_assign(expressions[i].clone());
                i = i + 1;
            }
            assert(es.subrange(0, i as int) =~= es);
        } else if let Some(gate_name) = self.consume_identifier_token()? {
            let gate = Gate::new_with_name(gate_name.to_string());
            let ident = self.expect_identifier()?.to_string();
            self.expect_reserved_token("(")?;
            let gate = self.gate_ports(gate)?;
            let ghost q = self.index as int;
            self.expect_reserved_token(")")?;
            module.push_gate(ident, gate);
        } else {
            return Ok(None);
        }
        let ghost q = self.index as int;
        let ghost m1 = module@;
        self.expect_reserved_token(";")?;
        assert(statement_at(m0, ts, p0) == Ok::<Option<(ModuleView, int)>, ()>(Some((m1, q + 1))));
        Ok(Some(()))
    }

    /// `module := "module" identifier "(" declarations ")" ";" statement* "endmodule"`
    fn module(&mut self) -> (r: Result<Option<Module>, ParseError>)
        requires
            old(self).inv(),
        ensures
            final(self).tokens@ == old(self).tokens@,
            final(self).inv(),
            match module_at(old(self).views(), old(self).index as int) {
                Ok(Some((m, q))) => r matches Ok(Some(x)) && x@ == m && x.wf() && final(self).index == q
                    && q > old(self).index,
                Ok(None) => r matches Ok(None),
                Err(_) => r is Err,
            },
    {
        let ghost ts = self.views();
        if self.consume_reserved_token("module")?.is_some() {
            let name = self.expect_identifier()?.to_string();
            let mut module = Module::new_with_name(name);
            self.expect_reserved_token("(")?;
            self.declarations(None)?;
            self.expect_reserved_token(")")?;
            self.expect_reserved_token(";")?;
            let ghost q0 = self.index as int;
            let ghost e0 = module@;
            assert(e0 == empty_module(ts[old(self).index + 1].1)) by {
                assert(e0.inputs =~= Seq::<WireView>::empty());
            }
            assert(module_at(ts, old(self).index as int) == module_rest(e0, ts, q0));
            loop
                invariant_except_break
                    statements_at(e0, ts, q0) == statements_at(module@, ts, self.index as int),
                invariant
                    module_at(ts, old(self).index as int) == module_rest(e0, ts, q0),
                    self.inv(),
                    ts == self.views(),
                    ts == old(self).views(),
                    self.tokens@ == old(self).tokens@,
                    module.wf(),
                    self.index >= q0,
                    q0 > old(self).index,
                ensures
                    statements_at(e0, ts, q0) == Ok::<(ModuleView, int), ()>((module@, self.index as int)),
                decreases self.tokens@.len() - self.index,
            {
                match self.statement(&mut module)? {
                    Some(()) => {},
                    None => {
                        break;
                    },
                }
            }
            self.expect_reserved_token("endmodule")?;
            Ok(Some(module))
        } else {
            Ok(None)
        }
    }

    /// Parses a whole netlist: `module*`.
    pub fn verilog(self) -> (r: Result<Verilog, ParseError>)
        requires
            self.inv(),
        ensures
            match verilog_at(self.views(), self.index as int, Seq::empty()) {
                Ok(ms) => r matches Ok(v) && v@ == ms && v.wf(),
                Err(_) => r is Err,
            },
    {
        let mut parser = self;
        parser.modules()
    }

    /// `module*` from the current position.
    fn modules(&mut self) -> (r: Result<Verilog, ParseError>)
        requires
            old(self).inv(),
        ensures
            match verilog_at(old(self).views(), old(self).index as int, Seq::empty()) {
                Ok(ms) => r matches Ok(v) && v@ == ms && v.wf(),
                Err(_) => r is Err,
            },
    {
        let ghost ts = self.views();
        let ghost start = self.index as int;
        let mut verilog = Verilog::new();
        loop
            invariant_except_break
                verilog_at(ts, start, Seq::empty()) == verilog_at(ts, self.index as int, verilog@),
            invariant
                self.inv(),
                ts == self.views(),
                ts == old(self).views(),
                start == old(self).index,
                self.tokens@ == old(self).tokens@,
                verilog.wf(),
            ensures
                verilog_at(ts, start, Seq::empty()) == Ok::<Seq<ModuleView>, ()>(verilog@),
            decreases self.tokens@.len() - self.index,
        {
            match self.module()? {
                Some(module) => {
                    let ghost prev = verilog@;
                    verilog.push_module(module);
                    assert forall|k: int| 0 <= k < verilog@.len() implies crate::verilog::module_wf(
                        #[trigger] verilog@[k],
                    ) by {
                        if k < prev.len() {
                            assert(verilog@[k] == prev[k]);
                        }
                    }
                },
                None => {
                    break;
                },
            }
        }
        Ok(verilog)
    }
}

impl Verilog {
    /// Reads a netlist from its source text.
    pub fn from_net_list(net_list: &str) -> (r: Result<Verilog, VerilogError>)
        ensures
            match parsed(net_list@) {
                Ok(ms) => r matches Ok(v) && v@ == ms && v.wf(),
                Err(_) => r is Err,
            },
    {
        let lexer = Lexer::from_str(net_list);
        let tokens = lexer.tokenize();
        let parser = Parser::from_tokens(tokens);
        match parser.verilog() {
            Ok(v) => Ok(v),
            Err(e) => Err(VerilogError::ParserError(e)),
        }
    }
}

} // verus!
